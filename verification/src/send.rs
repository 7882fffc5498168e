//! Sending packages to the machine that announces a code.

use crate::deploy::{
    announcement, deploy_file, deploy_packages, deployed, fetched_file, is_announcement,
};
use crate::fetch::{attempt_models, attempts, fetch_package, AttemptModel, FetchAttempt};
use crate::receive::{receive_begin, ReceivePhase};
use crate::receive_laws::{follows, passed_on, receive_run, what_is_sent_is_passed_on, StepModel};
use crate::repo::{models, Repo, RepoModel};
use crate::std_text::lossy;
use crate::text::{texts, trimmed};
use crate::wire::{
    be_bytes, be_limit, ending, frame, frame_head, frame_header, sendable, stream, stream_end,
    what_goes_over_the_wire, SentModel,
};
use vstd::prelude::*;
use vstd::string::*;
use vstd::utf8::{decode_utf8, encode_utf8, valid_utf8};

verus! {

/// Where the sending is.
#[derive(Clone, Copy, Debug, PartialEq, Eq, Structural)]
pub enum SendPhase {
    /// Wait for the announcement.
    Listen,
    /// Connect to the machine that has made it.
    Connect,
    /// Learn which repositories there are.
    Ask,
    /// Try the next repository.
    Fetch,
    /// Read the package.
    Read,
    /// Send the package.
    Send,
    /// Say that there are no more packages.
    Finish,
    Over,
    /// There was no announcement in time.
    TimedOut,
}

/// A deployment, seen from the machine that sends.
pub struct Sender {
    code: String,
    phase: SendPhase,
    names: Vec<String>,
    /// How many packages have been sent or left out.
    done: usize,
    attempts: Vec<FetchAttempt>,
    tried: usize,
    size: u64,
    /// Whether the last package was left out.
    skipped: bool,
}

#[verifier::ext_equal]
pub struct SenderModel {
    pub code: Seq<char>,
    pub phase: SendPhase,
    pub names: Seq<Seq<char>>,
    pub done: nat,
    pub attempts: Seq<AttemptModel>,
    pub tried: nat,
    pub size: u64,
    pub skipped: bool,
}

impl View for Sender {
    type V = SenderModel;

    closed spec fn view(&self) -> SenderModel {
        SenderModel {
            code: self.code@,
            phase: self.phase,
            names: texts(self.names@),
            done: self.done as nat,
            attempts: attempt_models(self.attempts@),
            tried: self.tried as nat,
            size: self.size,
            skipped: self.skipped,
        }
    }
}

/// What is to be done.
pub enum SendEffect {
    /// Wait for a datagram.
    Listen,
    Connect,
    /// Read the configuration file of the repositories, to fetch a package.
    LoadRepos { package: String },
    /// Fetch a URL into a file; where that fails, remove the file.
    Fetch { attempt: FetchAttempt, dest: String },
    /// Read a file, and remove it.
    Read { path: String },
    /// Send what comes before a package's data, and the data.
    Send { package: String, head: Vec<u8> },
    /// Send what ends a stream.
    Finish { bytes: Vec<u8> },
    Over,
    TimedOut,
}

#[verifier::ext_equal]
pub enum SendEffectModel {
    Listen,
    Connect,
    LoadRepos { package: Seq<char> },
    Fetch { attempt: AttemptModel, dest: Seq<char> },
    Read { path: Seq<char> },
    Send { package: Seq<char>, head: Seq<u8> },
    Finish { bytes: Seq<u8> },
    Over,
    TimedOut,
}

impl View for SendEffect {
    type V = SendEffectModel;

    open spec fn view(&self) -> SendEffectModel {
        match self {
            SendEffect::Listen => SendEffectModel::Listen,
            SendEffect::Connect => SendEffectModel::Connect,
            SendEffect::LoadRepos { package } => SendEffectModel::LoadRepos { package: package@ },
            SendEffect::Fetch { attempt, dest } => SendEffectModel::Fetch {
                attempt: attempt@,
                dest: dest@,
            },
            SendEffect::Read { path } => SendEffectModel::Read { path: path@ },
            SendEffect::Send { package, head } => SendEffectModel::Send {
                package: package@,
                head: head@,
            },
            SendEffect::Finish { bytes } => SendEffectModel::Finish { bytes: bytes@ },
            SendEffect::Over => SendEffectModel::Over,
            SendEffect::TimedOut => SendEffectModel::TimedOut,
        }
    }
}

/// What came of an effect.
pub enum SendEvent {
    Datagram { bytes: Vec<u8> },
    /// No datagram has come in time.
    Timeout,
    Repos { repos: Vec<Repo> },
    Outcome { ok: bool },
    /// The data of the package are so many bytes.
    Size { size: u64 },
    Done,
}

#[verifier::ext_equal]
pub enum SendEventModel {
    Datagram { bytes: Seq<u8> },
    Timeout,
    Repos { repos: Seq<RepoModel> },
    Outcome { ok: bool },
    Size { size: u64 },
    Done,
}

impl View for SendEvent {
    type V = SendEventModel;

    open spec fn view(&self) -> SendEventModel {
        match self {
            SendEvent::Datagram { bytes } => SendEventModel::Datagram { bytes: bytes@ },
            SendEvent::Timeout => SendEventModel::Timeout,
            SendEvent::Repos { repos } => SendEventModel::Repos { repos: models(repos@) },
            SendEvent::Outcome { ok } => SendEventModel::Outcome { ok: *ok },
            SendEvent::Size { size } => SendEventModel::Size { size: *size },
            SendEvent::Done => SendEventModel::Done,
        }
    }
}

/// Whether an event is an answer to an effect.
pub open spec fn send_answers(effect: SendEffectModel, event: SendEventModel) -> bool {
    match effect {
        SendEffectModel::Listen => event is Datagram || event is Timeout,
        SendEffectModel::LoadRepos { .. } => event is Repos,
        SendEffectModel::Fetch { .. } => event is Outcome,
        SendEffectModel::Read { .. } => event is Size,
        SendEffectModel::Connect
        | SendEffectModel::Send { .. }
        | SendEffectModel::Finish { .. } => event is Done,
        SendEffectModel::Over | SendEffectModel::TimedOut => false,
    }
}

pub open spec fn send_begin(code: Seq<char>) -> SenderModel {
    SenderModel {
        code,
        phase: SendPhase::Listen,
        names: deployed(),
        done: 0,
        attempts: seq![],
        tried: 0,
        size: 0,
        skipped: false,
    }
}

/// What is to be done next.
pub open spec fn send_effect(st: SenderModel) -> SendEffectModel {
    let package = st.names[st.done as int];
    match st.phase {
        SendPhase::Listen => SendEffectModel::Listen,
        SendPhase::Connect => SendEffectModel::Connect,
        SendPhase::Ask => SendEffectModel::LoadRepos { package },
        SendPhase::Fetch => SendEffectModel::Fetch {
            attempt: st.attempts[st.tried as int],
            dest: fetched_file(package),
        },
        SendPhase::Read => SendEffectModel::Read { path: fetched_file(package) },
        SendPhase::Send => SendEffectModel::Send {
            package,
            head: frame_head(encode_utf8(package), st.size as nat),
        },
        SendPhase::Finish => SendEffectModel::Finish { bytes: ending() },
        SendPhase::Over => SendEffectModel::Over,
        SendPhase::TimedOut => SendEffectModel::TimedOut,
    }
}

pub open spec fn send_at(st: SenderModel, phase: SendPhase) -> SenderModel {
    SenderModel { phase, ..st }
}

/// The sending turns to its next package; once all are done, to its end.
pub open spec fn send_turn(st: SenderModel) -> SenderModel {
    send_at(
        st,
        if st.done < st.names.len() {
            SendPhase::Ask
        } else {
            SendPhase::Finish
        },
    )
}

/// The sending goes on to the next attempt; once all have failed, without the package.
pub open spec fn send_try(st: SenderModel) -> SenderModel {
    if st.tried < st.attempts.len() {
        send_at(st, SendPhase::Fetch)
    } else {
        send_turn(SenderModel { done: st.done + 1, skipped: true, ..st })
    }
}

/// What follows.
pub open spec fn send_next(state: SenderModel, event: SendEventModel) -> SenderModel {
    let st = SenderModel { skipped: false, ..state };
    match (st.phase, event) {
        (SendPhase::Listen, SendEventModel::Datagram { bytes }) => if trimmed(lossy(bytes))
            == announcement(st.code) {
            send_at(st, SendPhase::Connect)
        } else {
            st
        },
        (SendPhase::Listen, _) => send_at(st, SendPhase::TimedOut),
        (SendPhase::Connect, _) => send_turn(st),
        (SendPhase::Ask, SendEventModel::Repos { repos }) => send_try(
            SenderModel {
                attempts: attempts(repos, st.names[st.done as int], "tar.xz"@),
                tried: 0,
                ..st
            },
        ),
        (SendPhase::Fetch, SendEventModel::Outcome { ok }) => if ok {
            send_at(st, SendPhase::Read)
        } else {
            send_try(SenderModel { tried: st.tried + 1, ..st })
        },
        (SendPhase::Read, SendEventModel::Size { size }) => send_at(
            SenderModel { size, ..st },
            SendPhase::Send,
        ),
        (SendPhase::Send, _) => send_turn(SenderModel { done: st.done + 1, ..st }),
        (SendPhase::Finish, _) => send_at(st, SendPhase::Over),
        _ => st,
    }
}

/// What holds of every deployment.
pub open spec fn send_valid(st: SenderModel) -> bool {
    &&& st.done <= st.names.len()
    &&& match st.phase {
        SendPhase::Ask | SendPhase::Fetch | SendPhase::Read | SendPhase::Send => st.done
            < st.names.len(),
        _ => true,
    }
    &&& st.phase == SendPhase::Fetch ==> st.tried < st.attempts.len()
    &&& forall|i: int|
        0 <= i < st.names.len() ==> 0 < encode_utf8(#[trigger] st.names[i]).len() <= u32::MAX
    &&& st.skipped ==> st.done > 0
}

proof fn lemma_names()
    ensures
        forall|i: int|
            0 <= i < deployed().len() ==> 0 < encode_utf8(#[trigger] deployed()[i]).len()
                <= u32::MAX,
{
    reveal_strlit("smechvisor-base");
    reveal_strlit("smechvisor-daemon");
    vstd::utf8::is_ascii_chars_encode_utf8("smechvisor-base"@);
    vstd::utf8::is_ascii_chars_encode_utf8("smechvisor-daemon"@);
    assert("smechvisor-base"@.len() == 15);
    assert("smechvisor-daemon"@.len() == 17);
}

/// Begins to send packages to the machine that announces a code.
pub fn cmd_deploy_to(code: &str) -> (r: Sender)
    ensures
        r@ == send_begin(code@),
        send_valid(r@),
{
    proof {
        lemma_names();
    }
    let r = Sender {
        code: code.to_string(),
        phase: SendPhase::Listen,
        names: deploy_packages(),
        done: 0,
        attempts: Vec::new(),
        tried: 0,
        size: 0,
        skipped: false,
    };
    assert(r@ =~= send_begin(code@));
    r
}

impl Sender {
    /// The package that has just been left out, if one has.
    pub fn skipped(&self) -> (r: Option<&String>)
        requires
            send_valid(self@),
        ensures
            match r {
                Some(name) => self@.skipped && name@ == self@.names[self@.done - 1],
                None => !self@.skipped,
            },
    {
        if self.skipped {
            assert(self@.names.len() == self.names@.len());
            assert(self@.names[self.done - 1] == self.names@[self.done - 1]@);
            Some(&self.names[self.done - 1])
        } else {
            None
        }
    }

    /// What is to be done next.
    pub fn effect(&self) -> (r: SendEffect)
        requires
            send_valid(self@),
        ensures
            r@ == send_effect(self@),
    {
        proof {
            assert(self@.names.len() == self.names@.len());
            assert(self@.attempts.len() == self.attempts@.len());
            if self.done < self.names@.len() {
                assert(self@.names[self.done as int] == self.names@[self.done as int]@);
            }
        }
        match self.phase {
            SendPhase::Listen => SendEffect::Listen,
            SendPhase::Connect => SendEffect::Connect,
            SendPhase::Ask => SendEffect::LoadRepos { package: self.names[self.done].clone() },
            SendPhase::Fetch => {
                assert(self@.attempts[self.tried as int] == self.attempts@[self.tried as int]@);
                SendEffect::Fetch {
                    attempt: self.attempts[self.tried].copy(),
                    dest: deploy_file(self.names[self.done].as_str()),
                }
            },
            SendPhase::Read => SendEffect::Read {
                path: deploy_file(self.names[self.done].as_str()),
            },
            SendPhase::Send => SendEffect::Send {
                package: self.names[self.done].clone(),
                head: frame_header(self.names[self.done].as_str(), self.size),
            },
            SendPhase::Finish => SendEffect::Finish { bytes: stream_end() },
            SendPhase::Over => SendEffect::Over,
            SendPhase::TimedOut => SendEffect::TimedOut,
        }
    }

    fn turn(&mut self)
        ensures
            final(self)@ == send_turn(old(self)@),
    {
        assert(self@.names.len() == self.names@.len());
        self.phase = if self.done < self.names.len() {
            SendPhase::Ask
        } else {
            SendPhase::Finish
        };
        assert(self@ =~= send_turn(old(self)@));
    }

    fn next_attempt(&mut self)
        requires
            old(self)@.done < old(self)@.names.len(),
        ensures
            final(self)@ == send_try(old(self)@),
    {
        assert(self@.names.len() == self.names@.len());
        assert(self@.attempts.len() == self.attempts@.len());
        if self.tried < self.attempts.len() {
            self.phase = SendPhase::Fetch;
        } else {
            assert(self.done < self.names.len());
            self.done = self.done + 1;
            self.skipped = true;
            self.turn();
        }
        assert(self@ =~= send_try(old(self)@));
    }

    /// Takes in what came of the effect, and goes on to the next.
    pub fn advance(&mut self, event: SendEvent)
        requires
            send_valid(old(self)@),
            send_answers(send_effect(old(self)@), event@),
        ensures
            final(self)@ == send_next(old(self)@, event@),
            send_valid(final(self)@),
            event@ matches SendEventModel::Datagram { bytes } ==> valid_utf8(bytes) ==> (
            final(self)@.phase == SendPhase::Connect <==> trimmed(decode_utf8(bytes))
                == announcement(old(self)@.code)),
    {
        let ghost before = self@;
        proof {
            assert(self@.names.len() == self.names@.len());
            assert(self@.attempts.len() == self.attempts@.len());
            if self.done < self.names@.len() {
                assert(self@.names[self.done as int] == self.names@[self.done as int]@);
            }
        }
        self.skipped = false;
        match event {
            SendEvent::Datagram { bytes } => {
                if is_announcement(bytes.as_slice(), self.code.as_str()) {
                    self.phase = SendPhase::Connect;
                }
            },
            SendEvent::Timeout => {
                self.phase = SendPhase::TimedOut;
            },
            SendEvent::Repos { repos } => {
                self.attempts = fetch_package(self.names[self.done].as_str(), &repos);
                self.tried = 0;
                self.next_attempt();
            },
            SendEvent::Outcome { ok } => {
                if ok {
                    self.phase = SendPhase::Read;
                } else {
                    assert(self.tried < self.attempts.len());
                    self.tried = self.tried + 1;
                    self.next_attempt();
                }
            },
            SendEvent::Size { size } => {
                self.size = size;
                self.phase = SendPhase::Send;
            },
            SendEvent::Done => match self.phase {
                SendPhase::Connect => self.turn(),
                SendPhase::Send => {
                    assert(self.done < self.names.len());
                    self.done = self.done + 1;
                    self.turn();
                },
                _ => {
                    self.phase = SendPhase::Over;
                },
            },
        }
        assert(self@ =~= send_next(before, event@));
    }
}

// ---------------------------------------------------------------- laws

/// What came of an effect, and the data that were sent for it.
pub struct SendStepModel {
    pub event: SendEventModel,
    pub data: Seq<u8>,
}

/// Whether steps are such as a deployment allows: of a package, just its data are sent.
pub open spec fn sends(st: SenderModel, steps: Seq<SendStepModel>) -> bool
    decreases steps.len(),
{
    steps.len() > 0 ==> {
        let step = steps[0];
        &&& send_answers(send_effect(st), step.event)
        &&& step.data.len() == if st.phase == SendPhase::Send {
            st.size as nat
        } else {
            0
        }
        &&& sends(send_next(st, step.event), steps.drop_first())
    }
}

/// The state after some steps.
pub open spec fn send_run(st: SenderModel, steps: Seq<SendStepModel>) -> SenderModel
    decreases steps.len(),
{
    if steps.len() == 0 {
        st
    } else {
        send_run(send_next(st, steps[0].event), steps.drop_first())
    }
}

/// What goes over the network in a step.
pub open spec fn written(st: SenderModel, step: SendStepModel) -> Seq<u8> {
    match send_effect(st) {
        SendEffectModel::Send { head, .. } => head + step.data,
        SendEffectModel::Finish { bytes } => bytes,
        _ => seq![],
    }
}

/// What goes over the network in some steps.
pub open spec fn all_written(st: SenderModel, steps: Seq<SendStepModel>) -> Seq<u8>
    decreases steps.len(),
{
    if steps.len() == 0 {
        seq![]
    } else {
        written(st, steps[0]) + all_written(send_next(st, steps[0].event), steps.drop_first())
    }
}

/// The packages that are sent in some steps.
pub open spec fn all_sent(st: SenderModel, steps: Seq<SendStepModel>) -> Seq<SentModel>
    decreases steps.len(),
{
    if steps.len() == 0 {
        seq![]
    } else {
        let others = all_sent(send_next(st, steps[0].event), steps.drop_first());
        if st.phase == SendPhase::Send {
            seq![
                SentModel { name: encode_utf8(st.names[st.done as int]), data: steps[0].data },
            ] + others
        } else {
            others
        }
    }
}

/// What a deployment sends is the stream of its packages.
pub proof fn a_deployment_sends_a_stream(st: SenderModel, steps: Seq<SendStepModel>)
    requires
        st.phase != SendPhase::Over,
        sends(st, steps),
        send_run(st, steps).phase == SendPhase::Over,
    ensures
        all_written(st, steps) == stream(all_sent(st, steps)),
    decreases steps.len(),
{
    let step = steps[0];
    let next = send_next(st, step.event);
    let later = steps.drop_first();
    if st.phase == SendPhase::Finish {
        reveal_with_fuel(sends, 2);
        assert(later.len() == 0);
        assert(written(st, step) == ending());
        assert(all_written(next, later) =~= seq![]);
        assert(all_written(st, steps) == written(st, step) + all_written(next, later));
        assert(all_written(st, steps) =~= ending());
        assert(all_sent(st, steps) =~= seq![]);
    } else {
        a_deployment_sends_a_stream(next, later);
        let others = all_sent(next, later);
        if st.phase == SendPhase::Send {
            let p = SentModel { name: encode_utf8(st.names[st.done as int]), data: step.data };
            let all = seq![p] + others;
            assert(all[0] == p);
            assert(all.drop_first() =~= others);
            assert(stream(all) == frame(p) + stream(others));
        } else {
            assert(written(st, step) =~= seq![]);
            assert(all_written(st, steps) == written(st, step) + all_written(next, later));
            assert(all_written(st, steps) =~= all_written(next, later));
        }
    }
}

/// The sending stays valid.
pub proof fn send_next_is_valid(st: SenderModel, event: SendEventModel)
    requires
        send_valid(st),
        send_answers(send_effect(st), event),
    ensures
        send_valid(send_next(st, event)),
{
}

proof fn lemma_all_sendable(st: SenderModel, steps: Seq<SendStepModel>, i: int)
    requires
        send_valid(st),
        sends(st, steps),
        0 <= i < all_sent(st, steps).len(),
    ensures
        sendable(all_sent(st, steps)[i]),
    decreases steps.len(),
{
    let next = send_next(st, steps[0].event);
    let later = steps.drop_first();
    send_next_is_valid(st, steps[0].event);
    if st.phase == SendPhase::Send {
        if i == 0 {
            assert(0 < encode_utf8(st.names[st.done as int]).len() <= u32::MAX);
            reveal_with_fuel(be_limit, 9);
        } else {
            lemma_all_sendable(next, later, i - 1);
        }
    } else {
        lemma_all_sendable(next, later, i);
    }
}

/// What one machine sends in a deployment, the other passes on, however it is cut into
/// pieces on its way.
pub proof fn a_deployment_arrives(
    code: Seq<char>,
    steps: Seq<SendStepModel>,
    received: Seq<StepModel>,
)
    requires
        sends(send_begin(code), steps),
        send_run(send_begin(code), steps).phase == SendPhase::Over,
        follows(all_written(send_begin(code), steps), receive_begin(), received),
        receive_run(receive_begin(), received).phase == ReceivePhase::Over || receive_run(
            receive_begin(),
            received,
        ).phase == ReceivePhase::Broken,
    ensures
        passed_on(seq![], receive_begin(), received) == all_sent(send_begin(code), steps),
{
    let st = send_begin(code);
    let ps = all_sent(st, steps);
    lemma_names();
    a_deployment_sends_a_stream(st, steps);
    assert forall|i: int| 0 <= i < ps.len() implies sendable(#[trigger] ps[i]) by {
        lemma_all_sendable(st, steps, i);
    }
    assert(stream(ps) + Seq::<u8>::empty() =~= stream(ps));
    what_is_sent_is_passed_on(ps, Seq::empty(), received);
}

/// Nobody is connected to but the machine that announces the code.
pub proof fn only_the_announced_machine_is_sent_to(st: SenderModel, event: SendEventModel)
    requires
        send_answers(send_effect(st), event),
        send_effect(st) !is Connect,
        send_effect(send_next(st, event)) is Connect,
    ensures
        event matches SendEventModel::Datagram { bytes } && trimmed(lossy(bytes)) == announcement(
            st.code,
        ),
{
}

/// The sender waits until the announcement of the code comes, and connects to nobody before;
/// if it does not come in time, it gives up.
pub proof fn a_sender_waits_for_the_code(code: Seq<char>, bytes: Seq<u8>)
    ensures
        ({
            let st = send_begin(code);
            let next = send_next(st, SendEventModel::Datagram { bytes });
            let mine = trimmed(lossy(bytes)) == "SMECHVISOR_SHIM:"@ + code;
            &&& send_effect(st) is Listen
            &&& mine ==> send_effect(next) is Connect
            &&& !mine ==> next == st
            &&& send_effect(send_next(st, SendEventModel::Timeout)) is TimedOut
        }),
{
    assert(send_begin(code) =~= SenderModel { skipped: false, ..send_begin(code) });
}

/// A sender that deals with a package.
pub open spec fn deals_with(st: SenderModel, k: nat) -> bool {
    &&& st.names == deployed()
    &&& st.done == k < deployed().len()
    &&& st.phase == SendPhase::Ask
}

/// A package is fetched from the repositories in turn: the first that has it serves, and what
/// was fetched is sent, headed by its name and its size. Then comes the next package.
pub proof fn a_package_is_fetched_and_sent(
    st: SenderModel,
    k: nat,
    repos: Seq<RepoModel>,
    size: u64,
)
    requires
        deals_with(st, k),
        attempts(repos, deployed()[k as int], "tar.xz"@).len() > 0,
    ensures
        ({
            let package = deployed()[k as int];
            let file = "/tmp/spk-deploy-"@ + package + ".tar.xz"@;
            let tries = attempts(repos, package, "tar.xz"@);
            let s1 = send_next(st, SendEventModel::Repos { repos });
            let s2 = send_next(s1, SendEventModel::Outcome { ok: true });
            let s3 = send_next(s2, SendEventModel::Size { size });
            let s4 = send_next(s3, SendEventModel::Done);
            &&& send_effect(st) == (SendEffectModel::LoadRepos { package })
            &&& send_effect(s1) == (SendEffectModel::Fetch { attempt: tries[0], dest: file })
            &&& s1.attempts == tries && s1.tried == 0
            &&& send_effect(s2) == (SendEffectModel::Read { path: file })
            &&& send_effect(s3) == (SendEffectModel::Send {
                package,
                head: be_bytes(encode_utf8(package).len(), 4) + encode_utf8(package) + be_bytes(
                    size as nat,
                    8,
                ),
            })
            &&& !s4.skipped
            &&& k + 1 < deployed().len() ==> deals_with(s4, k + 1)
            &&& k + 1 == deployed().len() ==> send_effect(s4) == (SendEffectModel::Finish {
                bytes: seq![0u8, 0u8, 0u8, 0u8],
            }) && send_effect(send_next(s4, SendEventModel::Done)) is Over
        }),
{
    what_goes_over_the_wire(SentModel { name: seq![], data: seq![] }, seq![]);
}

/// Where an attempt fails, the next one is made; after the last, the package is left out, which
/// the user is told, and the next package has its turn all the same.
pub proof fn a_package_that_nobody_has_is_left_out(st: SenderModel, k: nat)
    requires
        st.names == deployed(),
        st.done == k < deployed().len(),
        st.phase == SendPhase::Fetch,
        st.tried < st.attempts.len(),
    ensures
        ({
            let next = send_next(st, SendEventModel::Outcome { ok: false });
            &&& st.tried + 1 < st.attempts.len() ==> send_effect(next) == (SendEffectModel::Fetch {
                attempt: st.attempts[st.tried + 1int],
                dest: "/tmp/spk-deploy-"@ + deployed()[k as int] + ".tar.xz"@,
            }) && next.done == k && !next.skipped
            &&& st.tried + 1 == st.attempts.len() ==> {
                &&& next.skipped
                &&& next.names[next.done - 1] == deployed()[k as int]
                &&& k + 1 < deployed().len() ==> deals_with(next, k + 1)
                &&& k + 1 == deployed().len() ==> send_effect(next) is Finish
            }
        }),
{
}

/// Once it is connected, the sender deals with the first package.
pub proof fn a_sender_begins_with_the_first_package(code: Seq<char>, bytes: Seq<u8>)
    requires
        trimmed(lossy(bytes)) == announcement(code),
    ensures
        deals_with(
            send_next(
                send_next(send_begin(code), SendEventModel::Datagram { bytes }),
                SendEventModel::Done,
            ),
            0,
        ),
{
}

} // verus!
