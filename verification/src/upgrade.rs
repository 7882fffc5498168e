//! Upgrading a whole system: every package that it is made of is installed anew.

use crate::batch::{failed, failures, failures_are_what_failed};
use crate::text::{equal, texts};
use vstd::prelude::*;
use vstd::string::*;

verus! {

/// The packages that SmechOS is made of.
pub open spec fn smechos_packages() -> Seq<Seq<char>> {
    seq![
        "base-system"@,
        "kernel-modules"@,
        "firmware"@,
        "bootloader-grub"@,
        "kde-frameworks"@,
        "plasma"@,
        "qt6"@,
        "mesa-graphics"@,
        "plasma-discover"@,
        "packagekit-spk"@,
    ]
}

/// The packages that SmechVisor is made of.
pub open spec fn smechvisor_packages() -> Seq<Seq<char>> {
    seq!["smechvisor-daemon"@, "smechvisor-base"@]
}

/// Whether a package is replaced while its daemon is stopped, and takes effect at once.
pub open spec fn is_daemon(name: Seq<char>) -> bool {
    name == "smechvisor-daemon"@
}

/// Whether a package takes effect only after a restart of the machine.
pub open spec fn needs_reboot(name: Seq<char>) -> bool {
    name == "smechvisor-base"@
}

/// Where an upgrade is.
#[derive(Clone, Copy, Debug, PartialEq, Eq, Structural)]
pub enum UpgradePhase {
    Stop,
    Install,
    Start,
    Over,
}

/// What the user is told of the package that was installed last.
#[derive(Clone, Copy, Debug, PartialEq, Eq, Structural)]
pub enum UpgradeNotice {
    Nothing,
    /// The daemon runs again, in its new version.
    Restarted,
    /// The package takes effect after a restart of the machine.
    Reboot,
}

/// An upgrade.
pub struct Upgrade {
    visor: bool,
    root: String,
    names: Vec<String>,
    /// What came of the packages so far.
    results: Vec<bool>,
    phase: UpgradePhase,
    notice: UpgradeNotice,
}

#[verifier::ext_equal]
pub struct UpgradeModel {
    pub visor: bool,
    pub root: Seq<char>,
    pub names: Seq<Seq<char>>,
    pub results: Seq<bool>,
    pub phase: UpgradePhase,
    pub notice: UpgradeNotice,
}

impl View for Upgrade {
    type V = UpgradeModel;

    closed spec fn view(&self) -> UpgradeModel {
        UpgradeModel {
            visor: self.visor,
            root: self.root@,
            names: texts(self.names@),
            results: self.results@,
            phase: self.phase,
            notice: self.notice,
        }
    }
}

/// What is to be done; each is answered by whether it succeeded.
pub enum UpgradeEffect {
    /// Stop the daemon.
    Stop,
    /// Install a package from the repositories; it is the one with this index.
    Install { index: usize, package: String, root: String },
    /// Start the daemon.
    Start,
    /// The upgrade is over; these packages could not be installed.
    Over { failures: Vec<String> },
}

#[verifier::ext_equal]
pub enum UpgradeEffectModel {
    Stop,
    Install { index: nat, package: Seq<char>, root: Seq<char> },
    Start,
    Over { failures: Seq<Seq<char>> },
}

impl View for UpgradeEffect {
    type V = UpgradeEffectModel;

    open spec fn view(&self) -> UpgradeEffectModel {
        match self {
            UpgradeEffect::Stop => UpgradeEffectModel::Stop,
            UpgradeEffect::Install { index, package, root } => UpgradeEffectModel::Install {
                index: *index as nat,
                package: package@,
                root: root@,
            },
            UpgradeEffect::Start => UpgradeEffectModel::Start,
            UpgradeEffect::Over { failures } => UpgradeEffectModel::Over {
                failures: texts(failures@),
            },
        }
    }
}

/// The upgrade turns to its next package; once all are done, it is over.
pub open spec fn upgrade_turn(st: UpgradeModel) -> UpgradeModel {
    UpgradeModel {
        phase: if st.results.len() >= st.names.len() {
            UpgradePhase::Over
        } else if st.visor && is_daemon(st.names[st.results.len() as int]) {
            UpgradePhase::Stop
        } else {
            UpgradePhase::Install
        },
        ..st
    }
}

/// An upgrade at its beginning: of SmechVisor, which runs on the system itself, or of
/// SmechOS, which may be mounted elsewhere.
pub open spec fn upgrade_begin(visor: bool, root: Seq<char>) -> UpgradeModel {
    upgrade_turn(
        UpgradeModel {
            visor,
            root: if visor {
                "/"@
            } else {
                root
            },
            names: if visor {
                smechvisor_packages()
            } else {
                smechos_packages()
            },
            results: seq![],
            phase: UpgradePhase::Over,
            notice: UpgradeNotice::Nothing,
        },
    )
}

/// What is to be done next.
pub open spec fn upgrade_effect(st: UpgradeModel) -> UpgradeEffectModel {
    match st.phase {
        UpgradePhase::Stop => UpgradeEffectModel::Stop,
        UpgradePhase::Install => UpgradeEffectModel::Install {
            index: st.results.len(),
            package: st.names[st.results.len() as int],
            root: st.root,
        },
        UpgradePhase::Start => UpgradeEffectModel::Start,
        UpgradePhase::Over => UpgradeEffectModel::Over { failures: failed(st.names, st.results) },
    }
}

/// What follows.
pub open spec fn upgrade_next(st: UpgradeModel, ok: bool) -> UpgradeModel {
    let quiet = UpgradeModel { notice: UpgradeNotice::Nothing, ..st };
    match st.phase {
        UpgradePhase::Stop => UpgradeModel { phase: UpgradePhase::Install, ..quiet },
        UpgradePhase::Install => {
            let name = st.names[st.results.len() as int];
            let done = UpgradeModel { results: st.results.push(ok), ..quiet };
            if st.visor && is_daemon(name) {
                UpgradeModel { phase: UpgradePhase::Start, ..done }
            } else {
                upgrade_turn(
                    UpgradeModel {
                        notice: if ok && st.visor && needs_reboot(name) {
                            UpgradeNotice::Reboot
                        } else {
                            UpgradeNotice::Nothing
                        },
                        ..done
                    },
                )
            }
        },
        UpgradePhase::Start => upgrade_turn(
            UpgradeModel {
                notice: if st.results.last() {
                    UpgradeNotice::Restarted
                } else {
                    UpgradeNotice::Nothing
                },
                ..quiet
            },
        ),
        UpgradePhase::Over => quiet,
    }
}

/// What holds of every upgrade.
pub open spec fn upgrade_valid(st: UpgradeModel) -> bool {
    &&& st.results.len() <= st.names.len()
    &&& st.phase == UpgradePhase::Stop || st.phase == UpgradePhase::Install ==> st.results.len()
        < st.names.len()
    &&& st.phase == UpgradePhase::Stop ==> st.visor && is_daemon(
        st.names[st.results.len() as int],
    )
    &&& st.phase == UpgradePhase::Start ==> st.results.len() > 0
}

/// The packages that SmechOS is made of.
pub fn list_smechos_packages() -> (r: Vec<String>)
    ensures
        texts(r@) == smechos_packages(),
{
    let mut v: Vec<String> = Vec::new();
    v.push("base-system".to_string());
    v.push("kernel-modules".to_string());
    v.push("firmware".to_string());
    v.push("bootloader-grub".to_string());
    v.push("kde-frameworks".to_string());
    v.push("plasma".to_string());
    v.push("qt6".to_string());
    v.push("mesa-graphics".to_string());
    v.push("plasma-discover".to_string());
    v.push("packagekit-spk".to_string());
    assert(texts(v@) =~= smechos_packages());
    v
}

/// The packages that SmechVisor is made of.
pub fn list_smechvisor_packages() -> (r: Vec<String>)
    ensures
        texts(r@) == smechvisor_packages(),
{
    let mut v: Vec<String> = Vec::new();
    v.push("smechvisor-daemon".to_string());
    v.push("smechvisor-base".to_string());
    assert(texts(v@) =~= smechvisor_packages());
    v
}

/// Begins to upgrade a system, given whether it is SmechVisor and where SmechOS is.
pub fn cmd_system_upgrade(visor: bool, root: &str) -> (r: Upgrade)
    ensures
        r@ == upgrade_begin(visor, root@),
        upgrade_valid(r@),
{
    let mut r = Upgrade {
        visor,
        root: if visor {
            "/".to_string()
        } else {
            root.to_string()
        },
        names: if visor {
            list_smechvisor_packages()
        } else {
            list_smechos_packages()
        },
        results: Vec::new(),
        phase: UpgradePhase::Over,
        notice: UpgradeNotice::Nothing,
    };
    r.turn();
    assert(r@ =~= upgrade_begin(visor, root@));
    r
}

impl Upgrade {
    fn turn(&mut self)
        ensures
            final(self)@ == upgrade_turn(old(self)@),
    {
        let k = self.results.len();
        assert(self@.names.len() == self.names@.len());
        self.phase = if k >= self.names.len() {
            UpgradePhase::Over
        } else {
            assert(self@.names[k as int] == self.names@[k as int]@);
            if self.visor && equal(self.names[k].as_str(), "smechvisor-daemon") {
                UpgradePhase::Stop
            } else {
                UpgradePhase::Install
            }
        };
        assert(self@ =~= upgrade_turn(old(self)@));
    }

    /// How many packages there are.
    pub fn total(&self) -> (r: usize)
        ensures
            r == self@.names.len(),
    {
        self.names.len()
    }

    /// What the user is told before the next effect.
    pub fn notice(&self) -> (r: UpgradeNotice)
        ensures
            r == self@.notice,
    {
        self.notice
    }

    /// What is to be done next.
    pub fn effect(&self) -> (r: UpgradeEffect)
        requires
            upgrade_valid(self@),
        ensures
            r@ == upgrade_effect(self@),
    {
        let k = self.results.len();
        assert(self@.names.len() == self.names@.len());
        match self.phase {
            UpgradePhase::Stop => UpgradeEffect::Stop,
            UpgradePhase::Install => {
                assert(self@.names[k as int] == self.names@[k as int]@);
                UpgradeEffect::Install {
                    index: k,
                    package: self.names[k].clone(),
                    root: self.root.clone(),
                }
            },
            UpgradePhase::Start => UpgradeEffect::Start,
            UpgradePhase::Over => UpgradeEffect::Over {
                failures: failures(&self.names, &self.results),
            },
        }
    }

    /// Takes in whether the effect succeeded, and goes on to the next.
    pub fn advance(&mut self, ok: bool)
        requires
            upgrade_valid(old(self)@),
        ensures
            final(self)@ == upgrade_next(old(self)@, ok),
            upgrade_valid(final(self)@),
    {
        let ghost before = self@;
        assert(self@.names.len() == self.names@.len());
        self.notice = UpgradeNotice::Nothing;
        match self.phase {
            UpgradePhase::Stop => {
                self.phase = UpgradePhase::Install;
            },
            UpgradePhase::Install => {
                let k = self.results.len();
                assert(self@.names[k as int] == self.names@[k as int]@);
                let daemon = self.visor && equal(self.names[k].as_str(), "smechvisor-daemon");
                let reboot = self.visor && equal(self.names[k].as_str(), "smechvisor-base");
                self.results.push(ok);
                if daemon {
                    self.phase = UpgradePhase::Start;
                } else {
                    if ok && reboot {
                        self.notice = UpgradeNotice::Reboot;
                    }
                    self.turn();
                }
            },
            UpgradePhase::Start => {
                if self.results[self.results.len() - 1] {
                    self.notice = UpgradeNotice::Restarted;
                }
                self.turn();
            },
            UpgradePhase::Over => {},
        }
        assert(self@ =~= upgrade_next(before, ok));
    }
}

// ---------------------------------------------------------------- laws

/// The daemon is started again after it was stopped, whatever came of replacing it.
pub proof fn the_daemon_is_started_again(st: UpgradeModel, stopped: bool, replaced: bool)
    requires
        upgrade_valid(st),
        upgrade_effect(st) is Stop,
    ensures
        upgrade_effect(upgrade_next(st, stopped)) is Install,
        upgrade_effect(upgrade_next(upgrade_next(st, stopped), replaced)) is Start,
{
}

/// The state after some answers.
pub open spec fn upgrade_run(st: UpgradeModel, oks: Seq<bool>) -> UpgradeModel
    decreases oks.len(),
{
    if oks.len() == 0 {
        st
    } else {
        upgrade_next(upgrade_run(st, oks.drop_last()), oks.last())
    }
}

/// One package that fails does not keep the others from being tried: an upgrade is over
/// only when every package has been installed or has failed.
pub proof fn every_package_is_tried(visor: bool, root: Seq<char>, oks: Seq<bool>)
    requires
        upgrade_effect(upgrade_run(upgrade_begin(visor, root), oks)) is Over,
    ensures
        upgrade_run(upgrade_begin(visor, root), oks).results.len() == upgrade_begin(
            visor,
            root,
        ).names.len(),
{
    lemma_upgrade_run(visor, root, oks);
}

proof fn lemma_upgrade_run(visor: bool, root: Seq<char>, oks: Seq<bool>)
    ensures
        ({
            let st = upgrade_run(upgrade_begin(visor, root), oks);
            &&& upgrade_valid(st)
            &&& st.names == upgrade_begin(visor, root).names
            &&& st.phase == UpgradePhase::Over ==> st.results.len() == st.names.len()
        }),
    decreases oks.len(),
{
    if oks.len() > 0 {
        lemma_upgrade_run(visor, root, oks.drop_last());
    }
}

proof fn lemma_smechos_run(root: Seq<char>, oks: Seq<bool>)
    requires
        oks.len() <= smechos_packages().len(),
    ensures
        ({
            let st = upgrade_run(upgrade_begin(false, root), oks);
            &&& st.names == smechos_packages() && st.root == root && !st.visor
            &&& st.results == oks
            &&& st.phase == if oks.len() < smechos_packages().len() {
                UpgradePhase::Install
            } else {
                UpgradePhase::Over
            }
        }),
    decreases oks.len(),
{
    if oks.len() > 0 {
        lemma_smechos_run(root, oks.drop_last());
        assert(oks.drop_last().push(oks.last()) =~= oks);
    } else {
        assert(upgrade_begin(false, root).results =~= oks);
    }
}

/// An upgrade of SmechOS installs each of its packages anew into the system's root, in order and
/// whatever came of the ones before; those that failed are named in the end, and no others.
pub proof fn smechos_is_upgraded_package_by_package(
    root: Seq<char>,
    oks: Seq<bool>,
    name: Seq<char>,
)
    requires
        oks.len() <= smechos_packages().len(),
    ensures
        ({
            let e = upgrade_effect(upgrade_run(upgrade_begin(false, root), oks));
            let k = oks.len();
            &&& k < smechos_packages().len() ==> e == (UpgradeEffectModel::Install {
                index: k,
                package: smechos_packages()[k as int],
                root,
            })
            &&& k == smechos_packages().len() ==> (e matches UpgradeEffectModel::Over { failures }
                && (failures.contains(name) <==> exists|i: int|
                0 <= i < k && !(#[trigger] oks[i]) && smechos_packages()[i] == name))
        }),
{
    lemma_smechos_run(root, oks);
    failures_are_what_failed(smechos_packages(), oks, name);
}

/// An upgrade of SmechVisor happens on the running system, wherever else a system is mounted:
/// the daemon is stopped, replaced and started again, then the rest is replaced. The user is
/// told that the daemon runs anew, or that a restart is due, only where the replacement
/// succeeded; what failed is named in the end.
pub proof fn smechvisor_is_upgraded_live(root: Seq<char>, oks: Seq<bool>)
    requires
        oks.len() == 4,
    ensures
        ({
            let s0 = upgrade_begin(true, root);
            let s1 = upgrade_next(s0, oks[0]);
            let s2 = upgrade_next(s1, oks[1]);
            let s3 = upgrade_next(s2, oks[2]);
            let s4 = upgrade_next(s3, oks[3]);
            &&& upgrade_effect(s0) is Stop
            &&& upgrade_effect(s1) == (UpgradeEffectModel::Install {
                index: 0,
                package: "smechvisor-daemon"@,
                root: "/"@,
            })
            &&& upgrade_effect(s2) is Start
            &&& upgrade_effect(s3) == (UpgradeEffectModel::Install {
                index: 1,
                package: "smechvisor-base"@,
                root: "/"@,
            })
            &&& upgrade_effect(s4) matches UpgradeEffectModel::Over { failures } && {
                &&& failures.contains("smechvisor-daemon"@) <==> !oks[1]
                &&& failures.contains("smechvisor-base"@) <==> !oks[3]
            }
            &&& s3.notice == if oks[1] {
                UpgradeNotice::Restarted
            } else {
                UpgradeNotice::Nothing
            }
            &&& s4.notice == if oks[3] {
                UpgradeNotice::Reboot
            } else {
                UpgradeNotice::Nothing
            }
        }),
{
    reveal_strlit("smechvisor-daemon");
    reveal_strlit("smechvisor-base");
    assert("smechvisor-daemon"@.len() != "smechvisor-base"@.len());
    let s2 = upgrade_next(upgrade_next(upgrade_begin(true, root), oks[0]), oks[1]);
    let s4 = upgrade_next(upgrade_next(s2, oks[2]), oks[3]);
    assert(s4.results =~= seq![oks[1], oks[3]]);
    let r = s4.results;
    failures_are_what_failed(smechvisor_packages(), r, "smechvisor-daemon"@);
    failures_are_what_failed(smechvisor_packages(), r, "smechvisor-base"@);
    assert(!oks[1] ==> !r[0] && smechvisor_packages()[0] == "smechvisor-daemon"@);
    assert(!oks[3] ==> !r[1] && smechvisor_packages()[1] == "smechvisor-base"@);
}

/// What the systems are made of: what each list has, and that it has nothing else.
pub proof fn what_the_systems_are_made_of()
    ensures
        smechos_packages() == seq![
            "base-system"@,
            "kernel-modules"@,
            "firmware"@,
            "bootloader-grub"@,
            "kde-frameworks"@,
            "plasma"@,
            "qt6"@,
            "mesa-graphics"@,
            "plasma-discover"@,
            "packagekit-spk"@,
        ],
        smechvisor_packages() == seq!["smechvisor-daemon"@, "smechvisor-base"@],
{
}

} // verus!
