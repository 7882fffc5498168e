//! What is received is what was sent.

use crate::receive::{
    lemma_small, receive_answers, receive_begin, receive_effect, receive_next, ReceiveEffectModel,
    ReceiveEventModel, ReceiveModel, ReceivePhase,
};
use crate::std_text::lossy;
use crate::wire::{
    arriving, be_bytes, be_limit, be_value, lemma_be_bytes, lesser, sendable, stream,
    what_is_sent_arrives, SentModel,
};
use vstd::prelude::*;

verus! {

/// What holds while packages are received.
pub open spec fn receive_valid(st: ReceiveModel) -> bool {
    &&& st.phase == ReceivePhase::Name || st.phase == ReceivePhase::Size ==> st.length > 0
    &&& st.phase == ReceivePhase::Size ==> st.name.len() == st.length
    &&& st.phase == ReceivePhase::Data ==> st.remaining > 0
}

/// The receiving stays valid.
pub proof fn receive_next_is_valid(st: ReceiveModel, event: ReceiveEventModel)
    requires
        receive_valid(st),
        receive_answers(receive_effect(st), event),
    ensures
        receive_valid(receive_next(st, event)),
{
}

/// The data that the package at hand still gets from what is left of the stream.
pub open spec fn data_left(st: ReceiveModel, rest: Seq<u8>) -> Seq<u8> {
    match st.phase {
        ReceivePhase::Start | ReceivePhase::Data => rest.take(
            lesser(st.remaining as nat, rest.len()) as int,
        ),
        _ => seq![],
    }
}

/// The packages that are still to begin, given what is left of the stream.
pub open spec fn packages_left(st: ReceiveModel, rest: Seq<u8>) -> Seq<SentModel> {
    match st.phase {
        ReceivePhase::Length | ReceivePhase::End => arriving(rest),
        ReceivePhase::Name => arriving(be_bytes(st.length as nat, 4) + rest),
        ReceivePhase::Size => arriving(be_bytes(st.length as nat, 4) + st.name + rest),
        ReceivePhase::Start | ReceivePhase::Data => arriving(
            rest.skip(lesser(st.remaining as nat, rest.len()) as int),
        ),
        ReceivePhase::Over | ReceivePhase::Broken => seq![],
    }
}

/// Reading loses nothing of the stream: what is to come before some bytes are read is what
/// is to come after them. With the size of its data, a package begins.
pub proof fn reading_keeps_what_is_to_come(st: ReceiveModel, bytes: Seq<u8>, rest: Seq<u8>)
    requires
        receive_valid(st),
        receive_effect(st) == (ReceiveEffectModel::Read { count: bytes.len() }),
    ensures
        ({
            let next = receive_next(st, ReceiveEventModel::Bytes { bytes });
            packages_left(st, bytes + rest) == if next.phase == ReceivePhase::Start {
                seq![SentModel { name: st.name, data: data_left(next, rest) }] + packages_left(
                    next,
                    rest,
                )
            } else {
                packages_left(next, rest)
            }
        }),
{
    let next = receive_next(st, ReceiveEventModel::Bytes { bytes });
    lemma_small(bytes);
    match st.phase {
        ReceivePhase::Length => {
            let s = bytes + rest;
            assert(s.take(4) =~= bytes);
            if next.length > 0 {
                lemma_same_value(bytes);
                assert(be_bytes(next.length as nat, 4) == bytes);
            }
        },
        ReceivePhase::Name => {
            assert(be_bytes(st.length as nat, 4) + (bytes + rest) =~= be_bytes(st.length as nat, 4)
                + bytes + rest);
        },
        _ => {
            let a = be_bytes(st.length as nat, 4);
            lemma_be_bytes(st.length as nat, 4);
            assert(be_limit(4) == 0x1_0000_0000) by {
                reveal_with_fuel(be_limit, 9);
            }
            let s = a + st.name + (bytes + rest);
            let n = st.name.len() as int;
            assert(s.take(4) =~= a);
            assert(s.subrange(4, 4 + n) =~= st.name);
            assert(s.subrange(4 + n, 12 + n) =~= bytes);
            assert(s.skip(12 + n) =~= rest);
        },
    }
}

/// Bytes are the bytes of the number that they stand for.
proof fn lemma_same_value(s: Seq<u8>)
    ensures
        be_bytes(be_value(s), s.len()) == s,
    decreases s.len(),
{
    if s.len() > 0 {
        lemma_same_value(s.drop_last());
        let v = be_value(s.drop_last());
        let last = s.last() as nat;
        assert((v * 256 + last) / 256 == v);
        assert((v * 256 + last) % 256 == last);
        assert(s =~= s.drop_last().push(s.last()));
    } else {
        assert(s =~= seq![]);
    }
}

/// Where the stream breaks off while bytes are read, no further package is to come.
pub proof fn a_broken_stream_has_nothing_to_come(st: ReceiveModel, rest: Seq<u8>)
    requires
        receive_valid(st),
        receive_effect(st) matches ReceiveEffectModel::Read { count } && rest.len() < count,
    ensures
        packages_left(st, rest) == Seq::<SentModel>::empty(),
        packages_left(receive_next(st, ReceiveEventModel::Missing), rest) == Seq::<
            SentModel,
        >::empty(),
{
    match st.phase {
        ReceivePhase::Length => {},
        _ => {
            let a = be_bytes(st.length as nat, 4);
            lemma_be_bytes(st.length as nat, 4);
            assert(be_limit(4) == 0x1_0000_0000) by {
                reveal_with_fuel(be_limit, 9);
            }
            assert((a + rest).take(4) =~= a);
            assert((a + st.name + rest).take(4) =~= a);
        },
    }
}

/// Passing data on loses nothing of the stream either: what the package gets is the bytes
/// that are passed on, and after them what it still gets; it ends when it has all its data,
/// or when the stream does.
pub proof fn passing_keeps_what_is_to_come(st: ReceiveModel, bytes: Seq<u8>, rest: Seq<u8>)
    requires
        receive_valid(st),
        receive_effect(st) matches ReceiveEffectModel::Pass { limit } && bytes.len() <= limit,
        bytes.len() == 0 ==> rest.len() == 0,
    ensures
        ({
            let next = receive_next(st, ReceiveEventModel::Passed { count: bytes.len() });
            &&& data_left(st, bytes + rest) == bytes + data_left(next, rest)
            &&& packages_left(st, bytes + rest) == packages_left(next, rest)
        }),
{
    let next = receive_next(st, ReceiveEventModel::Passed { count: bytes.len() });
    let s = bytes + rest;
    let k = lesser(st.remaining as nat, s.len()) as int;
    if bytes.len() == 0 {
        assert(s.take(k) =~= bytes + data_left(next, rest));
        assert(s.skip(k) =~= rest);
    } else {
        let m = lesser(next.remaining as nat, rest.len()) as int;
        assert(k == bytes.len() + m);
        assert(s.take(k) =~= bytes + rest.take(m));
        assert(s.skip(k) =~= rest.skip(m));
        if next.remaining == 0 {
            assert(rest.take(0) =~= seq![]);
            assert(rest.skip(0) =~= rest);
        }
    }
}

/// A package that begins gets what it still gets.
pub proof fn starting_keeps_what_is_to_come(st: ReceiveModel, rest: Seq<u8>)
    requires
        receive_effect(st) is Start || receive_effect(st) is End,
    ensures
        ({
            let next = receive_next(st, ReceiveEventModel::Done);
            &&& data_left(st, rest) == data_left(next, rest)
            &&& packages_left(st, rest) == packages_left(next, rest)
        }),
{
    if st.phase == ReceivePhase::Start && st.remaining == 0 {
        assert(rest.take(0) =~= seq![]);
        assert(rest.skip(0) =~= rest);
    }
}


// ---------------------------------------------------------------- whole streams

/// What came of an effect, and the bytes that were taken from the stream for it.
pub struct StepModel {
    pub event: ReceiveEventModel,
    pub bytes: Seq<u8>,
}

/// Whether a step is one that a stream allows: the bytes are taken from its front; bytes are
/// missing, or there are none to pass on, only where it ends.
pub open spec fn allows(s: Seq<u8>, st: ReceiveModel, step: StepModel) -> bool {
    &&& receive_answers(receive_effect(st), step.event)
    &&& step.bytes.len() <= s.len()
    &&& s.take(step.bytes.len() as int) == step.bytes
    &&& match step.event {
        ReceiveEventModel::Bytes { bytes } => step.bytes == bytes,
        ReceiveEventModel::Missing => {
            &&& step.bytes.len() == 0
            &&& receive_effect(st) matches ReceiveEffectModel::Read { count } && s.len() < count
        },
        ReceiveEventModel::Passed { count } => {
            &&& step.bytes.len() == count
            &&& count == 0 ==> s.len() == 0
        },
        ReceiveEventModel::Done => step.bytes.len() == 0,
    }
}

/// Whether steps are such as a stream allows, one after the other.
pub open spec fn follows(s: Seq<u8>, st: ReceiveModel, steps: Seq<StepModel>) -> bool
    decreases steps.len(),
{
    steps.len() > 0 ==> {
        let step = steps[0];
        &&& allows(s, st, step)
        &&& follows(
            s.skip(step.bytes.len() as int),
            receive_next(st, step.event),
            steps.drop_first(),
        )
    }
}

/// The state after some steps.
pub open spec fn receive_run(st: ReceiveModel, steps: Seq<StepModel>) -> ReceiveModel
    decreases steps.len(),
{
    if steps.len() == 0 {
        st
    } else {
        receive_run(receive_next(st, steps[0].event), steps.drop_first())
    }
}

/// The packages so far after one more step: one more begins, or the last gets more data.
pub open spec fn with_step(
    got: Seq<SentModel>,
    st: ReceiveModel,
    step: StepModel,
) -> Seq<SentModel> {
    if receive_next(st, step.event).phase == ReceivePhase::Start {
        got.push(SentModel { name: st.name, data: seq![] })
    } else if st.phase == ReceivePhase::Data {
        with_data(got, step.bytes)
    } else {
        got
    }
}

/// The packages with more data for the last.
pub open spec fn with_data(got: Seq<SentModel>, bytes: Seq<u8>) -> Seq<SentModel> {
    got.drop_last().push(SentModel { name: got.last().name, data: got.last().data + bytes })
}

/// The packages that some steps pass on.
pub open spec fn passed_on(
    got: Seq<SentModel>,
    st: ReceiveModel,
    steps: Seq<StepModel>,
) -> Seq<SentModel>
    decreases steps.len(),
{
    if steps.len() == 0 {
        got
    } else {
        passed_on(
            with_step(got, st, steps[0]),
            receive_next(st, steps[0].event),
            steps.drop_first(),
        )
    }
}

/// The packages so far, and all that is to come.
spec fn whole(got: Seq<SentModel>, st: ReceiveModel, s: Seq<u8>) -> Seq<SentModel> {
    if st.phase == ReceivePhase::Start || st.phase == ReceivePhase::Data {
        with_data(got, data_left(st, s)) + packages_left(st, s)
    } else {
        got + packages_left(st, s)
    }
}

/// Where a package is at hand, it is the last so far.
spec fn at_hand(got: Seq<SentModel>, st: ReceiveModel) -> bool {
    st.phase == ReceivePhase::Start || st.phase == ReceivePhase::Data ==> got.len() > 0
}

proof fn lemma_whole_step(got: Seq<SentModel>, st: ReceiveModel, s: Seq<u8>, step: StepModel)
    requires
        receive_valid(st),
        at_hand(got, st),
        allows(s, st, step),
    ensures
        ({
            let next = receive_next(st, step.event);
            let more = with_step(got, st, step);
            let rest = s.skip(step.bytes.len() as int);
            &&& receive_valid(next)
            &&& at_hand(more, next)
            &&& whole(more, next, rest) == whole(got, st, s)
        }),
{
    let next = receive_next(st, step.event);
    let more = with_step(got, st, step);
    let rest = s.skip(step.bytes.len() as int);
    receive_next_is_valid(st, step.event);
    assert(s =~= step.bytes + rest);
    match step.event {
        ReceiveEventModel::Bytes { bytes } => {
            reading_keeps_what_is_to_come(st, bytes, rest);
            if next.phase == ReceivePhase::Start {
                let first = SentModel { name: st.name, data: data_left(next, rest) };
                assert(more.drop_last() =~= got);
                assert(seq![] + data_left(next, rest) =~= data_left(next, rest));
                assert(with_data(more, data_left(next, rest)) =~= got.push(first));
                assert(got.push(first) + packages_left(next, rest) =~= got + (seq![first]
                    + packages_left(next, rest)));
            }
        },
        ReceiveEventModel::Missing => {
            a_broken_stream_has_nothing_to_come(st, s);
            assert(rest =~= s);
        },
        ReceiveEventModel::Passed { count } => {
            passing_keeps_what_is_to_come(st, step.bytes, rest);
            let last = got.last();
            let left = data_left(next, rest);
            assert(last.data + step.bytes + left =~= last.data + (step.bytes + left));
            assert(with_data(more, left) =~= with_data(got, step.bytes + left));
            if next.phase != ReceivePhase::Data {
                assert(step.bytes + left =~= step.bytes);
                assert(with_data(got, step.bytes + left) =~= more);
            }
        },
        ReceiveEventModel::Done => {
            starting_keeps_what_is_to_come(st, s);
            assert(rest =~= s);
            if st.phase == ReceivePhase::Start && next.phase == ReceivePhase::End {
                assert(got.last().data + data_left(st, s) =~= got.last().data);
                assert(with_data(got, data_left(st, s)) =~= got);
            }
        },
    }
}

proof fn lemma_whole(got: Seq<SentModel>, st: ReceiveModel, s: Seq<u8>, steps: Seq<StepModel>)
    requires
        receive_valid(st),
        at_hand(got, st),
        follows(s, st, steps),
        receive_run(st, steps).phase == ReceivePhase::Over || receive_run(st, steps).phase
            == ReceivePhase::Broken,
    ensures
        passed_on(got, st, steps) == whole(got, st, s),
    decreases steps.len(),
{
    if steps.len() == 0 {
        assert(got + Seq::<SentModel>::empty() =~= got);
    } else {
        let step = steps[0];
        lemma_whole_step(got, st, s, step);
        lemma_whole(
            with_step(got, st, step),
            receive_next(st, step.event),
            s.skip(step.bytes.len() as int),
            steps.drop_first(),
        );
    }
}

/// However a stream is cut into pieces on its way, the packages that are passed on are those
/// that arrive in it.
pub proof fn what_arrives_is_passed_on(s: Seq<u8>, steps: Seq<StepModel>)
    requires
        follows(s, receive_begin(), steps),
        receive_run(receive_begin(), steps).phase == ReceivePhase::Over || receive_run(
            receive_begin(),
            steps,
        ).phase == ReceivePhase::Broken,
    ensures
        passed_on(seq![], receive_begin(), steps) == arriving(s),
{
    lemma_whole(seq![], receive_begin(), s, steps);
    assert(Seq::<SentModel>::empty() + arriving(s) =~= arriving(s));
}

/// What one machine sends, the other passes on.
pub proof fn what_is_sent_is_passed_on(
    ps: Seq<SentModel>,
    rest: Seq<u8>,
    steps: Seq<StepModel>,
)
    requires
        forall|i: int| 0 <= i < ps.len() ==> sendable(#[trigger] ps[i]),
        follows(stream(ps) + rest, receive_begin(), steps),
        receive_run(receive_begin(), steps).phase == ReceivePhase::Over || receive_run(
            receive_begin(),
            steps,
        ).phase == ReceivePhase::Broken,
    ensures
        passed_on(seq![], receive_begin(), steps) == ps,
{
    what_arrives_is_passed_on(stream(ps) + rest, steps);
    what_is_sent_arrives(ps, rest);
}

/// What is received of a package, step by step: the length of its name, the name, the length of
/// its data, and the data, at most so much at once as is to come. Its name is known before its
/// data come, and once they all are there, the next package is waited for.
pub proof fn a_package_is_received(
    st: ReceiveModel,
    length: Seq<u8>,
    name: Seq<u8>,
    size: Seq<u8>,
    count: nat,
)
    requires
        st.phase == ReceivePhase::Length,
        length.len() == 4,
        be_value(length) == name.len(),
        name.len() > 0,
        size.len() == 8,
    ensures
        ({
            let n = be_value(size);
            let s1 = receive_next(st, ReceiveEventModel::Bytes { bytes: length });
            let s2 = receive_next(s1, ReceiveEventModel::Bytes { bytes: name });
            let s3 = receive_next(s2, ReceiveEventModel::Bytes { bytes: size });
            let s4 = receive_next(s3, ReceiveEventModel::Done);
            let s5 = receive_next(s4, ReceiveEventModel::Passed { count });
            &&& receive_effect(st) == (ReceiveEffectModel::Read { count: 4 })
            &&& receive_effect(s1) == (ReceiveEffectModel::Read { count: name.len() })
            &&& receive_effect(s2) == (ReceiveEffectModel::Read { count: 8 })
            &&& receive_effect(s3) == (ReceiveEffectModel::Start {
                name: lossy(name),
                size: n as u64,
            })
            &&& n > 0 ==> receive_effect(s4) == (ReceiveEffectModel::Pass {
                limit: if n <= 65536 {
                    n
                } else {
                    65536
                },
            })
            &&& n == 0 ==> receive_effect(s4) == (ReceiveEffectModel::End { name: lossy(name) })
            &&& n > 0 && (count == n || count == 0) ==> receive_effect(s5) == (
            ReceiveEffectModel::End { name: lossy(name) }) && receive_effect(
                receive_next(s5, ReceiveEventModel::Done),
            ) == (ReceiveEffectModel::Read { count: 4 })
            &&& 0 < count < n ==> s5.remaining == n - count && receive_effect(s5) is Pass
        }),
{
    lemma_small(length);
    lemma_small(size);
}

/// A reception is over when a name of no length comes, or when the stream ends before a name;
/// a stream that ends between a name and the length of its data is broken.
pub proof fn a_reception_ends(st: ReceiveModel, length: Seq<u8>)
    ensures
        st.phase == ReceivePhase::Length && length.len() == 4 && be_value(length) == 0
            ==> receive_effect(receive_next(st, ReceiveEventModel::Bytes { bytes: length })) is Over,
        st.phase == ReceivePhase::Length || st.phase == ReceivePhase::Name ==> receive_effect(
            receive_next(st, ReceiveEventModel::Missing),
        ) is Over,
        st.phase == ReceivePhase::Size ==> receive_effect(
            receive_next(st, ReceiveEventModel::Missing),
        ) is Broken,
        receive_effect(receive_begin()) == (ReceiveEffectModel::Read { count: 4 }),
{
    lemma_small(length);
}

} // verus!
