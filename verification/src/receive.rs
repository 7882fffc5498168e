//! Receiving packages from another machine, without keeping any of them in memory.

use crate::std_text::{from_utf8_lossy, lossy};
use crate::wire::{be_limit, be_value, lemma_be_value, lesser, read_be};
use vstd::prelude::*;
use vstd::utf8::{decode_utf8, valid_utf8};

verus! {

/// Where the receiving is.
#[derive(Clone, Copy, Debug, PartialEq, Eq, Structural)]
pub enum ReceivePhase {
    /// The length of a name is next.
    Length,
    /// A name is next.
    Name,
    /// The size of the data is next.
    Size,
    /// A package begins.
    Start,
    /// Some of its data are next.
    Data,
    /// A package ends.
    End,
    /// The stream is over.
    Over,
    /// The stream has broken off between a name and its data.
    Broken,
}

/// A stream of packages that is being received.
pub struct Receive {
    phase: ReceivePhase,
    length: u32,
    name: Vec<u8>,
    size: u64,
    /// How much of the data is still to come.
    remaining: u64,
}

#[verifier::ext_equal]
pub struct ReceiveModel {
    pub phase: ReceivePhase,
    pub length: u32,
    pub name: Seq<u8>,
    pub size: u64,
    pub remaining: u64,
}

impl View for Receive {
    type V = ReceiveModel;

    closed spec fn view(&self) -> ReceiveModel {
        ReceiveModel {
            phase: self.phase,
            length: self.length,
            name: self.name@,
            size: self.size,
            remaining: self.remaining,
        }
    }
}

/// What is to be done.
pub enum ReceiveEffect {
    /// Read so many bytes, and no fewer.
    Read { count: usize },
    /// Get ready to extract a package.
    Start { name: String, size: u64 },
    /// Read at most so many bytes, and pass them on.
    Pass { limit: usize },
    /// Finish a package.
    End { name: String },
    Over,
    Broken,
}

#[verifier::ext_equal]
pub enum ReceiveEffectModel {
    Read { count: nat },
    Start { name: Seq<char>, size: u64 },
    Pass { limit: nat },
    End { name: Seq<char> },
    Over,
    Broken,
}

impl View for ReceiveEffect {
    type V = ReceiveEffectModel;

    open spec fn view(&self) -> ReceiveEffectModel {
        match self {
            ReceiveEffect::Read { count } => ReceiveEffectModel::Read { count: *count as nat },
            ReceiveEffect::Start { name, size } => ReceiveEffectModel::Start {
                name: name@,
                size: *size,
            },
            ReceiveEffect::Pass { limit } => ReceiveEffectModel::Pass { limit: *limit as nat },
            ReceiveEffect::End { name } => ReceiveEffectModel::End { name: name@ },
            ReceiveEffect::Over => ReceiveEffectModel::Over,
            ReceiveEffect::Broken => ReceiveEffectModel::Broken,
        }
    }
}

/// What came of an effect.
pub enum ReceiveEvent {
    /// The bytes that were asked for.
    Bytes { bytes: Vec<u8> },
    /// The stream did not have the bytes that were asked for.
    Missing,
    /// So many bytes were passed on; none, if there are no more or they were not taken.
    Passed { count: usize },
    Done,
}

#[verifier::ext_equal]
pub enum ReceiveEventModel {
    Bytes { bytes: Seq<u8> },
    Missing,
    Passed { count: nat },
    Done,
}

impl View for ReceiveEvent {
    type V = ReceiveEventModel;

    open spec fn view(&self) -> ReceiveEventModel {
        match self {
            ReceiveEvent::Bytes { bytes } => ReceiveEventModel::Bytes { bytes: bytes@ },
            ReceiveEvent::Missing => ReceiveEventModel::Missing,
            ReceiveEvent::Passed { count } => ReceiveEventModel::Passed { count: *count as nat },
            ReceiveEvent::Done => ReceiveEventModel::Done,
        }
    }
}

/// Whether an event is an answer to an effect.
pub open spec fn receive_answers(effect: ReceiveEffectModel, event: ReceiveEventModel) -> bool {
    match effect {
        ReceiveEffectModel::Read { count } => match event {
            ReceiveEventModel::Bytes { bytes } => bytes.len() == count,
            ReceiveEventModel::Missing => true,
            _ => false,
        },
        ReceiveEffectModel::Pass { limit } => event matches ReceiveEventModel::Passed { count }
            && count <= limit,
        ReceiveEffectModel::Start { .. } | ReceiveEffectModel::End { .. } => event is Done,
        ReceiveEffectModel::Over | ReceiveEffectModel::Broken => false,
    }
}

/// How much is read at once.
pub open spec fn chunk_limit(remaining: u64) -> nat {
    lesser(remaining as nat, 65536)
}

pub open spec fn receive_begin() -> ReceiveModel {
    ReceiveModel {
        phase: ReceivePhase::Length,
        length: 0,
        name: seq![],
        size: 0,
        remaining: 0,
    }
}

/// What is to be done next.
pub open spec fn receive_effect(st: ReceiveModel) -> ReceiveEffectModel {
    match st.phase {
        ReceivePhase::Length => ReceiveEffectModel::Read { count: 4 },
        ReceivePhase::Name => ReceiveEffectModel::Read { count: st.length as nat },
        ReceivePhase::Size => ReceiveEffectModel::Read { count: 8 },
        ReceivePhase::Start => ReceiveEffectModel::Start { name: lossy(st.name), size: st.size },
        ReceivePhase::Data => ReceiveEffectModel::Pass { limit: chunk_limit(st.remaining) },
        ReceivePhase::End => ReceiveEffectModel::End { name: lossy(st.name) },
        ReceivePhase::Over => ReceiveEffectModel::Over,
        ReceivePhase::Broken => ReceiveEffectModel::Broken,
    }
}

pub open spec fn receive_at(st: ReceiveModel, phase: ReceivePhase) -> ReceiveModel {
    ReceiveModel { phase, ..st }
}

/// The package goes on as long as some of its data is to come.
pub open spec fn receive_data(st: ReceiveModel) -> ReceiveModel {
    receive_at(
        st,
        if st.remaining > 0 {
            ReceivePhase::Data
        } else {
            ReceivePhase::End
        },
    )
}

/// What follows.
pub open spec fn receive_next(st: ReceiveModel, event: ReceiveEventModel) -> ReceiveModel {
    match (st.phase, event) {
        (ReceivePhase::Length, ReceiveEventModel::Bytes { bytes }) => {
            let n = be_value(bytes) as u32;
            receive_at(
                ReceiveModel { length: n, ..st },
                if n == 0 {
                    ReceivePhase::Over
                } else {
                    ReceivePhase::Name
                },
            )
        },
        (ReceivePhase::Name, ReceiveEventModel::Bytes { bytes }) => receive_at(
            ReceiveModel { name: bytes, ..st },
            ReceivePhase::Size,
        ),
        (ReceivePhase::Size, ReceiveEventModel::Bytes { bytes }) => {
            let n = be_value(bytes) as u64;
            receive_at(ReceiveModel { size: n, remaining: n, ..st }, ReceivePhase::Start)
        },
        (ReceivePhase::Length, _) | (ReceivePhase::Name, _) => receive_at(st, ReceivePhase::Over),
        (ReceivePhase::Size, _) => receive_at(st, ReceivePhase::Broken),
        (ReceivePhase::Start, _) => receive_data(st),
        (ReceivePhase::Data, ReceiveEventModel::Passed { count }) => if count == 0 {
            receive_at(st, ReceivePhase::End)
        } else {
            receive_data(ReceiveModel { remaining: (st.remaining - count) as u64, ..st })
        },
        (ReceivePhase::End, _) => receive_at(st, ReceivePhase::Length),
        _ => st,
    }
}

/// Begins to receive packages.
pub fn cmd_receive_deploy() -> (r: Receive)
    ensures
        r@ == receive_begin(),
{
    let r = Receive {
        phase: ReceivePhase::Length,
        length: 0,
        name: Vec::new(),
        size: 0,
        remaining: 0,
    };
    assert(r@ =~= receive_begin());
    r
}

/// At most eight bytes stand for a small number.
pub proof fn lemma_small(bytes: Seq<u8>)
    ensures
        bytes.len() == 4 ==> be_value(bytes) <= u32::MAX,
        bytes.len() == 8 ==> be_value(bytes) <= u64::MAX,
{
    lemma_be_value(bytes);
    reveal_with_fuel(be_limit, 9);
}

impl Receive {
    /// What is to be done next.
    pub fn effect(&self) -> (r: ReceiveEffect)
        ensures
            r@ == receive_effect(self@),
            valid_utf8(self@.name) ==> match r@ {
                ReceiveEffectModel::Start { name, .. } => name == decode_utf8(self@.name),
                ReceiveEffectModel::End { name } => name == decode_utf8(self@.name),
                _ => true,
            },
    {
        match self.phase {
            ReceivePhase::Length => ReceiveEffect::Read { count: 4 },
            ReceivePhase::Name => ReceiveEffect::Read { count: self.length as usize },
            ReceivePhase::Size => ReceiveEffect::Read { count: 8 },
            ReceivePhase::Start => ReceiveEffect::Start {
                name: from_utf8_lossy(self.name.as_slice()),
                size: self.size,
            },
            ReceivePhase::Data => ReceiveEffect::Pass {
                limit: if self.remaining <= 65536 {
                    self.remaining as usize
                } else {
                    65536
                },
            },
            ReceivePhase::End => ReceiveEffect::End {
                name: from_utf8_lossy(self.name.as_slice()),
            },
            ReceivePhase::Over => ReceiveEffect::Over,
            ReceivePhase::Broken => ReceiveEffect::Broken,
        }
    }

    fn go_on_with_data(&mut self)
        ensures
            final(self)@ == receive_data(old(self)@),
    {
        self.phase = if self.remaining > 0 {
            ReceivePhase::Data
        } else {
            ReceivePhase::End
        };
    }

    /// Takes in what came of the effect, and goes on to the next.
    pub fn advance(&mut self, event: ReceiveEvent)
        requires
            receive_answers(receive_effect(old(self)@), event@),
        ensures
            final(self)@ == receive_next(old(self)@, event@),
    {
        match event {
            ReceiveEvent::Bytes { bytes } => {
                proof {
                    lemma_small(bytes@);
                }
                match self.phase {
                    ReceivePhase::Length => {
                        self.length = read_be(bytes.as_slice()) as u32;
                        self.phase = if self.length == 0 {
                            ReceivePhase::Over
                        } else {
                            ReceivePhase::Name
                        };
                    },
                    ReceivePhase::Name => {
                        self.name = bytes;
                        self.phase = ReceivePhase::Size;
                    },
                    _ => {
                        let n = read_be(bytes.as_slice());
                        self.size = n;
                        self.remaining = n;
                        self.phase = ReceivePhase::Start;
                    },
                }
            },
            ReceiveEvent::Missing => {
                self.phase = match self.phase {
                    ReceivePhase::Size => ReceivePhase::Broken,
                    _ => ReceivePhase::Over,
                };
            },
            ReceiveEvent::Passed { count } => {
                if count == 0 {
                    self.phase = ReceivePhase::End;
                } else {
                    self.remaining = self.remaining - count as u64;
                    self.go_on_with_data();
                }
            },
            ReceiveEvent::Done => match self.phase {
                ReceivePhase::Start => self.go_on_with_data(),
                _ => {
                    self.phase = ReceivePhase::Length;
                },
            },
        }
        assert(self@ =~= receive_next(old(self)@, event@));
    }
}

} // verus!
