//! Blocks, block pointers and triggers.
use vstd::prelude::*;

verus! {

/// A pointer to a block: its number and its 32-byte hash.
#[derive(Clone, Copy, Debug)]
pub struct BlockPtr {
    pub number: u64,
    pub hash: [u8; 32],
}

impl BlockPtr {
    pub fn new(number: u64, hash: [u8; 32]) -> (r: BlockPtr)
        ensures
            r.number == number,
            r.hash == hash,
    {
        BlockPtr { number, hash }
    }
}

/// What caused a trigger.
#[derive(Clone, Copy, Debug, PartialEq, Eq, Structural)]
pub enum TriggerKind {
    Log,
    Call,
    Block,
}

/// A trigger of a block, with the hash of its transaction where it has one.
#[derive(Clone, Copy, Debug)]
pub struct Trigger {
    pub kind: TriggerKind,
    pub transaction_hash: Option<[u8; 32]>,
}

/// The trigger type used to label per-trigger processing durations.
#[derive(Clone, Copy, Debug, PartialEq, Eq, Structural)]
pub enum TriggerType {
    Event,
    Call,
    Block,
}

pub open spec fn trigger_type_of(kind: TriggerKind) -> TriggerType {
    match kind {
        TriggerKind::Log => TriggerType::Event,
        TriggerKind::Call => TriggerType::Call,
        TriggerKind::Block => TriggerType::Block,
    }
}

pub open spec fn label_of(t: TriggerType) -> Seq<char> {
    match t {
        TriggerType::Event => "event"@,
        TriggerType::Call => "call"@,
        TriggerType::Block => "block"@,
    }
}

impl TriggerType {
    /// The type of a trigger, by what caused it.
    pub fn of_trigger(trigger: &Trigger) -> (r: TriggerType)
        ensures
            r == trigger_type_of(trigger.kind),
    {
        match trigger.kind {
            TriggerKind::Log => TriggerType::Event,
            TriggerKind::Call => TriggerType::Call,
            TriggerKind::Block => TriggerType::Block,
        }
    }

    /// The value of the `trigger_type` metric label.
    pub fn label_value(&self) -> (r: &'static str)
        ensures
            r@ == label_of(*self),
    {
        match self {
            TriggerType::Event => {
                proof { reveal_strlit("event"); }
                "event"
            },
            TriggerType::Call => {
                proof { reveal_strlit("call"); }
                "call"
            },
            TriggerType::Block => {
                proof { reveal_strlit("block"); }
                "block"
            },
        }
    }
}

impl Trigger {
    /// The transaction hash used to give context to an error: log and call
    /// triggers carry one, block triggers none.
    pub fn error_transaction(&self) -> (r: Option<[u8; 32]>)
        ensures
            r == (match self.kind {
                TriggerKind::Block => None,
                _ => self.transaction_hash,
            }),
    {
        match self.kind {
            TriggerKind::Block => None,
            _ => self.transaction_hash,
        }
    }
}

/// A block with its ordered triggers. `parent` is absent for the genesis block.
pub struct Block {
    pub ptr: BlockPtr,
    pub parent: Option<BlockPtr>,
    pub triggers: Vec<Trigger>,
}

} // verus!
