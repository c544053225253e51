//! Errors of mappings, of block processing, and the error record that the
//! store keeps for a deployment.
use vstd::prelude::*;
use crate::block::BlockPtr;

verus! {

/// Where a trigger failed: the block and, for log and call triggers, the
/// transaction.
pub struct TriggerContext {
    pub block: BlockPtr,
    pub transaction: Option<[u8; 32]>,
}

/// An error recorded against a deployment.
pub struct SubgraphError {
    pub message: String,
    pub block_ptr: Option<BlockPtr>,
    /// The transaction of the trigger that failed, where one is known.
    pub transaction: Option<[u8; 32]>,
    pub handler: Option<String>,
    /// Whether the cause was the mapping's own logic, reproducible from chain data.
    pub deterministic: bool,
}

/// How a mapping handler failed.
pub enum MappingError {
    /// A host or runtime failure.
    Unknown(String),
    /// The handler saw state inconsistent with the latest block.
    PossibleReorg(String),
}

/// How processing a block failed.
pub enum BlockProcessingError {
    Unknown(String),
    /// An unknown error of a handler, with the trigger it failed on.
    Trigger(String, TriggerContext),
    /// A deterministic error halted processing.
    Deterministic(SubgraphError),
    /// The block stream was canceled; nothing was committed.
    Canceled,
}

impl BlockProcessingError {
    pub fn is_deterministic(&self) -> (r: bool)
        ensures
            r == (self is Deterministic),
    {
        match self {
            BlockProcessingError::Deterministic(_) => true,
            _ => false,
        }
    }
}

impl From<String> for BlockProcessingError {
    fn from(e: String) -> (r: BlockProcessingError) {
        BlockProcessingError::Unknown(e)
    }
}

impl vstd::std_specs::convert::FromSpecImpl<String> for BlockProcessingError {
    open spec fn obeys_from_spec() -> bool {
        true
    }

    open spec fn from_spec(e: String) -> BlockProcessingError {
        BlockProcessingError::Unknown(e)
    }
}

impl SubgraphError {
    pub fn new(message: String, block_ptr: Option<BlockPtr>, handler: Option<String>, deterministic: bool) -> (r: SubgraphError)
        ensures
            r.message == message,
            r.block_ptr == block_ptr,
            r.transaction is None,
            r.handler == handler,
            r.deterministic == deterministic,
    {
        SubgraphError { message, block_ptr, transaction: None, handler, deterministic }
    }
}

} // verus!
