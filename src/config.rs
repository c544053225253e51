//! Configuration of the engine and the checks made when a deployment starts.
use vstd::prelude::*;

verus! {

/// The default budget of the entity LFU cache, in KB.
pub const DEFAULT_ENTITY_CACHE_SIZE_KB: u64 = 10000;

/// The LFU cache's budget in bytes for a size in KB; `None` where it does not
/// fit in a `u64`.
pub fn entity_cache_budget(size_kb: u64) -> (r: Option<u64>)
    ensures
        size_kb * 1000 <= u64::MAX ==> r == Some((size_kb * 1000) as u64),
        size_kb * 1000 > u64::MAX ==> r is None,
{
    size_kb.checked_mul(1000)
}

/// Why a deployment could not start.
pub enum StartError {
    /// No chain store serves the manifest's network.
    NoChainStore(String),
    /// No chain adapter serves the network with the capabilities required.
    NoAdapter(String, String),
}

/// Whether a deployment on `network` can start, given whether a chain store
/// serves the network and what the search for an adapter with the required
/// capabilities gave.
pub fn check_chain_support(network: String, has_chain_store: bool, adapter: Result<(), String>) -> (r:
    Result<(), StartError>)
    ensures
        !has_chain_store ==> (r matches Err(StartError::NoChainStore(n)) && n@ == network@),
        has_chain_store && adapter is Err ==> (r matches Err(StartError::NoAdapter(n, _)) && n@
            == network@),
        has_chain_store && adapter is Ok ==> r is Ok,
{
    if !has_chain_store {
        return Err(StartError::NoChainStore(network));
    }
    match adapter {
        Ok(()) => Ok(()),
        Err(m) => Err(StartError::NoAdapter(network, m)),
    }
}

} // verus!
