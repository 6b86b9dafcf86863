use vstd::prelude::*;

verus! {

/// The credential that authenticates every remote mutation. Loading it from
/// disk is the caller's business; the core only carries it.
pub struct Config {
    pub api_key: String,
}

} // verus!
