use vstd::prelude::*;

verus! {

/// One row of the final report: a client's balances as text.
#[derive(Debug, PartialEq, Eq)]
pub struct AccountSnapshot {
    pub client: String,
    pub available: String,
    pub held: String,
    pub total: String,
    pub locked: bool,
}

} // verus!
