use vstd::prelude::*;

verus! {

/// The sizes of a run: how many organizations there are, how many
/// transactions pass between them, and how many addresses each organization
/// owns.
#[derive(Clone, Copy, Debug, PartialEq, Eq)]
pub struct RunConfig {
    pub org_count: usize,
    pub transaction_count: usize,
    pub addresses_per_organization: usize,
}

} // verus!
