//! The token's fixed description.

use vstd::prelude::*;

verus! {

/// What is said of the token once, when it is created, and never changed:
/// its display name, its ticker symbol and its decimal precision.
#[derive(Debug, Eq)]
pub struct Constants {
    pub name: String,
    pub symbol: String,
    pub decimals: u8,
}

impl Clone for Constants {
    fn clone(&self) -> (copy: Constants)
        ensures
            copy.name@ == self.name@,
            copy.symbol@ == self.symbol@,
            copy.decimals == self.decimals,
    {
        Constants { name: self.name.clone(), symbol: self.symbol.clone(), decimals: self.decimals }
    }
}

impl PartialEq for Constants {
    fn eq(&self, other: &Constants) -> (same: bool) {
        self.name == other.name && self.symbol == other.symbol && self.decimals == other.decimals
    }
}

impl vstd::std_specs::cmp::PartialEqSpecImpl for Constants {
    open spec fn obeys_eq_spec() -> bool {
        true
    }

    open spec fn eq_spec(&self, other: &Constants) -> bool {
        self.name@ == other.name@ && self.symbol@ == other.symbol@ && self.decimals
            == other.decimals
    }
}

} // verus!
