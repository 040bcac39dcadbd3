//! Account identities.

use vstd::prelude::*;
use vstd::string::StringExecFns;

verus! {

/// The identity of an account: an opaque token that the host has already
/// validated. Two addresses are the same account exactly when their text is
/// the same.
#[derive(Debug, Eq, Hash)]
pub struct Address(pub String);

impl View for Address {
    type V = Seq<char>;

    open spec fn view(&self) -> Seq<char> {
        self.0@
    }
}

impl Address {
    /// The address written as `text`.
    pub fn new(text: &str) -> (address: Address)
        ensures
            address@ == text@,
    {
        Address(String::from_str(text))
    }

    /// The text of the address.
    pub fn as_str(&self) -> (text: &str)
        ensures
            text@ == self@,
    {
        self.0.as_str()
    }
}

impl Clone for Address {
    fn clone(&self) -> (copy: Address)
        ensures
            copy@ == self@,
    {
        Address(self.0.clone())
    }
}

impl PartialEq for Address {
    fn eq(&self, other: &Address) -> (same: bool) {
        self.0 == other.0
    }
}

impl vstd::std_specs::cmp::PartialEqSpecImpl for Address {
    open spec fn obeys_eq_spec() -> bool {
        true
    }

    open spec fn eq_spec(&self, other: &Address) -> bool {
        self.0@ == other.0@
    }
}

} // verus!
