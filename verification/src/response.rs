//! What a handled request reports back.

use vstd::prelude::*;
use vstd::string::StringExecFns;

verus! {

/// A descriptive tag: a key and its value.
#[derive(Debug, Eq)]
pub struct Attribute {
    pub key: String,
    pub value: String,
}

impl View for Attribute {
    type V = (Seq<char>, Seq<char>);

    open spec fn view(&self) -> (Seq<char>, Seq<char>) {
        (self.key@, self.value@)
    }
}

impl PartialEq for Attribute {
    fn eq(&self, other: &Attribute) -> (same: bool) {
        self.key == other.key && self.value == other.value
    }
}

impl vstd::std_specs::cmp::PartialEqSpecImpl for Attribute {
    open spec fn obeys_eq_spec() -> bool {
        true
    }

    open spec fn eq_spec(&self, other: &Attribute) -> bool {
        self.key@ == other.key@ && self.value@ == other.value@
    }
}

/// The tag with key `key` and value `value`.
pub fn attr(key: &str, value: &str) -> (attribute: Attribute)
    ensures
        attribute@ == (key@, value@),
{
    Attribute { key: String::from_str(key), value: String::from_str(value) }
}

/// The acknowledgement of a request that was carried out: the tags that
/// describe what was done, in their order.
#[derive(Debug)]
pub struct Response {
    pub attributes: Vec<Attribute>,
}

impl View for Response {
    type V = Seq<(Seq<char>, Seq<char>)>;

    open spec fn view(&self) -> Seq<(Seq<char>, Seq<char>)> {
        Seq::new(self.attributes@.len(), |i: int| self.attributes@[i]@)
    }
}

impl Response {
    /// An acknowledgement without tags.
    pub fn new() -> (response: Response)
        ensures
            response@ == Seq::<(Seq<char>, Seq<char>)>::empty(),
    {
        let response = Response { attributes: Vec::new() };
        assert(response@ =~= Seq::<(Seq<char>, Seq<char>)>::empty());
        response
    }

    /// Adds the tag with key `key` and value `value` after those already
    /// there.
    pub fn add_attribute(&mut self, key: &str, value: &str)
        ensures
            final(self)@ == old(self)@.push((key@, value@)),
    {
        self.attributes.push(attr(key, value));
        assert(self@ =~= old(self)@.push((key@, value@)));
    }
}

} // verus!
