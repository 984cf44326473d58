//! The identity of a principal.

use vstd::prelude::*;

verus! {

/// A principal, named by the text of its key.
///
/// Two addresses stand for the same principal exactly when their keys hold
/// the same characters.
#[derive(Debug)]
pub struct Address {
    pub key: String,
}

impl View for Address {
    type V = Seq<char>;

    open spec fn view(&self) -> Seq<char> {
        self.key@
    }
}

impl Address {
    /// The address whose key is `key`.
    pub fn new(key: String) -> (r: Address)
        ensures
            r.key == key,
    {
        Address { key }
    }

    /// Whether `self` and `other` name the same principal.
    pub fn is(&self, other: &Address) -> (r: bool)
        ensures
            r == (self@ == other@),
    {
        self.key == other.key
    }
}

impl Clone for Address {
    fn clone(&self) -> (r: Address)
        ensures
            r == *self,
    {
        Address { key: self.key.clone() }
    }
}

impl PartialEq for Address {
    fn eq(&self, other: &Address) -> (r: bool) {
        self.key == other.key
    }
}

impl vstd::std_specs::cmp::PartialEqSpecImpl for Address {
    open spec fn obeys_eq_spec() -> bool {
        true
    }

    open spec fn eq_spec(&self, other: &Address) -> bool {
        self.key@ == other.key@
    }
}

impl Eq for Address {}

} // verus!
