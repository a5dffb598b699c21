//! Tenant identifiers: opaque names under which a client's blobs are stored.
use vstd::prelude::*;

verus! {

/// An opaque tenant/namespace identifier. Only equality matters: it is used
/// solely to look a store up in the store manager's table.
#[derive(Debug, Eq, Hash)]
pub struct InstanceName(String);

impl View for InstanceName {
    type V = Seq<char>;

    closed spec fn view(&self) -> Seq<char> {
        self.0@
    }
}

impl InstanceName {
    pub fn new(instance_name: String) -> (r: Self)
        ensures
            r@ == instance_name@,
    {
        Self(instance_name)
    }

    pub fn from_str_slice(value: &str) -> (r: Self)
        ensures
            r@ == value@,
    {
        Self(value.to_owned())
    }

    pub fn as_str(&self) -> (r: &str)
        ensures
            r@ == self@,
    {
        self.0.as_str()
    }
}

impl Clone for InstanceName {
    fn clone(&self) -> (r: Self)
        ensures
            r@ == self@,
    {
        Self(self.0.clone())
    }
}

impl PartialEq for InstanceName {
    fn eq(&self, other: &Self) -> (r: bool)
        ensures
            r == (self@ == other@),
    {
        self.0 == other.0
    }
}

impl vstd::std_specs::cmp::PartialEqSpecImpl for InstanceName {
    open spec fn obeys_eq_spec() -> bool {
        true
    }

    open spec fn eq_spec(&self, other: &Self) -> bool {
        self@ == other@
    }
}

} // verus!
