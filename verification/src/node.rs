//! Node identifiers used for hit-testing and event routing.

use vstd::prelude::*;

verus! {

/// Unique identifier for a node, used for hit-testing and event routing.
#[derive(Debug, Clone, PartialEq, Eq, Hash)]
pub struct NodeId(String);

impl View for NodeId {
    type V = Seq<char>;

    closed spec fn view(&self) -> Seq<char> {
        self.0@
    }
}

impl NodeId {
    /// Create a new NodeId from a string.
    pub fn new(id: String) -> (r: Self)
        ensures
            r@ == id@,
    {
        Self(id)
    }

    /// Get the ID as a string slice.
    pub fn as_str(&self) -> (r: &str)
        ensures
            r@ == self@,
    {
        self.0.as_str()
    }
}

impl From<String> for NodeId {
    fn from(s: String) -> (r: Self)
        ensures
            r@ == s@,
    {
        NodeId(s)
    }
}

impl vstd::std_specs::convert::FromSpecImpl<String> for NodeId {
    open spec fn obeys_from_spec() -> bool {
        true
    }

    closed spec fn from_spec(v: String) -> NodeId {
        NodeId(v)
    }
}

impl From<&str> for NodeId {
    fn from(s: &str) -> (r: Self)
        ensures
            r@ == s@,
    {
        NodeId(String::from_str(s))
    }
}

/// The conversion from `&str` is specified by the `ensures` of `from` (the id's
/// characters are the string's); no spec-level constructor of a `String` from a
/// `&str` exists to state it as `from_spec`.
impl vstd::std_specs::convert::FromSpecImpl<&str> for NodeId {
    open spec fn obeys_from_spec() -> bool {
        false
    }

    closed spec fn from_spec(v: &str) -> NodeId {
        choose|n: NodeId| n@ == v@
    }
}

} // verus!
