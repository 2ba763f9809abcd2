//! Interaction events routed to UI nodes, and queries over a frame's events.

use crate::node::NodeId;
use vstd::prelude::*;

verus! {

broadcast use vstd::utf8::group_utf8_lib;

/// What happened to a node this frame.
#[derive(Debug, Clone, Copy, PartialEq, Eq, Structural)]
pub enum InteractionEvent {
    /// The node was clicked (pressed and released on it).
    Click,
    /// The pointer is over the node.
    Hover,
    /// A drag started on the node.
    DragStart,
    /// A drag that started on the node moved.
    DragMove,
    /// The node received keyboard focus.
    Focus,
    /// The node lost keyboard focus.
    Blur,
}

/// An interaction event together with the node it was routed to.
#[derive(Debug, Clone)]
pub struct TargetedEvent {
    /// The node the event was routed to.
    pub target: NodeId,
    /// What happened.
    pub event: InteractionEvent,
}

/// Whether two strings hold the same characters.
pub fn str_eq(a: &str, b: &str) -> (r: bool)
    ensures
        r == (a@ == b@),
{
    let ab = a.as_bytes();
    let bb = b.as_bytes();
    proof {
        assert(vstd::utf8::decode_utf8(vstd::utf8::encode_utf8(a@)) == a@);
        assert(vstd::utf8::decode_utf8(vstd::utf8::encode_utf8(b@)) == b@);
    }
    if ab.len() != bb.len() {
        return false;
    }
    let mut i: usize = 0;
    while i < ab.len()
        invariant
            ab@.len() == bb@.len(),
            ab@ == vstd::utf8::encode_utf8(a@),
            bb@ == vstd::utf8::encode_utf8(b@),
            i <= ab@.len(),
            forall|j: int| 0 <= j < i ==> ab@[j] == bb@[j],
        decreases ab@.len() - i,
    {
        if ab[i] != bb[i] {
            return false;
        }
        i = i + 1;
    }
    assert(ab@ =~= bb@);
    true
}

/// Whether some event of kind `k1` or `k2` was routed to the node `id` or the node `alt`.
pub fn routed(
    events: &[TargetedEvent],
    k1: InteractionEvent,
    k2: InteractionEvent,
    id: &str,
    alt: &str,
) -> (r: bool)
    ensures
        r == exists|i: int|
            0 <= i < events@.len() && (#[trigger] events@[i].event == k1 || events@[i].event == k2)
                && (events@[i].target@ == id@ || events@[i].target@ == alt@),
{
    let mut i: usize = 0;
    while i < events.len()
        invariant
            i <= events@.len(),
            forall|j: int|
                0 <= j < i ==> !((#[trigger] events@[j].event == k1 || events@[j].event == k2) && (
                events@[j].target@ == id@ || events@[j].target@ == alt@)),
        decreases events@.len() - i,
    {
        let e = &events[i];
        if e.event == k1 || e.event == k2 {
            if str_eq(e.target.as_str(), id) || str_eq(e.target.as_str(), alt) {
                return true;
            }
        }
        i = i + 1;
    }
    false
}

} // verus!
