//! Toggle (switch) click routing.

use crate::events::{routed, InteractionEvent, TargetedEvent};
use vstd::prelude::*;

verus! {

/// The id of a toggle's sliding knob: the toggle's id followed by `_knob`.
pub open spec fn knob_id(toggle_id: Seq<char>) -> Seq<char> {
    toggle_id + "_knob"@
}

/// Check if a toggle with the given ID (or its knob) was clicked this frame.
pub fn toggle_clicked(toggle_id: &str, events: &[TargetedEvent]) -> (r: bool)
    ensures
        r == exists|i: int|
            0 <= i < events@.len() && #[trigger] events@[i].event == InteractionEvent::Click && (
            events@[i].target@ == toggle_id@ || events@[i].target@ == knob_id(toggle_id@)),
{
    let mut knob = String::from_str(toggle_id);
    knob.append("_knob");
    routed(events, InteractionEvent::Click, InteractionEvent::Click, toggle_id, knob.as_str())
}

} // verus!
