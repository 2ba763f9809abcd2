//! Slider hover and drag routing.

use crate::events::{routed, InteractionEvent, TargetedEvent};
use vstd::prelude::*;

verus! {

/// The id of a slider's hitbox, the full-size node that receives the slider's
/// pointer events: the slider's id followed by `_hitbox`.
pub open spec fn hitbox_id(slider_id: Seq<char>) -> Seq<char> {
    slider_id + "_hitbox"@
}

/// Check if a slider with the given ID (or its hitbox) is currently being hovered.
pub fn slider_hovered(slider_id: &str, events: &[TargetedEvent]) -> (r: bool)
    ensures
        r == exists|i: int|
            0 <= i < events@.len() && #[trigger] events@[i].event == InteractionEvent::Hover && (
            events@[i].target@ == slider_id@ || events@[i].target@ == hitbox_id(slider_id@)),
{
    let mut hitbox = String::from_str(slider_id);
    hitbox.append("_hitbox");
    routed(events, InteractionEvent::Hover, InteractionEvent::Hover, slider_id, hitbox.as_str())
}

/// Check if a slider with the given ID (or its hitbox) is currently being dragged.
pub fn slider_dragging(slider_id: &str, events: &[TargetedEvent]) -> (r: bool)
    ensures
        r == exists|i: int|
            0 <= i < events@.len() && (#[trigger] events@[i].event == InteractionEvent::DragStart
                || events@[i].event == InteractionEvent::DragMove) && (events@[i].target@
                == slider_id@ || events@[i].target@ == hitbox_id(slider_id@)),
{
    let mut hitbox = String::from_str(slider_id);
    hitbox.append("_hitbox");
    routed(
        events,
        InteractionEvent::DragStart,
        InteractionEvent::DragMove,
        slider_id,
        hitbox.as_str(),
    )
}

} // verus!
