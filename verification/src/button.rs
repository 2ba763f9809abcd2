//! Button state and click/hover routing.

use crate::events::{routed, InteractionEvent, TargetedEvent};
use vstd::prelude::*;

verus! {

/// Visual state of a button.
#[derive(Debug, Clone, Copy, PartialEq, Eq, Structural)]
pub enum ButtonState {
    /// Button is idle (not being interacted with).
    Idle,
    /// Mouse is hovering over the button.
    Hovered,
    /// Button is being pressed.
    Pressed,
    /// Button is disabled (not interactive).
    Disabled,
}

/// The state a button shows for the given interaction flags: disabled wins over
/// pressed, pressed over hovered.
pub open spec fn button_state_for(is_hovered: bool, is_pressed: bool, enabled: bool) -> ButtonState {
    if !enabled {
        ButtonState::Disabled
    } else if is_pressed {
        ButtonState::Pressed
    } else if is_hovered {
        ButtonState::Hovered
    } else {
        ButtonState::Idle
    }
}

impl ButtonState {
    /// Update the button state based on interaction flags.
    pub fn update(&mut self, is_hovered: bool, is_pressed: bool, enabled: bool)
        ensures
            *final(self) == button_state_for(is_hovered, is_pressed, enabled),
    {
        if !enabled {
            *self = ButtonState::Disabled;
        } else if is_pressed {
            *self = ButtonState::Pressed;
        } else if is_hovered {
            *self = ButtonState::Hovered;
        } else {
            *self = ButtonState::Idle;
        }
    }
}

impl Default for ButtonState {
    fn default() -> (r: Self)
        ensures
            r == ButtonState::Idle,
    {
        ButtonState::Idle
    }
}

/// A disabled button shows as disabled whatever the pointer does, a pressed enabled
/// button shows as pressed whether or not it is hovered, and an enabled button never
/// shows as disabled.
pub proof fn lemma_button_priority(hovered: bool, pressed: bool, enabled: bool)
    ensures
        !enabled ==> button_state_for(hovered, pressed, enabled) == ButtonState::Disabled,
        enabled && pressed ==> button_state_for(hovered, pressed, enabled) == ButtonState::Pressed,
        enabled ==> button_state_for(hovered, pressed, enabled) != ButtonState::Disabled,
        enabled && !pressed && hovered ==> button_state_for(hovered, pressed, enabled) == ButtonState::Hovered,
        enabled && !pressed && !hovered ==> button_state_for(hovered, pressed, enabled) == ButtonState::Idle,
{
}

/// Check if a button with the given ID was clicked this frame.
pub fn button_clicked(button_id: &str, events: &[TargetedEvent]) -> (r: bool)
    ensures
        r == exists|i: int|
            0 <= i < events@.len() && #[trigger] events@[i].event == InteractionEvent::Click
                && events@[i].target@ == button_id@,
{
    routed(events, InteractionEvent::Click, InteractionEvent::Click, button_id, button_id)
}

/// Check if a button with the given ID is currently hovered.
pub fn button_hovered(button_id: &str, events: &[TargetedEvent]) -> (r: bool)
    ensures
        r == exists|i: int|
            0 <= i < events@.len() && #[trigger] events@[i].event == InteractionEvent::Hover
                && events@[i].target@ == button_id@,
{
    routed(events, InteractionEvent::Hover, InteractionEvent::Hover, button_id, button_id)
}

} // verus!
