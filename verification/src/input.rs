//! Mouse button state across frames: which buttons are held, and which were
//! pressed or released during the current frame.
use vstd::prelude::*;
use std::collections::HashSet;

verus! {

broadcast use vstd::std_specs::hash::group_hash_axioms;

/// A mouse button.
#[derive(Clone, Copy, Debug, PartialEq, Eq, Hash, Structural)]
pub enum MouseButton {
    Left,
    Right,
    Middle,
    Back,
    Forward,
    Other(u16),
}

/// A distinct number for each button, under which the button is tracked.
pub open spec fn button_code(b: MouseButton) -> u32 {
    match b {
        MouseButton::Left => 0,
        MouseButton::Right => 1,
        MouseButton::Middle => 2,
        MouseButton::Back => 3,
        MouseButton::Forward => 4,
        MouseButton::Other(n) => (5 + n) as u32,
    }
}

/// Different buttons are tracked under different numbers.
pub proof fn lemma_button_code_injective(a: MouseButton, b: MouseButton)
    ensures
        button_code(a) == button_code(b) <==> a == b,
{
}

impl MouseButton {
    fn code(&self) -> (r: u32)
        ensures
            r == button_code(*self),
    {
        match self {
            MouseButton::Left => 0,
            MouseButton::Right => 1,
            MouseButton::Middle => 2,
            MouseButton::Back => 3,
            MouseButton::Forward => 4,
            MouseButton::Other(n) => 5 + *n as u32,
        }
    }
}

/// The buttons held, pressed this frame and released this frame, by their numbers.
pub ghost struct ButtonsView {
    pub down: Set<u32>,
    pub just_pressed: Set<u32>,
    pub just_released: Set<u32>,
}

/// The state of the mouse buttons, kept across frames.
#[derive(Debug)]
pub struct MouseButtons {
    pressed: HashSet<u32>,
    just_pressed: HashSet<u32>,
    just_released: HashSet<u32>,
}

impl View for MouseButtons {
    type V = ButtonsView;

    closed spec fn view(&self) -> ButtonsView {
        ButtonsView { down: self.pressed@, just_pressed: self.just_pressed@, just_released: self.just_released@ }
    }
}

/// The state after a button event: a press holds the button and records it as
/// pressed this frame; a release lets it go and records it as released this frame.
pub open spec fn after_button(v: ButtonsView, pressed: bool, b: MouseButton) -> ButtonsView {
    let c = button_code(b);
    if pressed {
        ButtonsView { down: v.down.insert(c), just_pressed: v.just_pressed.insert(c), ..v }
    } else {
        ButtonsView { down: v.down.remove(c), just_released: v.just_released.insert(c), ..v }
    }
}

/// The state at the start of a frame: the held buttons stay, this frame's
/// presses and releases are empty.
pub open spec fn frame_start(v: ButtonsView) -> ButtonsView {
    ButtonsView { down: v.down, just_pressed: Set::empty(), just_released: Set::empty() }
}

impl MouseButtons {
    /// No button held, none pressed or released.
    pub fn new() -> (r: Self)
        ensures
            r@ == (ButtonsView { down: Set::empty(), just_pressed: Set::empty(), just_released: Set::empty() }),
    {
        MouseButtons { pressed: HashSet::new(), just_pressed: HashSet::new(), just_released: HashSet::new() }
    }

    /// Starts a new frame: forgets this frame's presses and releases and keeps
    /// the buttons that are held.
    pub fn begin_frame(&mut self)
        ensures
            final(self)@ == frame_start(old(self)@),
    {
        self.just_pressed.clear();
        self.just_released.clear();
    }

    /// Records that `button` was pressed (`pressed == true`) or released.
    pub fn handle_button(&mut self, pressed: bool, button: MouseButton)
        ensures
            final(self)@ == after_button(old(self)@, pressed, button),
    {
        let c = button.code();
        if pressed {
            self.pressed.insert(c);
            self.just_pressed.insert(c);
        } else {
            self.pressed.remove(&c);
            self.just_released.insert(c);
        }
    }

    /// Whether `button` is held.
    pub fn is_button_down(&self, button: MouseButton) -> (r: bool)
        ensures
            r == self@.down.contains(button_code(button)),
    {
        let c = button.code();
        self.pressed.contains(&c)
    }

    /// Whether `button` was pressed during this frame.
    pub fn is_button_just_pressed(&self, button: MouseButton) -> (r: bool)
        ensures
            r == self@.just_pressed.contains(button_code(button)),
    {
        let c = button.code();
        self.just_pressed.contains(&c)
    }

    /// Whether `button` was released during this frame.
    pub fn is_button_just_released(&self, button: MouseButton) -> (r: bool)
        ensures
            r == self@.just_released.contains(button_code(button)),
    {
        let c = button.code();
        self.just_released.contains(&c)
    }
}

/// A press holds the button and a release lets it go, whatever came before;
/// an event for one button leaves every other button as it was.
pub proof fn lemma_button_event(v: ButtonsView, pressed: bool, b: MouseButton, other: MouseButton)
    ensures
        after_button(v, pressed, b).down.contains(button_code(b)) == pressed,
        pressed ==> after_button(v, pressed, b).just_pressed.contains(button_code(b)),
        !pressed ==> after_button(v, pressed, b).just_released.contains(button_code(b)),
        other != b ==> (after_button(v, pressed, b).down.contains(button_code(other))
            == v.down.contains(button_code(other))),
{
    lemma_button_code_injective(b, other);
}

/// A release never takes back this frame's press, and a press never takes back
/// this frame's release: a click whose press and release arrive in the same
/// frame is reported as both pressed and released this frame, with the button
/// no longer held. Only a new frame empties the sets of presses and releases.
pub proof fn lemma_events_accumulate(v: ButtonsView, b: MouseButton)
    ensures
        after_button(v, false, b).just_pressed == v.just_pressed,
        after_button(v, true, b).just_released == v.just_released,
        v.just_pressed.subset_of(after_button(v, true, b).just_pressed),
        v.just_released.subset_of(after_button(v, false, b).just_released),
        ({
            let w = after_button(after_button(v, true, b), false, b);
            &&& w.just_pressed.contains(button_code(b))
            &&& w.just_released.contains(button_code(b))
            &&& !w.down.contains(button_code(b))
        }),
{
}

/// A new frame keeps the held buttons and reports no press or release until
/// an event of that frame arrives.
pub proof fn lemma_frame_reset(v: ButtonsView, pressed: bool, b: MouseButton, other: MouseButton)
    requires
        other != b,
    ensures
        frame_start(v).down == v.down,
        !after_button(frame_start(v), pressed, b).just_pressed.contains(button_code(other)),
        !after_button(frame_start(v), pressed, b).just_released.contains(button_code(other)),
{
    lemma_button_code_injective(b, other);
}

} // verus!
