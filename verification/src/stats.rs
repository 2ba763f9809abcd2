//! Configuration of the debug statistics overlay and its keyboard controls.
use vstd::prelude::*;

verus! {

/// Detail level of the statistics overlay.
#[derive(Clone, Copy, Debug, PartialEq, Eq, Structural)]
pub enum StatsDetail {
    /// Frames per second only.
    Minimal,
    /// Adds the frame time.
    Basic,
    /// Adds the entity count.
    Normal,
    /// Adds the key help line.
    Detailed,
}

impl Default for StatsDetail {
    fn default() -> (r: Self)
        ensures
            r == StatsDetail::Basic,
    {
        StatsDetail::Basic
    }
}

/// Screen corner the overlay is anchored to.
#[derive(Clone, Copy, Debug, PartialEq, Eq, Structural)]
pub enum Corner {
    TopLeft,
    TopRight,
    BottomLeft,
    BottomRight,
}

impl Default for Corner {
    fn default() -> (r: Self)
        ensures
            r == Corner::TopLeft,
    {
        Corner::TopLeft
    }
}

/// Configuration of the statistics overlay.
#[derive(Clone, Copy, Debug, PartialEq, Eq, Structural)]
pub struct StatsConfig {
    pub detail: StatsDetail,
    pub corner: Corner,
    pub enabled: bool,
}

impl Default for StatsConfig {
    fn default() -> (r: Self)
        ensures
            r == (StatsConfig { detail: StatsDetail::Basic, corner: Corner::TopLeft, enabled: true }),
    {
        StatsConfig { detail: StatsDetail::Basic, corner: Corner::TopLeft, enabled: true }
    }
}

/// The detail level that follows `d` in the cycle Minimal, Basic, Normal, Detailed.
pub open spec fn next_detail(d: StatsDetail) -> StatsDetail {
    match d {
        StatsDetail::Minimal => StatsDetail::Basic,
        StatsDetail::Basic => StatsDetail::Normal,
        StatsDetail::Normal => StatsDetail::Detailed,
        StatsDetail::Detailed => StatsDetail::Minimal,
    }
}

/// The configuration after one frame of keyboard input: F3 toggles the
/// overlay, Shift+F3 cycles the detail level, anything else changes nothing.
pub open spec fn after_input(c: StatsConfig, f3_just_pressed: bool, shift_held: bool) -> StatsConfig {
    if !f3_just_pressed {
        c
    } else if shift_held {
        StatsConfig { detail: next_detail(c.detail), ..c }
    } else {
        StatsConfig { enabled: !c.enabled, ..c }
    }
}

/// Applies one frame of keyboard input to the overlay configuration.
/// `shift_held` is whether either Shift key is held.
pub fn handle_input(config: &mut StatsConfig, f3_just_pressed: bool, shift_held: bool)
    ensures
        *final(config) == after_input(*old(config), f3_just_pressed, shift_held),
{
    if f3_just_pressed {
        if shift_held {
            config.detail = match config.detail {
                StatsDetail::Minimal => StatsDetail::Basic,
                StatsDetail::Basic => StatsDetail::Normal,
                StatsDetail::Normal => StatsDetail::Detailed,
                StatsDetail::Detailed => StatsDetail::Minimal,
            };
        } else {
            config.enabled = !config.enabled;
        }
    }
}

/// Pressing F3 twice restores the configuration.
pub proof fn lemma_toggle_twice(c: StatsConfig)
    ensures
        after_input(after_input(c, true, false), true, false) == c,
{
}

/// Cycling the detail level four times restores the configuration, and no
/// fewer presses do.
pub proof fn lemma_cycle_period(c: StatsConfig)
    ensures
        after_input(after_input(after_input(after_input(c, true, true), true, true), true, true), true, true) == c,
        after_input(c, true, true).detail != c.detail,
        after_input(after_input(c, true, true), true, true).detail != c.detail,
        after_input(after_input(after_input(c, true, true), true, true), true, true).detail != c.detail,
{
}

/// Cycling the detail level never shows or hides the overlay, and toggling
/// never changes the detail level; neither moves the overlay.
pub proof fn lemma_controls_independent(c: StatsConfig)
    ensures
        after_input(c, true, true).enabled == c.enabled,
        after_input(c, true, false).detail == c.detail,
        after_input(c, true, true).corner == c.corner,
        after_input(c, true, false).corner == c.corner,
{
}

/// Shift+F3 steps through the detail levels from least to most detail,
/// Minimal, Basic, Normal, Detailed, and wraps from Detailed back to Minimal.
pub proof fn lemma_cycle_order(c: StatsConfig)
    ensures
        c.detail == StatsDetail::Minimal ==> after_input(c, true, true).detail == StatsDetail::Basic,
        c.detail == StatsDetail::Basic ==> after_input(c, true, true).detail == StatsDetail::Normal,
        c.detail == StatsDetail::Normal ==> after_input(c, true, true).detail == StatsDetail::Detailed,
        c.detail == StatsDetail::Detailed ==> after_input(c, true, true).detail == StatsDetail::Minimal,
        after_input(c, false, true) == c && after_input(c, false, false) == c,
{
}

} // verus!
