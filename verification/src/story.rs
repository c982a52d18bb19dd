//! Storytelling switches: whether to highlight a focal series and print a
//! takeaway line.

use vstd::prelude::*;

verus! {

/// How the focal series is chosen.
#[derive(Debug, Clone, PartialEq, Eq)]
pub enum FocusMode {
    /// Pick the focal series automatically.
    Auto,
    /// Highlight the named series.
    Series(String),
    /// Highlight nothing.
    Disabled,
}

impl Default for FocusMode {
    fn default() -> (m: FocusMode)
        ensures
            m is Auto,
    {
        FocusMode::Auto
    }
}

/// The story pass configuration.
#[derive(Debug, Clone, PartialEq, Eq)]
pub struct StoryConfig {
    /// Master switch; `--neutral` turns it off.
    pub enabled: bool,
    /// Print the generated "so what" line.
    pub takeaway: bool,
    /// Focal-series resolution mode.
    pub focus: FocusMode,
    /// Optional user-supplied takeaway.
    pub annotation: Option<String>,
}

impl Default for StoryConfig {
    fn default() -> (c: StoryConfig)
        ensures
            c.enabled,
            c.takeaway,
            c.focus is Auto,
            c.annotation is None,
    {
        StoryConfig { enabled: true, takeaway: true, focus: FocusMode::Auto, annotation: None }
    }
}

} // verus!
