//! Playback state, view mode and multi-video layout, with their labels.
use vstd::prelude::*;

verus! {

/// Whether the loaded videos are stopped, playing or paused.
#[derive(Debug, Clone, Copy, PartialEq, Eq, Structural)]
pub enum PlaybackState {
    Stopped,
    Playing,
    Paused,
}

/// One video at a time, or several side by side.
#[derive(Debug, Clone, Copy, PartialEq, Eq, Structural)]
pub enum ViewMode {
    Single,
    Multi,
}

/// How the videos of the multi view are arranged.
#[derive(Debug, Clone, Copy, PartialEq, Eq, Structural)]
pub enum MultiLayout {
    Horizontal,
    Grid2,
    Grid4,
}

impl MultiLayout {
    /// Every layout, in the order a selector lists them.
    pub const ALL: [MultiLayout; 3] = [MultiLayout::Horizontal, MultiLayout::Grid2, MultiLayout::Grid4];

    pub open spec fn spec_label(self) -> Seq<char> {
        match self {
            MultiLayout::Horizontal => "Horizontal"@,
            MultiLayout::Grid2 => "1x2"@,
            MultiLayout::Grid4 => "2x2"@,
        }
    }

    /// The text a selector shows for the layout.
    pub fn label(self) -> (r: &'static str)
        ensures
            r@ == self.spec_label(),
    {
        match self {
            MultiLayout::Horizontal => "Horizontal",
            MultiLayout::Grid2 => "1x2",
            MultiLayout::Grid4 => "2x2",
        }
    }

    /// How many videos the layout shows at most.
    pub open spec fn spec_capacity(self) -> nat {
        match self {
            MultiLayout::Horizontal | MultiLayout::Grid2 => 2,
            MultiLayout::Grid4 => 4,
        }
    }

    /// How many videos the layout shows at most.
    pub fn capacity(self) -> (r: usize)
        ensures
            r == self.spec_capacity(),
    {
        match self {
            MultiLayout::Horizontal | MultiLayout::Grid2 => 2,
            MultiLayout::Grid4 => 4,
        }
    }
}

impl ViewMode {
    /// Every view mode, in the order a selector lists them.
    pub const ALL: [ViewMode; 2] = [ViewMode::Single, ViewMode::Multi];

    pub open spec fn spec_label(self) -> Seq<char> {
        match self {
            ViewMode::Single => "Single"@,
            ViewMode::Multi => "Multi"@,
        }
    }

    /// The text a selector shows for the view mode.
    pub fn label(self) -> (r: &'static str)
        ensures
            r@ == self.spec_label(),
    {
        match self {
            ViewMode::Single => "Single",
            ViewMode::Multi => "Multi",
        }
    }

    /// The view mode for a set of videos opened together: several are compared side by side.
    pub open spec fn spec_for_count(count: nat) -> ViewMode {
        if count > 1 {
            ViewMode::Multi
        } else {
            ViewMode::Single
        }
    }

    /// The view mode for a set of videos opened together: several are compared side by side.
    pub fn for_count(count: usize) -> (r: ViewMode)
        ensures
            r == Self::spec_for_count(count as nat),
    {
        if count > 1 {
            ViewMode::Multi
        } else {
            ViewMode::Single
        }
    }
}

} // verus!
