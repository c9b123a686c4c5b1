//! The tabs of the documentation window.
use vstd::prelude::*;

verus! {

/// A tab of the documentation window.
#[derive(Clone, Copy, PartialEq, Eq, Debug, Structural)]
pub enum DocTab {
    Overview,
    Equations,
    RealPhysics,
}

/// Which tab of the documentation window is shown.
pub struct DocTabState {
    pub current: DocTab,
}

impl DocTabState {
    /// The window opens on the overview.
    pub fn new() -> (s: Self)
        ensures
            s.current == DocTab::Overview,
    {
        DocTabState { current: DocTab::Overview }
    }

    /// Whether `tab` is the one shown, so that its label is drawn selected.
    pub fn is_selected(&self, tab: DocTab) -> (b: bool)
        ensures
            b == (self.current == tab),
    {
        self.current == tab
    }

    /// Shows `tab`, whose label was clicked.
    pub fn select(&mut self, tab: DocTab)
        ensures
            final(self).current == tab,
    {
        self.current = tab;
    }
}

} // verus!
