//! The editor's color theme.

use vstd::prelude::*;

verus! {

/// The two themes the editor offers.
#[derive(Clone, Copy, PartialEq, Eq, Structural, Debug)]
pub enum Theme {
    Light,
    Dark,
}

impl Theme {
    /// Every theme, in menu order.
    pub fn all() -> (r: [Theme; 2])
        ensures
            r@ =~= seq![Theme::Light, Theme::Dark],
    {
        [Theme::Light, Theme::Dark]
    }
}

} // verus!
