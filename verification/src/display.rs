//! Presentation choices the frontends share: which panel fills the bottom of
//! the terminal dashboard, and how an absent reading is shown.

use vstd::prelude::*;

use crate::text::push_char;

verus! {

/// What the bottom of the terminal dashboard shows.
#[derive(Debug, Clone, Copy, PartialEq, Eq, Structural)]
pub enum BottomPanel {
    Plots,
    RawSentences,
}

/// The panel a toggle switches to from `p`.
pub open spec fn other_panel(p: BottomPanel) -> BottomPanel {
    match p {
        BottomPanel::Plots => BottomPanel::RawSentences,
        BottomPanel::RawSentences => BottomPanel::Plots,
    }
}

impl BottomPanel {
    /// The other panel.
    pub fn toggled(self) -> (r: Self)
        ensures
            r == other_panel(self),
    {
        match self {
            BottomPanel::Plots => BottomPanel::RawSentences,
            BottomPanel::RawSentences => BottomPanel::Plots,
        }
    }
}

/// Toggling the bottom panel always changes it, and toggling twice brings
/// back the panel you started from.
pub proof fn lemma_toggle_twice(p: BottomPanel)
    ensures
        other_panel(p) != p,
        other_panel(other_panel(p)) == p,
{
}

/// A reading formatted by `format`, or an em dash where there is none.
pub fn optional<T, F: Fn(T) -> String>(value: Option<T>, format: F) -> (r: String)
    requires
        value matches Some(v) ==> call_requires(format, (v,)),
    ensures
        match value {
            Some(v) => call_ensures(format, (v,), r),
            None => r@ == seq!['—'],
        },
{
    match value {
        Some(v) => format(v),
        None => {
            let mut dash = String::new();
            push_char(&mut dash, '—');
            dash
        },
    }
}

} // verus!
