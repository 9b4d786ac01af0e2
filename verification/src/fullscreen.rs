//! Fullscreen and presentation state, which cannot be detected here, and the
//! provider says so.
//!
//! Under Wayland a client's fullscreen state is known to the compositor and to
//! nobody else; learning it needs a compositor-specific interface. Reading
//! `/proc` and `/sys` cannot answer it at all. So this provider reports itself
//! unavailable, with the explanation naming what is missing, rather than being
//! quietly left out of the rule editor.

use vstd::prelude::*;

use crate::provider::{Answer, Cadence, ProviderKind, unavailable};

verus! {

/// The stable key this provider reports.
pub const FULLSCREEN_UNAVAILABLE: &'static str = "awake.provider.fullscreen_needs_compositor_adapter";

pub open spec fn key_fullscreen_unavailable() -> Seq<char> {
    "awake.provider.fullscreen_needs_compositor_adapter"@
}

/// Reports that fullscreen state cannot be detected here.
#[derive(Clone, Copy, Debug, Default, PartialEq, Eq, Structural)]
pub struct FullscreenProvider;

impl FullscreenProvider {
    pub fn kind(&self) -> (k: ProviderKind)
        ensures
            k == ProviderKind::Fullscreen,
    {
        ProviderKind::Fullscreen
    }

    /// Saying "I cannot answer" costs nothing, so this is never a poll.
    pub fn cadence(&self) -> (c: Cadence)
        ensures
            c == Cadence::Free,
    {
        Cadence::Free
    }

    /// Always unavailable, with the key naming why; never a reading either
    /// way, so a fullscreen condition can neither hold a machine awake nor
    /// be shown as false.
    pub fn answer(&self) -> (a: Answer<bool>)
        ensures
            a matches Answer::Unavailable { explanation } && explanation@ == key_fullscreen_unavailable(),
    {
        proof {
            reveal_strlit("awake.provider.fullscreen_needs_compositor_adapter");
        }
        unavailable(FULLSCREEN_UNAVAILABLE)
    }
}

} // verus!
