//! The explicitly enabled repeat-press confirmation.
//!
//! Moments are nanoseconds on one monotonic clock, counted from a moment of
//! the caller's choice.

use vstd::prelude::*;

use crate::text::same_text;

verus! {

#[derive(Debug)]
struct PendingConfirm {
    key: String,
    pane_id: String,
    expires_at: u128,
}

/// State for the repeat-press confirmation.
///
/// A confirmation is only armed after a successful focus. It additionally
/// requires the same pane to still be focused, so a later key press cannot
/// inject Enter into a pane the user has left.
#[derive(Debug)]
pub struct RepeatPressConfirm {
    pending: Option<PendingConfirm>,
}

/// An armed confirmation.
#[verifier::ext_equal]
pub struct PendingView {
    pub key: Seq<char>,
    pub pane_id: Seq<char>,
    pub expires_at: int,
}

/// Whether a press confirms what is armed.
pub open spec fn confirms(
    pending: Option<PendingView>,
    key: Seq<char>,
    pane_id: Seq<char>,
    pane_is_focused: bool,
    now: int,
) -> bool {
    match pending {
        Some(armed) => armed.key == key && armed.pane_id == pane_id && now <= armed.expires_at
            && pane_is_focused,
        None => false,
    }
}

impl View for RepeatPressConfirm {
    type V = Option<PendingView>;

    closed spec fn view(&self) -> Option<PendingView> {
        match self.pending {
            Some(pending) => Some(
                PendingView {
                    key: pending.key@,
                    pane_id: pending.pane_id@,
                    expires_at: pending.expires_at as int,
                },
            ),
            None => None,
        }
    }
}

impl Default for RepeatPressConfirm {
    /// Nothing is armed.
    fn default() -> (confirm: Self)
        ensures
            confirm@ is None,
    {
        RepeatPressConfirm { pending: None }
    }
}

impl RepeatPressConfirm {
    /// Whether this press confirms. A confirmation is used up by the press
    /// that it answers; any other press leaves it armed.
    pub fn take_if_ready(
        &mut self,
        key: &str,
        pane_id: &str,
        pane_is_focused: bool,
        now: u128,
    ) -> (ready: bool)
        ensures
            ready == confirms(old(self)@, key@, pane_id@, pane_is_focused, now as int),
            final(self)@ == if ready {
                None
            } else {
                old(self)@
            },
    {
        let ready = match &self.pending {
            Some(pending) => same_text(pending.key.as_str(), key) && same_text(
                pending.pane_id.as_str(),
                pane_id,
            ) && now <= pending.expires_at && pane_is_focused,
            None => false,
        };
        if ready {
            self.pending = None;
        }
        ready
    }

    /// Arms a confirmation of `key` for `pane_id` that lasts for `window` from
    /// `now` on, in place of any other.
    pub fn arm(&mut self, key: &str, pane_id: &str, window: u128, now: u128)
        requires
            now + window <= u128::MAX,
        ensures
            final(self)@ == Some(
                PendingView { key: key@, pane_id: pane_id@, expires_at: now + window },
            ),
    {
        self.pending =
        Some(
            PendingConfirm {
                key: key.to_owned(),
                pane_id: pane_id.to_owned(),
                expires_at: now + window,
            },
        );
    }
}

/// What is armed at `armed_at` for `window` is confirmed by exactly the
/// presses of the same key, for the same pane, while that pane is focused, up
/// to the end of the window.
pub proof fn law_confirmation_window(
    key: Seq<char>,
    pane_id: Seq<char>,
    armed_at: int,
    window: int,
    pressed: Seq<char>,
    target: Seq<char>,
    focused: bool,
    now: int,
)
    ensures
        confirms(
            Some(PendingView { key, pane_id, expires_at: armed_at + window }),
            pressed,
            target,
            focused,
            now,
        ) <==> pressed == key && target == pane_id && focused && now - armed_at <= window,
{
}

} // verus!
