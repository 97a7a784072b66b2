//! What a press of a logical key does: focus the bound pane, or confirm.

use vstd::prelude::*;

use crate::action::{confirms, PendingView, RepeatPressConfirm};
use crate::binding::{is_key, pane_views, BindingFault, Pane, PaneView, StateView};
use crate::config::{ConfirmConfig, ConfirmView};
use crate::focus::FocusAdapter;
use crate::ledger::reconciled;
use crate::service::{
    lemma_reconcile_extends, lookup, mirrored, pane_for_key_run, plain_answer, reconcile_run,
    refresh_run, text_result, BindingService, BindingStore, DirectoryCall, PaneDirectory,
    StoreCall, World,
};
use crate::text::{decimal, decimal_of, same_text};

verus! {

broadcast use vstd::string::group_string_axioms;

/// The nanoseconds of a millisecond.
pub const MILLISECOND: u128 = 1_000_000;

/// What became of a press.
#[derive(Debug, PartialEq, Eq)]
pub enum Activation {
    /// The confirmation keys were sent.
    Confirmed,
    /// They could not be sent.
    ConfirmFailed(String),
    /// The pane was focused.
    Focused,
    /// It could not be focused.
    FocusFailed(String),
}

pub enum ActivationView {
    Confirmed,
    ConfirmFailed(Seq<char>),
    Focused,
    FocusFailed(Seq<char>),
}

impl View for Activation {
    type V = ActivationView;

    open spec fn view(&self) -> ActivationView {
        match *self {
            Activation::Confirmed => ActivationView::Confirmed,
            Activation::ConfirmFailed(message) => ActivationView::ConfirmFailed(message@),
            Activation::Focused => ActivationView::Focused,
            Activation::FocusFailed(message) => ActivationView::FocusFailed(message@),
        }
    }
}

/// A listed pane with the identifier is focused.
pub open spec fn shows_focus(panes: Seq<PaneView>, pane_id: Seq<char>) -> bool {
    exists|i: int| 0 <= i < panes.len() && (#[trigger] panes[i]).pane_id == pane_id
        && panes[i].focused
}

/// Whether a listing shows that the pane is focused. One that failed does not.
pub open spec fn focused_in(
    listing: Result<Seq<PaneView>, Seq<char>>,
    pane_id: Seq<char>,
) -> bool {
    match listing {
        Ok(panes) => shows_focus(panes, pane_id),
        Err(_) => false,
    }
}

fn is_focused(panes: &Vec<Pane>, pane_id: &str) -> (focused: bool)
    ensures
        focused == shows_focus(pane_views(panes@), pane_id@),
{
    let ghost all = pane_views(panes@);
    for i in 0..panes.len()
        invariant
            all == pane_views(panes@),
            forall|j: int|
                0 <= j < i ==> !((#[trigger] all[j]).pane_id == pane_id@ && all[j].focused),
    {
        assert(all[i as int] == panes@[i as int]@);
        if same_text(panes[i].pane_id.as_str(), pane_id) && panes[i].focused {
            return true;
        }
    }
    false
}

/// Whether Herdr shows a pane as focused.
pub fn pane_is_focused<P: PaneDirectory>(panes: &mut P, pane_id: &str) -> (focused: bool)
    ensures
        final(panes).made().len() == old(panes).made().len() + 1,
        ({
            let listing = final(panes).made().last()->Panes_0;
            &&& final(panes).made() == old(panes).made().push(DirectoryCall::Panes(listing))
            &&& focused == focused_in(listing, pane_id@)
        }),
{
    match panes.panes() {
        Ok(listed) => is_focused(&listed, pane_id),
        Err(_) => false,
    }
}

/// The bound pane is looked up, the terminal is brought to the front, and the
/// pane is focused.
pub open spec fn focusing_run(
    before: World,
    raised: Seq<Result<(), Seq<char>>>,
    after: World,
    raised_after: Seq<Result<(), Seq<char>>>,
    key: Seq<char>,
    result: Result<(), Seq<char>>,
) -> bool {
    exists|middle: World, owner: Result<Seq<char>, BindingFault>|
        {
            &&& #[trigger] pane_for_key_run(before, middle, key, owner)
            &&& match owner {
                Err(fault) => {
                    &&& after == middle
                    &&& raised_after == raised
                    &&& result == Err::<(), Seq<char>>(fault.message())
                },
                Ok(pane_id) => {
                    let answer = raised_after.last();
                    &&& raised_after == raised.push(answer)
                    &&& match answer {
                        Err(message) => after == middle && result == Err::<(), Seq<char>>(message),
                        Ok(()) => after == middle.asked(DirectoryCall::Focus(pane_id, result)),
                    }
                },
            }
        }
}

/// The pane is focused; a success arms a confirmation for `target`, if any.
pub open spec fn focus_run(
    before: World,
    raised: Seq<Result<(), Seq<char>>>,
    pending: Option<PendingView>,
    after: World,
    raised_after: Seq<Result<(), Seq<char>>>,
    pending_after: Option<PendingView>,
    key: Seq<char>,
    target: Option<Seq<char>>,
    expires_at: int,
    result: ActivationView,
) -> bool {
    match result {
        ActivationView::Focused => {
            &&& focusing_run(before, raised, after, raised_after, key, Ok(()))
            &&& pending_after == match target {
                Some(target) => Some(PendingView { key, pane_id: target, expires_at }),
                None => pending,
            }
        },
        ActivationView::FocusFailed(message) => {
            &&& focusing_run(before, raised, after, raised_after, key, Err(message))
            &&& pending_after == pending
        },
        _ => false,
    }
}

/// The confirmation keys are sent; the confirmation is used up.
pub open spec fn confirm_run(
    before: World,
    raised: Seq<Result<(), Seq<char>>>,
    after: World,
    raised_after: Seq<Result<(), Seq<char>>>,
    pending_after: Option<PendingView>,
    pane_id: Seq<char>,
    keys: Seq<Seq<char>>,
    result: ActivationView,
) -> bool {
    let answer = after.panes[before.panes.len() as int]->SendKeys_2;
    &&& after == before.asked(DirectoryCall::SendKeys(pane_id, keys, answer))
    &&& raised_after == raised
    &&& pending_after is None
    &&& result == match answer {
        Ok(()) => ActivationView::Confirmed,
        Err(message) => ActivationView::ConfirmFailed(message),
    }
}

/// What a press does once the bound pane is looked up.
pub open spec fn press_step(
    before: World,
    raised: Seq<Result<(), Seq<char>>>,
    pending: Option<PendingView>,
    after: World,
    raised_after: Seq<Result<(), Seq<char>>>,
    pending_after: Option<PendingView>,
    key: Seq<char>,
    target: Result<Seq<char>, BindingFault>,
    confirm: ConfirmView,
    now: int,
    result: ActivationView,
) -> bool {
    let expires_at = now + MILLISECOND * confirm.repeat_press_ms;
    match target {
        Ok(pane_id) if confirm.enabled => {
            let listing = before.listing(after);
            let listed = before.asked(DirectoryCall::Panes(listing));
            if confirms(pending, key, pane_id, focused_in(listing, pane_id), now) {
                confirm_run(
                    listed,
                    raised,
                    after,
                    raised_after,
                    pending_after,
                    pane_id,
                    confirm.keys,
                    result,
                )
            } else {
                focus_run(
                    listed,
                    raised,
                    pending,
                    after,
                    raised_after,
                    pending_after,
                    key,
                    Some(pane_id),
                    expires_at,
                    result,
                )
            }
        },
        _ => focus_run(
            before,
            raised,
            pending,
            after,
            raised_after,
            pending_after,
            key,
            None,
            expires_at,
            result,
        ),
    }
}

/// A whole press: where confirmation is enabled and the press repeats one that
/// focused the pane, the confirmation keys are sent; otherwise the pane is
/// focused.
pub open spec fn press_run(
    before: World,
    raised: Seq<Result<(), Seq<char>>>,
    pending: Option<PendingView>,
    after: World,
    raised_after: Seq<Result<(), Seq<char>>>,
    pending_after: Option<PendingView>,
    key: Seq<char>,
    confirm: ConfirmView,
    now: int,
    result: ActivationView,
) -> bool {
    exists|middle: World, target: Result<Seq<char>, BindingFault>|
        {
            &&& #[trigger] pane_for_key_run(before, middle, key, target)
            &&& press_step(
                middle,
                raised,
                pending,
                after,
                raised_after,
                pending_after,
                key,
                target,
                confirm,
                now,
                result,
            )
        }
}

fn focus_key<S: BindingStore, P: PaneDirectory, F: FocusAdapter>(
    key: &str,
    service: &mut BindingService<S, P>,
    focus: &mut F,
) -> (result: Result<(), String>)
    ensures
        focusing_run(
            old(service).world(),
            old(focus).made(),
            final(service).world(),
            final(focus).made(),
            key@,
            plain_answer(result),
        ),
{
    let looked_up = service.pane_for_key(key);
    let ghost middle = service.world();
    let ghost owner = text_result(looked_up);
    assert(pane_for_key_run(old(service).world(), middle, key@, owner));
    let pane_id = match looked_up {
        Ok(pane_id) => pane_id,
        Err(error) => {
            return Err(error.message());
        },
    };
    let raising = focus.focus_terminal();
    assert(focus.made().last() == plain_answer(raising));
    if let Err(message) = raising {
        return Err(message);
    }
    let focusing = service.panes.focus_pane(pane_id.as_str());
    assert(service.world() == middle.asked(
        DirectoryCall::Focus(pane_id@, plain_answer(focusing)),
    ));
    focusing
}

pub proof fn lemma_lookup_extends(
    before: World,
    after: World,
    key: Seq<char>,
    owner: Result<Seq<char>, BindingFault>,
)
    requires
        pane_for_key_run(before, after, key, owner),
    ensures
        before.panes.is_prefix_of(after.panes),
{
    if is_key(key) {
        let seen = choose|seen: Result<(Seq<PaneView>, StateView), BindingFault>|
            {
                &&& #[trigger] refresh_run(before, after, seen)
                &&& owner == match seen {
                    Err(fault) => Err(fault),
                    Ok((_, state)) => lookup(state, key),
                }
            };
        let listing = before.listing(after);
        let listed = before.asked(DirectoryCall::Panes(listing));
        match listing {
            Ok(panes) => {
                let state = match seen {
                    Ok((_, state)) => Ok(state),
                    Err(fault) => Err(fault),
                };
                assert(reconcile_run(listed, after, panes, state));
                lemma_reconcile_extends(listed, after, panes, state);
                assert(before.panes.is_prefix_of(listed.panes));
            },
            Err(_) => {},
        }
    }
}

pub proof fn lemma_focusing_extends(
    before: World,
    raised: Seq<Result<(), Seq<char>>>,
    after: World,
    raised_after: Seq<Result<(), Seq<char>>>,
    key: Seq<char>,
    result: Result<(), Seq<char>>,
)
    requires
        focusing_run(before, raised, after, raised_after, key, result),
    ensures
        before.panes.is_prefix_of(after.panes),
{
    let (middle, owner) = choose|middle: World, owner: Result<Seq<char>, BindingFault>|
        {
            &&& #[trigger] pane_for_key_run(before, middle, key, owner)
            &&& match owner {
                Err(fault) => {
                    &&& after == middle
                    &&& raised_after == raised
                    &&& result == Err::<(), Seq<char>>(fault.message())
                },
                Ok(pane_id) => {
                    let answer = raised_after.last();
                    &&& raised_after == raised.push(answer)
                    &&& match answer {
                        Err(message) => after == middle && result == Err::<(), Seq<char>>(message),
                        Ok(()) => after == middle.asked(DirectoryCall::Focus(pane_id, result)),
                    }
                },
            }
        };
    lemma_lookup_extends(before, middle, key, owner);
    assert(middle.panes.is_prefix_of(after.panes));
}

/// Carries out a press of a logical key at the moment `now`, in nanoseconds on
/// a monotonic clock.
pub fn activate<S: BindingStore, P: PaneDirectory, F: FocusAdapter>(
    key: &str,
    service: &mut BindingService<S, P>,
    focus: &mut F,
    pending: &mut RepeatPressConfirm,
    confirm: &ConfirmConfig,
    now: u128,
) -> (result: Activation)
    requires
        now + MILLISECOND * confirm.repeat_press_ms <= u128::MAX,
    ensures
        press_run(
            old(service).world(),
            old(focus).made(),
            old(pending)@,
            final(service).world(),
            final(focus).made(),
            final(pending)@,
            key@,
            confirm@,
            now as int,
            result@,
        ),
{
    let ghost before = service.world();
    let ghost armed = pending@;
    let target = service.pane_for_key(key);
    let ghost middle = service.world();
    let ghost found = text_result(target);
    assert(pane_for_key_run(before, middle, key@, found));
    let window: u128 = MILLISECOND * confirm.repeat_press_ms as u128;
    let ghost expires_at = now + MILLISECOND * confirm.repeat_press_ms;
    let candidate: Option<String> = match target {
        Ok(pane_id) if confirm.enabled => Some(pane_id),
        _ => None,
    };
    if let Some(pane_id) = &candidate {
        let focused = pane_is_focused(&mut service.panes, pane_id.as_str());
        let ghost listing = service.panes.made().last()->Panes_0;
        let ghost listed = middle.asked(DirectoryCall::Panes(listing));
        assert(service.world() == listed);
        if pending.take_if_ready(key, pane_id.as_str(), focused, now) {
            let sending = service.panes.send_keys(pane_id.as_str(), &confirm.keys);
            let ghost after = service.world();
            proof {
                assert(after == listed.asked(
                    DirectoryCall::SendKeys(pane_id@, confirm@.keys, plain_answer(sending)),
                ));
                assert(middle.listing(after) == listing);
                assert(after.panes[listed.panes.len() as int]->SendKeys_2 == plain_answer(
                    sending,
                ));
            }
            return match sending {
                Ok(()) => Activation::Confirmed,
                Err(message) => Activation::ConfirmFailed(message),
            };
        }
    }
    let ghost start = service.world();
    let ghost raised = focus.made();
    let focusing = focus_key(key, service, focus);
    proof {
        lemma_focusing_extends(
            start,
            raised,
            service.world(),
            focus.made(),
            key@,
            plain_answer(focusing),
        );
        if candidate is Some {
            let last = start.panes.len() - 1;
            assert(service.world().panes[last] == start.panes[last]);
        }
    }
    match focusing {
        Ok(()) => {
            if let Some(pane_id) = &candidate {
                pending.arm(key, pane_id.as_str(), window, now);
            }
            Activation::Focused
        },
        Err(message) => Activation::FocusFailed(message),
    }
}

// ---------------------------------------------------------------------------
// Laws
// ---------------------------------------------------------------------------

/// No keys are sent between two points of the log.
pub open spec fn sends_nothing(before: World, after: World) -> bool {
    forall|i: int|
        before.panes.len() <= i < after.panes.len() ==> !((#[trigger] after.panes[i]) is SendKeys)
}

proof fn lemma_reconcile_sends_nothing(
    before: World,
    after: World,
    panes: Seq<PaneView>,
    result: Result<StateView, BindingFault>,
)
    requires
        reconcile_run(before, after, panes, result),
    ensures
        sends_nothing(before, after),
{
    let loading = before.loading(after);
    let loaded = before.stored(StoreCall::Load(loading));
    if loading is Ok && reconciled(loading->Ok_0, panes) is Ok {
        let plan = reconciled(loading->Ok_0, panes)->Ok_0;
        let saving = loaded.saving(after);
        let saved = loaded.stored(StoreCall::Save(plan.state, saving));
        if saving is Ok {
            let writes = match result {
                Ok(_) => mirrored(plan.writes),
                Err(fault) => {
                    let done = after.panes.len() - saved.panes.len() - 1;
                    mirrored(plan.writes.take(done)).push(
                        DirectoryCall::WriteFkey(plan.writes[done], Err(fault->Directory_0)),
                    )
                },
            };
            assert(after.panes == saved.panes + writes);
            assert forall|i: int| before.panes.len() <= i < after.panes.len() implies !((
            #[trigger] after.panes[i]) is SendKeys) by {
                assert(after.panes[i] == writes[i - before.panes.len()]);
            }
        }
    }
}

proof fn lemma_lookup_sends_nothing(
    before: World,
    after: World,
    key: Seq<char>,
    owner: Result<Seq<char>, BindingFault>,
)
    requires
        pane_for_key_run(before, after, key, owner),
    ensures
        sends_nothing(before, after),
{
    if is_key(key) {
        let seen = choose|seen: Result<(Seq<PaneView>, StateView), BindingFault>|
            {
                &&& #[trigger] refresh_run(before, after, seen)
                &&& owner == match seen {
                    Err(fault) => Err(fault),
                    Ok((_, state)) => lookup(state, key),
                }
            };
        let listing = before.listing(after);
        let listed = before.asked(DirectoryCall::Panes(listing));
        if listing is Ok {
            let state = match seen {
                Ok((_, state)) => Ok(state),
                Err(fault) => Err(fault),
            };
            assert(reconcile_run(listed, after, listing->Ok_0, state));
            lemma_reconcile_extends(listed, after, listing->Ok_0, state);
            lemma_reconcile_sends_nothing(listed, after, listing->Ok_0, state);
            assert forall|i: int| before.panes.len() <= i < after.panes.len() implies !((
            #[trigger] after.panes[i]) is SendKeys) by {
                if i < listed.panes.len() {
                    assert(after.panes[i] == listed.panes[i]);
                }
            }
        }
    }
}

proof fn lemma_focusing_sends_nothing(
    before: World,
    raised: Seq<Result<(), Seq<char>>>,
    after: World,
    raised_after: Seq<Result<(), Seq<char>>>,
    key: Seq<char>,
    result: Result<(), Seq<char>>,
)
    requires
        focusing_run(before, raised, after, raised_after, key, result),
    ensures
        sends_nothing(before, after),
{
    let (middle, owner) = choose|middle: World, owner: Result<Seq<char>, BindingFault>|
        {
            &&& #[trigger] pane_for_key_run(before, middle, key, owner)
            &&& match owner {
                Err(fault) => {
                    &&& after == middle
                    &&& raised_after == raised
                    &&& result == Err::<(), Seq<char>>(fault.message())
                },
                Ok(pane_id) => {
                    let answer = raised_after.last();
                    &&& raised_after == raised.push(answer)
                    &&& match answer {
                        Err(message) => after == middle && result == Err::<(), Seq<char>>(message),
                        Ok(()) => after == middle.asked(DirectoryCall::Focus(pane_id, result)),
                    }
                },
            }
        };
    lemma_lookup_sends_nothing(before, middle, key, owner);
    assert forall|i: int| before.panes.len() <= i < after.panes.len() implies !((
    #[trigger] after.panes[i]) is SendKeys) by {
        if i < middle.panes.len() {
            assert(after.panes[i] == middle.panes[i]);
        }
    }
}

/// Keys are sent only where confirmation is enabled: the configured keys, to
/// the pane that the last press of the same key focused, within the window,
/// and only while a listing taken just before shows that pane as focused.
pub proof fn law_keys_are_sent_only_to_confirm(
    before: World,
    raised: Seq<Result<(), Seq<char>>>,
    pending: Option<PendingView>,
    after: World,
    raised_after: Seq<Result<(), Seq<char>>>,
    pending_after: Option<PendingView>,
    key: Seq<char>,
    confirm: ConfirmView,
    now: int,
    result: ActivationView,
    index: int,
)
    requires
        press_run(
            before,
            raised,
            pending,
            after,
            raised_after,
            pending_after,
            key,
            confirm,
            now,
            result,
        ),
        before.panes.len() <= index < after.panes.len(),
        after.panes[index] is SendKeys,
    ensures
        confirm.enabled,
        after.panes[index]->SendKeys_1 == confirm.keys,
        confirms(pending, key, after.panes[index]->SendKeys_0, true, now),
        before.panes.len() < index && after.panes[index - 1] is Panes,
        focused_in(after.panes[index - 1]->Panes_0, after.panes[index]->SendKeys_0),
        pending_after is None,
{
    let (middle, target) = choose|middle: World, target: Result<Seq<char>, BindingFault>|
        {
            &&& #[trigger] pane_for_key_run(before, middle, key, target)
            &&& press_step(
                middle,
                raised,
                pending,
                after,
                raised_after,
                pending_after,
                key,
                target,
                confirm,
                now,
                result,
            )
        };
    lemma_lookup_sends_nothing(before, middle, key, target);
    lemma_lookup_extends(before, middle, key, target);
    let focused = match result {
        ActivationView::Focused => Ok(()),
        ActivationView::FocusFailed(message) => Err(message),
        _ => Ok(()),
    };
    if target is Ok && confirm.enabled {
        let pane_id = target->Ok_0;
        let listing = middle.listing(after);
        let listed = middle.asked(DirectoryCall::Panes(listing));
        if confirms(pending, key, pane_id, focused_in(listing, pane_id), now) {
            assert(after.panes[middle.panes.len() as int] == listed.panes[middle.panes.len() as int]);
            if index < middle.panes.len() {
                assert(after.panes[index] == middle.panes[index]);
                assert(false);
            }
        } else {
            lemma_focusing_extends(listed, raised, after, raised_after, key, focused);
            lemma_focusing_sends_nothing(listed, raised, after, raised_after, key, focused);
            if index < middle.panes.len() {
                assert(after.panes[index] == middle.panes[index]);
            } else if index < listed.panes.len() {
                assert(after.panes[index] == listed.panes[index]);
            }
            assert(false);
        }
    } else {
        lemma_focusing_extends(middle, raised, after, raised_after, key, focused);
        lemma_focusing_sends_nothing(middle, raised, after, raised_after, key, focused);
        if index < middle.panes.len() {
            assert(after.panes[index] == middle.panes[index]);
        }
        assert(false);
    }
}

// ---------------------------------------------------------------------------
// The log of key events
// ---------------------------------------------------------------------------

/// The line that records a received press; `timestamp` is in milliseconds.
pub fn key_event_line(key: &str, description: &str, source: &str, timestamp: u128) -> (line: String)
    ensures
        line@ == decimal_of(timestamp as nat) + "\t"@ + key@ + "\t"@ + description@ + "\t"@
            + source@ + "\n"@,
{
    decimal(timestamp).concat("\t").concat(key).concat("\t").concat(description).concat(
        "\t",
    ).concat(source).concat("\n")
}

/// The line that records what became of a press.
pub fn focus_result_line(key: &str, result: &str, timestamp: u128) -> (line: String)
    ensures
        line@ == decimal_of(timestamp as nat) + "\t"@ + key@ + "\tfocus-"@ + result@
            + "\tdaemon\n"@,
{
    decimal(timestamp).concat("\t").concat(key).concat("\tfocus-").concat(result).concat(
        "\tdaemon\n",
    )
}

/// How the log names what became of a press.
pub fn activation_name(activation: &Activation) -> (name: &'static str)
    ensures
        name@ == match activation@ {
            ActivationView::Confirmed => "confirm-ok"@,
            ActivationView::ConfirmFailed(_) => "confirm-error"@,
            ActivationView::Focused => "ok"@,
            ActivationView::FocusFailed(_) => "error"@,
        },
{
    match activation {
        Activation::Confirmed => "confirm-ok",
        Activation::ConfirmFailed(_) => "confirm-error",
        Activation::Focused => "ok",
        Activation::FocusFailed(_) => "error",
    }
}

} // verus!
