//! What a press of a logical key comes to, told from the listings, the stored
//! ledgers and the calls alone.

use vstd::prelude::*;

use crate::action::PendingView;
use crate::binding::{is_key, BindingFault, BindingView, PaneView, StateView};
use crate::config::ConfirmView;
use crate::laws::law_reconciled_ledger_is_valid_and_live;
use crate::ledger::{lemma_key_owner, starting_state};
use crate::navigation::{
    focusing_run, law_keys_are_sent_only_to_confirm, lemma_focusing_extends, lemma_lookup_extends,
    press_run, press_step, ActivationView,
};
use crate::request_laws::law_ledger_accepted_iff_well_formed;
use crate::service::{
    lookup, pane_for_key_run, reconcile_run, refresh_run, DirectoryCall, StoreCall, World,
};

verus! {

/// Keys go only to a pane that is focused at that moment: the call just before
/// is a listing, and one of the listed panes has the identifier that the keys
/// go to and is focused.
pub proof fn law_keys_go_to_a_focused_pane(
    before: World,
    raised: Seq<Result<(), Seq<char>>>,
    pending: Option<PendingView>,
    after: World,
    raised_after: Seq<Result<(), Seq<char>>>,
    pending_after: Option<PendingView>,
    key: Seq<char>,
    confirm: ConfirmView,
    now: int,
    result: ActivationView,
    index: int,
)
    requires
        press_run(
            before,
            raised,
            pending,
            after,
            raised_after,
            pending_after,
            key,
            confirm,
            now,
            result,
        ),
        before.panes.len() <= index < after.panes.len(),
        after.panes[index] is SendKeys,
    ensures
        before.panes.len() < index,
        after.panes[index - 1] is Panes,
        after.panes[index - 1]->Panes_0 is Ok,
        ({
            let panes = after.panes[index - 1]->Panes_0->Ok_0;
            exists|i: int|
                0 <= i < panes.len() && (#[trigger] panes[i]).pane_id
                    == after.panes[index]->SendKeys_0 && panes[i].focused
        }),
        confirm.enabled,
        after.panes[index]->SendKeys_1 == confirm.keys,
        pending is Some,
        pending->0.key == key,
        pending->0.pane_id == after.panes[index]->SendKeys_0,
        now <= pending->0.expires_at,
{
    law_keys_are_sent_only_to_confirm(
        before,
        raised,
        pending,
        after,
        raised_after,
        pending_after,
        key,
        confirm,
        now,
        result,
        index,
    );
}

/// A press sends keys exactly when confirmation is enabled, the press repeats
/// what is armed before it expires, and the pane that it looked up is listed
/// as focused. It then sends the configured keys to that pane and disarms.
pub proof fn law_press_sends_keys_iff(
    before: World,
    middle: World,
    raised: Seq<Result<(), Seq<char>>>,
    pending: Option<PendingView>,
    after: World,
    raised_after: Seq<Result<(), Seq<char>>>,
    pending_after: Option<PendingView>,
    key: Seq<char>,
    pane_id: Seq<char>,
    confirm: ConfirmView,
    now: int,
    result: ActivationView,
)
    requires
        pane_for_key_run(before, middle, key, Ok(pane_id)),
        press_step(
            middle,
            raised,
            pending,
            after,
            raised_after,
            pending_after,
            key,
            Ok(pane_id),
            confirm,
            now,
            result,
        ),
    ensures
        ({
            let sent = exists|i: int|
                before.panes.len() <= i < after.panes.len() && (#[trigger] after.panes[i])
                    is SendKeys;
            let listing = after.panes[middle.panes.len() as int]->Panes_0;
            let focused = listing is Ok && exists|i: int|
                0 <= i < listing->Ok_0.len() && (#[trigger] listing->Ok_0[i]).pane_id == pane_id
                    && listing->Ok_0[i].focused;
            &&& sent <==> {
                &&& confirm.enabled
                &&& pending is Some
                &&& pending->0.key == key
                &&& pending->0.pane_id == pane_id
                &&& now <= pending->0.expires_at
                &&& focused
            }
            &&& sent ==> {
                &&& after.panes.last() is SendKeys
                &&& after.panes.last()->SendKeys_0 == pane_id
                &&& after.panes.last()->SendKeys_1 == confirm.keys
                &&& pending_after is None
                &&& raised_after == raised
                &&& result == match after.panes.last()->SendKeys_2 {
                    Ok(()) => ActivationView::Confirmed,
                    Err(message) => ActivationView::ConfirmFailed(message),
                }
            }
            &&& !sent ==> (result is Focused || result is FocusFailed)
        }),
{
    assert(press_run(
        before,
        raised,
        pending,
        after,
        raised_after,
        pending_after,
        key,
        confirm,
        now,
        result,
    ));
    lemma_lookup_extends(before, middle, key, Ok(pane_id));
    let listing = after.panes[middle.panes.len() as int]->Panes_0;
    let listed = middle.asked(DirectoryCall::Panes(listing));
    let answer = match result {
        ActivationView::FocusFailed(message) => Err(message),
        _ => Ok(()),
    };
    if result is Focused || result is FocusFailed {
        if confirm.enabled {
            lemma_focusing_extends(listed, raised, after, raised_after, key, answer);
        } else {
            lemma_focusing_extends(middle, raised, after, raised_after, key, answer);
        }
        if exists|i: int|
            before.panes.len() <= i < after.panes.len() && (#[trigger] after.panes[i])
                is SendKeys {
            let i = choose|i: int|
                before.panes.len() <= i < after.panes.len() && (#[trigger] after.panes[i])
                    is SendKeys;
            law_keys_are_sent_only_to_confirm(
                before,
                raised,
                pending,
                after,
                raised_after,
                pending_after,
                key,
                confirm,
                now,
                result,
                i,
            );
            assert(false);
        }
    } else {
        assert(after.panes[after.panes.len() - 1] is SendKeys);
        law_keys_are_sent_only_to_confirm(
            before,
            raised,
            pending,
            after,
            raised_after,
            pending_after,
            key,
            confirm,
            now,
            result,
            after.panes.len() - 1,
        );
    }
}

/// A key that is looked up is found in the ledger that the lookup has just
/// saved, under a pane that it has just seen listed. The lookup starts with
/// that listing.
pub proof fn law_lookup_finds_a_live_binding(
    before: World,
    after: World,
    key: Seq<char>,
    pane_id: Seq<char>,
)
    requires
        pane_for_key_run(before, after, key, Ok(pane_id)),
    ensures
        before.panes.len() < after.panes.len(),
        before.store.len() < after.store.len(),
        after.panes[before.panes.len() as int] is Panes,
        after.panes[before.panes.len() as int]->Panes_0 is Ok,
        ({
            let panes = after.panes[before.panes.len() as int]->Panes_0->Ok_0;
            exists|i: int| 0 <= i < panes.len() && (#[trigger] panes[i]).pane_id == pane_id
        }),
        after.store.last() is Save,
        after.store.last()->Save_1 is Ok,
        ({
            let entries = after.store.last()->Save_0.bindings;
            exists|i: int|
                0 <= i < entries.len() && (#[trigger] entries[i]).key == key && entries[i].pane_id
                    == pane_id
        }),
{
    let seen = choose|seen: Result<(Seq<PaneView>, StateView), BindingFault>|
        {
            &&& #[trigger] refresh_run(before, after, seen)
            &&& Ok::<Seq<char>, BindingFault>(pane_id) == match seen {
                Err(fault) => Err(fault),
                Ok((_, state)) => lookup(state, key),
            }
        };
    let (panes, state) = seen->Ok_0;
    let listed = before.asked(DirectoryCall::Panes(Ok(panes)));
    let stored = listed.loading(after)->Ok_0;
    let loaded = listed.stored(StoreCall::Load(Ok(stored)));
    assert(reconcile_run(listed, after, panes, Ok(state)));
    assert(after.panes[before.panes.len() as int] == listed.panes[before.panes.len() as int]);
    lemma_key_owner(state.bindings, key);
    let entry = BindingView { key, pane_id };
    assert(state.bindings.contains(entry));
    let place = choose|i: int| 0 <= i < state.bindings.len() && state.bindings[i] == entry;
    assert(state.bindings[place].key == key && state.bindings[place].pane_id == pane_id);
    law_reconciled_ledger_is_valid_and_live(stored, panes);
    let i = choose|i: int| 0 <= i < panes.len() && (#[trigger] panes[i]).pane_id == pane_id;
    assert(panes[i].pane_id == pane_id);
    let saved = loaded.stored(StoreCall::Save(state, loaded.saving(after)));
    assert(after.store == saved.store);
    assert(after.store.last() == saved.store.last());
    assert(after.store.last()->Save_0.bindings[place] == entry);
}

/// A press that focuses a pane focuses the one that the ledger, as it was just
/// saved, binds to the key, after the terminal was brought to the front. What
/// is armed stays, or is the press itself for the configured milliseconds.
pub proof fn law_press_focuses_the_bound_pane(
    before: World,
    raised: Seq<Result<(), Seq<char>>>,
    pending: Option<PendingView>,
    after: World,
    raised_after: Seq<Result<(), Seq<char>>>,
    pending_after: Option<PendingView>,
    key: Seq<char>,
    confirm: ConfirmView,
    now: int,
)
    requires
        press_run(
            before,
            raised,
            pending,
            after,
            raised_after,
            pending_after,
            key,
            confirm,
            now,
            ActivationView::Focused,
        ),
    ensures
        after.panes.len() > 0,
        after.panes.last() is Focus,
        after.panes.last()->Focus_1 is Ok,
        raised_after == raised.push(raised_after.last()),
        raised_after.last() is Ok,
        after.store.len() > before.store.len(),
        after.store.last() is Save,
        after.store.last()->Save_1 is Ok,
        ({
            let entries = after.store.last()->Save_0.bindings;
            exists|i: int|
                0 <= i < entries.len() && (#[trigger] entries[i]).key == key && entries[i].pane_id
                    == after.panes.last()->Focus_0
        }),
        pending_after != pending ==> {
            &&& confirm.enabled
            &&& pending_after is Some
            &&& pending_after->0.key == key
            &&& pending_after->0.expires_at == now + 1_000_000 * confirm.repeat_press_ms
        },
{
    let (middle, target) = choose|middle: World, target: Result<Seq<char>, BindingFault>|
        {
            &&& #[trigger] pane_for_key_run(before, middle, key, target)
            &&& press_step(
                middle,
                raised,
                pending,
                after,
                raised_after,
                pending_after,
                key,
                target,
                confirm,
                now,
                ActivationView::Focused,
            )
        };
    lemma_lookup_stores(before, middle, key, target);
    let start = if target is Ok && confirm.enabled {
        middle.asked(DirectoryCall::Panes(middle.listing(after)))
    } else {
        middle
    };
    lemma_focusing_focuses(start, raised, after, raised_after, key);
}

/// What is focused is bound to the key, and the terminal is raised first.
proof fn lemma_focusing_focuses(
    start: World,
    raised: Seq<Result<(), Seq<char>>>,
    after: World,
    raised_after: Seq<Result<(), Seq<char>>>,
    key: Seq<char>,
)
    requires
        focusing_run(start, raised, after, raised_after, key, Ok(())),
    ensures
        after.panes.len() > 0,
        after.panes.last() is Focus,
        after.panes.last()->Focus_1 is Ok,
        raised_after == raised.push(raised_after.last()),
        raised_after.last() is Ok,
        after.store.len() > start.store.len(),
        after.store.last() is Save,
        after.store.last()->Save_1 is Ok,
        ({
            let entries = after.store.last()->Save_0.bindings;
            exists|i: int|
                0 <= i < entries.len() && (#[trigger] entries[i]).key == key && entries[i].pane_id
                    == after.panes.last()->Focus_0
        }),
{
    let (looked, owner) = choose|looked: World, owner: Result<Seq<char>, BindingFault>|
        {
            &&& #[trigger] pane_for_key_run(start, looked, key, owner)
            &&& match owner {
                Err(fault) => {
                    &&& after == looked
                    &&& raised_after == raised
                    &&& Ok::<(), Seq<char>>(()) == Err::<(), Seq<char>>(fault.message())
                },
                Ok(pane_id) => {
                    let answer = raised_after.last();
                    &&& raised_after == raised.push(answer)
                    &&& match answer {
                        Err(message) => after == looked && Ok::<(), Seq<char>>(()) == Err::<
                            (),
                            Seq<char>,
                        >(message),
                        Ok(()) => after == looked.asked(DirectoryCall::Focus(pane_id, Ok(()))),
                    }
                },
            }
        };
    law_lookup_finds_a_live_binding(start, looked, key, owner->Ok_0);
    assert(after.store == looked.store);
    assert(after.panes.last() == DirectoryCall::Focus(owner->Ok_0, Ok(())));
}

/// A lookup only adds to what was asked of the store.
proof fn lemma_lookup_stores(
    before: World,
    after: World,
    key: Seq<char>,
    result: Result<Seq<char>, BindingFault>,
)
    requires
        pane_for_key_run(before, after, key, result),
    ensures
        before.store.len() <= after.store.len(),
{
    if is_key(key) {
        let seen = choose|seen: Result<(Seq<PaneView>, StateView), BindingFault>|
            {
                &&& #[trigger] refresh_run(before, after, seen)
                &&& result == match seen {
                    Err(fault) => Err(fault),
                    Ok((_, state)) => lookup(state, key),
                }
            };
        assert(refresh_run(before, after, seen));
    }
}

/// Where confirmation is enabled, a press that focuses arms a confirmation of
/// its key for the pane that it looked up, for the configured milliseconds.
/// Where it is not, and where the press fails to focus, what is armed stays.
pub proof fn law_press_arms(
    middle: World,
    raised: Seq<Result<(), Seq<char>>>,
    pending: Option<PendingView>,
    after: World,
    raised_after: Seq<Result<(), Seq<char>>>,
    pending_after: Option<PendingView>,
    key: Seq<char>,
    pane_id: Seq<char>,
    confirm: ConfirmView,
    now: int,
    result: ActivationView,
)
    requires
        press_step(
            middle,
            raised,
            pending,
            after,
            raised_after,
            pending_after,
            key,
            Ok(pane_id),
            confirm,
            now,
            result,
        ),
    ensures
        result is Focused && confirm.enabled ==> pending_after is Some && pending_after->0.key
            == key && pending_after->0.pane_id == pane_id && pending_after->0.expires_at == now
            + 1_000_000 * confirm.repeat_press_ms,
        result is Focused && !confirm.enabled ==> pending_after == pending,
        result is FocusFailed ==> pending_after == pending,
{
}

/// A lookup that is well-formed and finds nothing says which key is not bound:
/// the ledger that it has just saved has no entry for the key.
pub proof fn law_lookup_misses_an_unbound_key(
    before: World,
    after: World,
    key: Seq<char>,
    missed: Seq<char>,
)
    requires
        pane_for_key_run(before, after, key, Err(BindingFault::NotBound { key: missed })),
    ensures
        missed == key,
        after.store.len() == before.store.len() + 2,
        after.store.last() is Save,
        after.store.last()->Save_1 is Ok,
        ({
            let entries = after.store.last()->Save_0.bindings;
            forall|i: int| 0 <= i < entries.len() ==> (#[trigger] entries[i]).key != key
        }),
{
    let fault = BindingFault::NotBound { key: missed };
    let seen = choose|seen: Result<(Seq<PaneView>, StateView), BindingFault>|
        {
            &&& #[trigger] refresh_run(before, after, seen)
            &&& Err::<Seq<char>, BindingFault>(fault) == match seen {
                Err(fault) => Err(fault),
                Ok((_, state)) => lookup(state, key),
            }
        };
    let listing = before.listing(after);
    let listed = before.asked(DirectoryCall::Panes(listing));
    if seen is Err {
        if let Ok(panes) = listing {
            if let Ok(stored) = listed.loading(after) {
                law_ledger_accepted_iff_well_formed(starting_state(stored, panes).bindings);
            }
        }
        assert(false);
    }
    let (panes, state) = seen->Ok_0;
    assert(reconcile_run(listed, after, panes, Ok(state)));
    let stored = listed.loading(after)->Ok_0;
    let loaded = listed.stored(StoreCall::Load(Ok(stored)));
    let saved = loaded.stored(StoreCall::Save(state, loaded.saving(after)));
    assert(after.store == saved.store);
    assert(after.store.last() == saved.store.last());
    lemma_key_owner(state.bindings, key);
    assert forall|i: int| 0 <= i < state.bindings.len() implies (
    #[trigger] state.bindings[i]).key != key by {
        if state.bindings[i].key == key {
            assert(crate::binding::key_used(state.bindings, key));
        }
    }
}

/// A press whose terminal cannot be brought to the front focuses nothing, and
/// fails for that reason.
pub proof fn law_no_focus_without_a_terminal(
    before: World,
    raised: Seq<Result<(), Seq<char>>>,
    after: World,
    raised_after: Seq<Result<(), Seq<char>>>,
    key: Seq<char>,
    result: Result<(), Seq<char>>,
)
    requires
        focusing_run(before, raised, after, raised_after, key, result),
        raised_after.len() > raised.len(),
        raised_after.last() is Err,
    ensures
        result is Err,
        result->Err_0 == raised_after.last()->Err_0,
        exists|owner: Seq<char>| #[trigger] pane_for_key_run(before, after, key, Ok(owner)),
{
    let (looked, owner) = choose|looked: World, owner: Result<Seq<char>, BindingFault>|
        {
            &&& #[trigger] pane_for_key_run(before, looked, key, owner)
            &&& match owner {
                Err(fault) => {
                    &&& after == looked
                    &&& raised_after == raised
                    &&& result == Err::<(), Seq<char>>(fault.message())
                },
                Ok(pane_id) => {
                    let answer = raised_after.last();
                    &&& raised_after == raised.push(answer)
                    &&& match answer {
                        Err(message) => after == looked && result == Err::<(), Seq<char>>(message),
                        Ok(()) => after == looked.asked(DirectoryCall::Focus(pane_id, result)),
                    }
                },
            }
        };
    assert(pane_for_key_run(before, after, key, Ok(owner->Ok_0)));
}

/// A press that does not even try to bring the terminal to the front found no
/// pane for its key. It fails with the reason for that, and focuses nothing.
pub proof fn law_no_focus_without_a_binding(
    before: World,
    raised: Seq<Result<(), Seq<char>>>,
    after: World,
    raised_after: Seq<Result<(), Seq<char>>>,
    key: Seq<char>,
    result: Result<(), Seq<char>>,
)
    requires
        focusing_run(before, raised, after, raised_after, key, result),
        raised_after.len() <= raised.len(),
    ensures
        raised_after == raised,
        result is Err,
        exists|fault: BindingFault| #[trigger]
            pane_for_key_run(before, after, key, Err(fault)) && result->Err_0 == fault.message(),
{
    let (looked, owner) = choose|looked: World, owner: Result<Seq<char>, BindingFault>|
        {
            &&& #[trigger] pane_for_key_run(before, looked, key, owner)
            &&& match owner {
                Err(fault) => {
                    &&& after == looked
                    &&& raised_after == raised
                    &&& result == Err::<(), Seq<char>>(fault.message())
                },
                Ok(pane_id) => {
                    let answer = raised_after.last();
                    &&& raised_after == raised.push(answer)
                    &&& match answer {
                        Err(message) => after == looked && result == Err::<(), Seq<char>>(message),
                        Ok(()) => after == looked.asked(DirectoryCall::Focus(pane_id, result)),
                    }
                },
            }
        };
    if owner is Ok {
        assert(raised_after.len() == raised.len() + 1);
    }
    assert(pane_for_key_run(before, after, key, Err(owner->Err_0)));
}

} // verus!
