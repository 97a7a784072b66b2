//! What requests come to, told from the listings, the stored ledgers and the
//! answers alone.

use vstd::prelude::*;

use crate::binding::{
    entry_fault, first_entry_fault, free_key, free_key_from, has_pane, is_key, key_ids, key_used,
    ledger_fault, lemma_key_not_empty, lemma_no_fault_iff_valid, valid_ledger, BindingFault, BindingView, PaneView, StateView,
};
use crate::laws::{
    law_bind, law_one_key_one_pane, law_reconciled_ledger_is_valid_and_live, law_release,
    lemma_filter,
};
use crate::ledger::{
    bind_outcome, bound_key, chosen_key, key_owner, lemma_bound_key, lemma_key_owner, reconciled,
    release_outcome, starting_state, token_bindings, token_change, token_changes,
    without_pane, TokenWriteView,
};
use crate::service::{
    bind_run, bind_step, commit_run, guarded_run, ledger_or_empty, lemma_reconcile_extends, lookup,
    mirrored, pane_for_key_run, presentation, presentation_run, reconcile_run, refresh_run, release_key_run,
    release_key_step, release_run, release_step, status_run, BindResultView, DirectoryCall,
    StoreCall, World,
};
use crate::state::stored_fault;
use crate::status::{
    in_key_order, law_key_order, paired, pane_named, presented, PresentationView, RowView,
};
use crate::text::text_before;

verus! {

// ---------------------------------------------------------------------------
// Ledgers
// ---------------------------------------------------------------------------

/// One of the ten keys that Beckon knows.
pub open spec fn is_logical_key(key: Seq<char>) -> bool {
    ||| key == "f1"@
    ||| key == "f2"@
    ||| key == "f3"@
    ||| key == "f4"@
    ||| key == "f5"@
    ||| key == "f6"@
    ||| key == "f7"@
    ||| key == "f8"@
    ||| key == "f9"@
    ||| key == "f10"@
}

/// A pane with the identifier is among the panes.
pub open spec fn listed(panes: Seq<PaneView>, pane_id: Seq<char>) -> bool {
    exists|i: int| 0 <= i < panes.len() && (#[trigger] panes[i]).pane_id == pane_id
}

/// Every entry is for a logical key and names a pane, and no two entries share
/// a key or a pane.
pub open spec fn well_formed(entries: Seq<BindingView>) -> bool {
    &&& forall|i: int|
        0 <= i < entries.len() ==> is_logical_key((#[trigger] entries[i]).key)
            && entries[i].pane_id.len() > 0
    &&& forall|i: int, j: int|
        0 <= i < entries.len() && 0 <= j < entries.len() && ((#[trigger] entries[i]).key == (
        #[trigger] entries[j]).key || entries[i].pane_id == entries[j].pane_id) ==> i == j
}

/// The keys that Beckon knows, in the order in which they are given out.
pub open spec fn logical_keys() -> Seq<Seq<char>> {
    seq!["f1"@, "f2"@, "f3"@, "f4"@, "f5"@, "f6"@, "f7"@, "f8"@, "f9"@, "f10"@]
}

/// The logical keys are the ten keys that Beckon knows, in this order.
pub proof fn law_logical_keys(key: Seq<char>)
    ensures
        key_ids() == logical_keys(),
        is_key(key) <==> is_logical_key(key),
{
    assert(key_ids() =~= logical_keys());
    let keys = key_ids();
    if is_key(key) {
        let i = choose|i: int| 0 <= i < keys.len() && keys[i] == key;
        assert(keys[i] == key);
    }
    assert(keys[0] == "f1"@ && keys[1] == "f2"@ && keys[2] == "f3"@ && keys[3] == "f4"@ && keys[4]
        == "f5"@ && keys[5] == "f6"@ && keys[6] == "f7"@ && keys[7] == "f8"@ && keys[8] == "f9"@
        && keys[9] == "f10"@);
}

/// A ledger is accepted exactly when it is well formed; a refusal names what is
/// wrong with it.
pub proof fn law_ledger_accepted_iff_well_formed(entries: Seq<BindingView>)
    ensures
        ledger_fault(entries) is None <==> well_formed(entries),
        match ledger_fault(entries) {
            None => true,
            Some(BindingFault::UnknownKey) => exists|i: int|
                0 <= i < entries.len() && !is_logical_key((#[trigger] entries[i]).key),
            Some(BindingFault::EmptyPaneId) => exists|i: int|
                0 <= i < entries.len() && (#[trigger] entries[i]).pane_id.len() == 0,
            Some(BindingFault::NotUnique) => exists|i: int, j: int|
                0 <= i < j < entries.len() && ((#[trigger] entries[i]).key == (
                #[trigger] entries[j]).key || entries[i].pane_id == entries[j].pane_id),
            Some(_) => false,
        },
{
    lemma_no_fault_iff_valid(entries);
    assert forall|i: int| 0 <= i < entries.len() implies is_key((#[trigger] entries[i]).key)
        == is_logical_key(entries[i].key) by {
        law_logical_keys(entries[i].key);
    }
    if valid_ledger(entries) {
        assert forall|i: int, j: int|
            0 <= i < entries.len() && 0 <= j < entries.len() && ((#[trigger] entries[i]).key == (
            #[trigger] entries[j]).key || entries[i].pane_id == entries[j].pane_id) implies i
            == j by {
            if i < j {
                assert(entries[i].key != entries[j].key);
            } else if j < i {
                assert(entries[j].key != entries[i].key);
            }
        }
    }
    if well_formed(entries) {
        assert forall|i: int, j: int|
            #![trigger entries[i], entries[j]]
            0 <= i < j < entries.len() implies entries[i].key != entries[j].key
            && entries[i].pane_id != entries[j].pane_id by {}
        assert(valid_ledger(entries));
    }
    lemma_first_fault(entries);
}

proof fn lemma_first_fault(entries: Seq<BindingView>)
    ensures
        match first_entry_fault(entries) {
            None => true,
            Some(fault) => exists|i: int|
                0 <= i < entries.len() && entry_fault(#[trigger] entries[i]) == Some(fault),
        },
    decreases entries.len(),
{
    if entries.len() > 0 && entry_fault(entries[0]) is None {
        let rest = entries.drop_first();
        lemma_first_fault(rest);
        if let Some(fault) = first_entry_fault(rest) {
            let i = choose|i: int|
                0 <= i < rest.len() && entry_fault(#[trigger] rest[i]) == Some(fault);
            assert(entries[i + 1] == rest[i]);
        }
    }
}

/// A stored ledger is accepted exactly when it is of the one supported version
/// and well formed.
pub proof fn law_stored_ledger_accepted_iff(state: StateView, path: Seq<char>)
    ensures
        stored_fault(state, path) is None <==> state.state_version == 1 && well_formed(
            state.bindings,
        ),
{
    law_ledger_accepted_iff_well_formed(state.bindings);
}

// ---------------------------------------------------------------------------
// Reconciliation
// ---------------------------------------------------------------------------

/// A pane shows the key in its visible token.
pub open spec fn shows(pane: PaneView, key: Seq<char>) -> bool {
    pane.tokens.contains_key("fkey"@) && pane.tokens["fkey"@] == key
}

/// An entry is in the ledger to start from: the stored one, or, where nothing
/// was ever stored, what the listed panes show.
pub open spec fn known(
    stored: Option<StateView>,
    panes: Seq<PaneView>,
    entry: BindingView,
) -> bool {
    match stored {
        Some(state) => state.bindings.contains(entry),
        None => exists|i: int|
            0 <= i < panes.len() && (#[trigger] panes[i]).pane_id == entry.pane_id && shows(
                panes[i],
                entry.key,
            ),
    }
}

proof fn lemma_imported(panes: Seq<PaneView>, entry: BindingView)
    ensures
        token_bindings(panes).contains(entry) <==> known(None, panes, entry),
    decreases panes.len(),
{
    let all = token_bindings(panes);
    if panes.len() > 0 {
        let rest = panes.drop_last();
        let earlier = token_bindings(rest);
        let last = panes.len() - 1;
        lemma_imported(rest, entry);
        if all.contains(entry) {
            let i = choose|i: int| 0 <= i < all.len() && all[i] == entry;
            if i < earlier.len() {
                assert(earlier[i] == entry);
                assert(earlier.contains(entry));
                let k = choose|k: int|
                    0 <= k < rest.len() && (#[trigger] rest[k]).pane_id == entry.pane_id && shows(
                        rest[k],
                        entry.key,
                    );
                assert(panes[k] == rest[k]);
            } else {
                assert(panes[last].pane_id == entry.pane_id && shows(panes[last], entry.key));
            }
        }
        if known(None, panes, entry) {
            let k = choose|k: int|
                0 <= k < panes.len() && (#[trigger] panes[k]).pane_id == entry.pane_id && shows(
                    panes[k],
                    entry.key,
                );
            if k < last {
                assert(rest[k] == panes[k]);
                assert(earlier.contains(entry));
                let i = choose|i: int| 0 <= i < earlier.len() && earlier[i] == entry;
                assert(all[i] == entry);
            } else {
                assert(all[all.len() - 1] == entry);
            }
        }
    }
}

/// Reconciling keeps the version of the stored ledger, and writes the supported
/// one where none was stored. It keeps exactly the entries whose pane is
/// listed, and gives a well-formed ledger. It is refused exactly where the
/// ledger to start from is not well formed.
pub proof fn law_reconciliation(stored: Option<StateView>, panes: Seq<PaneView>)
    ensures
        match reconciled(stored, panes) {
            Ok(plan) => {
                &&& plan.state.state_version == match stored {
                    Some(state) => state.state_version,
                    None => 1,
                }
                &&& well_formed(plan.state.bindings)
                &&& forall|entry: BindingView| #[trigger]
                    plan.state.bindings.contains(entry) <==> known(stored, panes, entry) && listed(
                        panes,
                        entry.pane_id,
                    )
            },
            Err(_) => stored is Some ==> !well_formed((stored->0).bindings),
        },
        stored is Some && well_formed((stored->0).bindings) ==> reconciled(stored, panes) is Ok,
{
    let start = starting_state(stored, panes);
    law_ledger_accepted_iff_well_formed(start.bindings);
    if let Ok(plan) = reconciled(stored, panes) {
        law_reconciled_ledger_is_valid_and_live(stored, panes);
        lemma_no_fault_iff_valid(plan.state.bindings);
        law_ledger_accepted_iff_well_formed(plan.state.bindings);
        assert forall|entry: BindingView| #[trigger]
            plan.state.bindings.contains(entry) <==> known(stored, panes, entry) && listed(
                panes,
                entry.pane_id,
            ) by {
            lemma_imported(panes, entry);
        }
    }
}

proof fn lemma_filter_keeps_order(
    entries: Seq<BindingView>,
    test: spec_fn(BindingView) -> bool,
    i: int,
    j: int,
)
    requires
        0 <= i < j < entries.filter(test).len(),
    ensures
        exists|p: int, q: int|
            0 <= p < q < entries.len() && #[trigger] entries[p] == entries.filter(test)[i]
                && #[trigger] entries[q] == entries.filter(test)[j],
    decreases entries.len(),
{
    reveal(Seq::filter);
    let kept = entries.filter(test);
    let rest = entries.drop_last();
    let inner = rest.filter(test);
    if j < inner.len() {
        lemma_filter_keeps_order(rest, test, i, j);
        let (p, q) = choose|p: int, q: int|
            0 <= p < q < rest.len() && #[trigger] rest[p] == inner[i] && #[trigger] rest[q]
                == inner[j];
        assert(entries[p] == kept[i] && entries[q] == kept[j]);
    } else {
        lemma_filter_comes_from(rest, test, i);
        let p = choose|p: int| 0 <= p < rest.len() && #[trigger] rest[p] == inner[i];
        assert(entries[p] == kept[i] && entries[entries.len() - 1] == kept[j]);
    }
}

proof fn lemma_filter_comes_from(
    entries: Seq<BindingView>,
    test: spec_fn(BindingView) -> bool,
    i: int,
)
    requires
        0 <= i < entries.filter(test).len(),
    ensures
        exists|p: int|
            0 <= p < entries.len() && #[trigger] entries[p] == entries.filter(test)[i],
    decreases entries.len(),
{
    reveal(Seq::filter);
    let kept = entries.filter(test);
    let rest = entries.drop_last();
    let inner = rest.filter(test);
    if i < inner.len() {
        lemma_filter_comes_from(rest, test, i);
        let p = choose|p: int| 0 <= p < rest.len() && #[trigger] rest[p] == inner[i];
        assert(entries[p] == kept[i]);
    } else {
        assert(entries[entries.len() - 1] == kept[i]);
    }
}

/// Entries of a stored ledger that stay, stay in their order.
pub proof fn law_reconciliation_keeps_the_order(
    stored: StateView,
    panes: Seq<PaneView>,
    i: int,
    j: int,
)
    requires
        reconciled(Some(stored), panes) is Ok,
        0 <= i < j < reconciled(Some(stored), panes)->Ok_0.state.bindings.len(),
    ensures
        ({
            let kept = reconciled(Some(stored), panes)->Ok_0.state.bindings;
            exists|p: int, q: int|
                0 <= p < q < stored.bindings.len() && #[trigger] stored.bindings[p] == kept[i]
                    && #[trigger] stored.bindings[q] == kept[j]
        }),
{
    lemma_filter_keeps_order(
        stored.bindings,
        |binding: BindingView| has_pane(panes, binding.pane_id),
        i,
        j,
    );
}

/// A token change is right for a pane: it shows the key that the ledger has for
/// the pane and that the pane does not show yet, or it clears a token of a pane
/// that the ledger does not have. Nothing is cleared where the ledger was
/// imported.
pub open spec fn is_right_for(
    write: TokenWriteView,
    pane: PaneView,
    entries: Seq<BindingView>,
    imported: bool,
) -> bool {
    &&& write.pane_id == pane.pane_id
    &&& match write.key {
        Some(key) => entries.contains(BindingView { key, pane_id: pane.pane_id }) && !shows(
            pane,
            key,
        ),
        None => {
            &&& !imported
            &&& pane.tokens.contains_key("fkey"@)
            &&& forall|i: int|
                0 <= i < entries.len() ==> (#[trigger] entries[i]).pane_id != pane.pane_id
        },
    }
}

/// A pane's token shows what the ledger has for the pane.
pub open spec fn is_mirrored(pane: PaneView, entries: Seq<BindingView>) -> bool {
    if pane.tokens.contains_key("fkey"@) {
        entries.contains(BindingView { key: pane.tokens["fkey"@], pane_id: pane.pane_id })
    } else {
        forall|i: int| 0 <= i < entries.len() ==> (#[trigger] entries[i]).pane_id != pane.pane_id
    }
}

proof fn lemma_token_change(entries: Seq<BindingView>, pane: PaneView, imported: bool)
    requires
        well_formed(entries),
    ensures
        match token_change(entries, pane, imported) {
            Some(write) => is_right_for(write, pane, entries, imported),
            None => is_mirrored(pane, entries) || imported && forall|i: int|
                0 <= i < entries.len() ==> (#[trigger] entries[i]).pane_id != pane.pane_id,
        },
{
    lemma_bound_key(entries, pane.pane_id);
    if let Some(key) = bound_key(entries, pane.pane_id) {
        assert(entries.contains(BindingView { key, pane_id: pane.pane_id }));
    }
}

proof fn lemma_token_changes(
    entries: Seq<BindingView>,
    panes: Seq<PaneView>,
    imported: bool,
)
    requires
        well_formed(entries),
    ensures
        forall|k: int|
            0 <= k < token_changes(entries, panes, imported).len() ==> exists|i: int|
                0 <= i < panes.len() && is_right_for(
                    #[trigger] token_changes(entries, panes, imported)[k],
                    #[trigger] panes[i],
                    entries,
                    imported,
                ),
        forall|i: int|
            0 <= i < panes.len() ==> is_mirrored(#[trigger] panes[i], entries) || imported && (
            forall|e: int|
                0 <= e < entries.len() ==> (#[trigger] entries[e]).pane_id != panes[i].pane_id)
                || exists|k: int|
                0 <= k < token_changes(entries, panes, imported).len() && is_right_for(
                    #[trigger] token_changes(entries, panes, imported)[k],
                    panes[i],
                    entries,
                    imported,
                ),
    decreases panes.len(),
{
    if panes.len() > 0 {
        let rest = panes.drop_last();
        let last = panes.len() - 1;
        let earlier = token_changes(entries, rest, imported);
        let all = token_changes(entries, panes, imported);
        lemma_token_changes(entries, rest, imported);
        lemma_token_change(entries, panes[last], imported);
        assert forall|k: int| 0 <= k < all.len() implies exists|i: int|
            0 <= i < panes.len() && is_right_for(
                #[trigger] all[k],
                #[trigger] panes[i],
                entries,
                imported,
            ) by {
            if k < earlier.len() {
                assert(all[k] == earlier[k]);
                let i = choose|i: int|
                    0 <= i < rest.len() && is_right_for(
                        earlier[k],
                        #[trigger] rest[i],
                        entries,
                        imported,
                    );
                assert(panes[i] == rest[i]);
            } else {
                assert(is_right_for(all[k], panes[last], entries, imported));
            }
        }
        assert forall|i: int| 0 <= i < panes.len() implies is_mirrored(
            #[trigger] panes[i],
            entries,
        ) || imported && (forall|e: int|
            0 <= e < entries.len() ==> (#[trigger] entries[e]).pane_id != panes[i].pane_id)
            || exists|k: int|
            0 <= k < all.len() && is_right_for(#[trigger] all[k], panes[i], entries, imported) by {
            if i < last {
                assert(rest[i] == panes[i]);
                if exists|k: int|
                    0 <= k < earlier.len() && is_right_for(
                        #[trigger] earlier[k],
                        rest[i],
                        entries,
                        imported,
                    ) {
                    let k = choose|k: int|
                        0 <= k < earlier.len() && is_right_for(
                            #[trigger] earlier[k],
                            rest[i],
                            entries,
                            imported,
                        );
                    assert(all[k] == earlier[k]);
                }
            } else if token_change(entries, panes[last], imported) is Some {
                assert(all[all.len() - 1] == token_change(entries, panes[last], imported)->0);
            }
        }
    }
}

/// The token changes of a reconciliation are right for the listed panes, and a
/// pane that gets none shows what the ledger has for it. Where the ledger was
/// imported, every token already agrees with it.
pub proof fn law_reconciliation_mirrors(stored: Option<StateView>, panes: Seq<PaneView>)
    requires
        reconciled(stored, panes) is Ok,
    ensures
        ({
            let plan = reconciled(stored, panes)->Ok_0;
            let entries = plan.state.bindings;
            &&& forall|k: int|
                0 <= k < plan.writes.len() ==> exists|i: int|
                    0 <= i < panes.len() && is_right_for(
                        #[trigger] plan.writes[k],
                        #[trigger] panes[i],
                        entries,
                        stored is None,
                    )
            &&& forall|i: int|
                0 <= i < panes.len() ==> is_mirrored(#[trigger] panes[i], entries) || exists|k: int|
                    0 <= k < plan.writes.len() && is_right_for(
                        #[trigger] plan.writes[k],
                        panes[i],
                        entries,
                        stored is None,
                    )
        }),
{
    let plan = reconciled(stored, panes)->Ok_0;
    let entries = plan.state.bindings;
    let writes = token_changes(entries, panes, stored is None);
    law_reconciliation(stored, panes);
    lemma_token_changes(entries, panes, stored is None);
    assert(plan.writes == writes);
    assert forall|i: int| 0 <= i < panes.len() implies is_mirrored(#[trigger] panes[i], entries)
        || exists|k: int|
        0 <= k < plan.writes.len() && is_right_for(
            #[trigger] plan.writes[k],
            panes[i],
            entries,
            stored is None,
        ) by {
        let pane = panes[i];
        if stored is None && (forall|e: int|
            0 <= e < entries.len() ==> (#[trigger] entries[e]).pane_id != pane.pane_id) {
            if pane.tokens.contains_key("fkey"@) {
                let entry = BindingView { key: pane.tokens["fkey"@], pane_id: pane.pane_id };
                assert(shows(pane, entry.key));
                assert(known(stored, panes, entry));
                assert(listed(panes, entry.pane_id));
                assert(entries.contains(entry));
                let e = choose|e: int| 0 <= e < entries.len() && entries[e] == entry;
                assert(entries[e].pane_id == pane.pane_id);
            }
            assert(is_mirrored(pane, entries));
        } else if !is_mirrored(pane, entries) {
            let k = choose|k: int|
                0 <= k < writes.len() && is_right_for(
                    #[trigger] writes[k],
                    pane,
                    entries,
                    stored is None,
                );
            assert(is_right_for(plan.writes[k], pane, entries, stored is None));
        }
    }
}

/// A reconciliation that comes to its end writes nothing to Herdr but token
/// changes that are right for the listed panes, and every pane that did not
/// show what the saved ledger has for it got one that was accepted.
pub proof fn law_reconciliation_writes_the_tokens(
    before: World,
    after: World,
    panes: Seq<PaneView>,
    state: StateView,
)
    requires
        reconcile_run(before, after, panes, Ok(state)),
    ensures
        before.panes.len() <= after.panes.len(),
        after.panes.take(before.panes.len() as int) == before.panes,
        after.store.last() is Save,
        after.store.last()->Save_0 == state,
        ({
            let imported = after.store[before.store.len() as int]->Load_0->Ok_0 is None;
            let entries = state.bindings;
            &&& forall|j: int|
                before.panes.len() <= j < after.panes.len() ==> is_accepted_change(
                    #[trigger] after.panes[j],
                    panes,
                    entries,
                    imported,
                )
            &&& forall|i: int|
                0 <= i < panes.len() && !is_mirrored(#[trigger] panes[i], entries) ==> exists|j: int|
                    before.panes.len() <= j < after.panes.len() && is_right_for(
                        (#[trigger] after.panes[j])->WriteFkey_0,
                        panes[i],
                        entries,
                        imported,
                    )
        }),
{
    let stored = before.loading(after)->Ok_0;
    let plan = reconciled(stored, panes)->Ok_0;
    let start = before.panes.len() as int;
    let imported = stored is None;
    law_reconciliation_mirrors(stored, panes);
    let loaded = before.stored(StoreCall::Load(Ok(stored)));
    let saved = loaded.stored(StoreCall::Save(plan.state, loaded.saving(after)));
    assert(after.store == saved.store);
    assert(after.store.last() == saved.store.last());
    assert(after.panes == before.panes + mirrored(plan.writes));
    assert(after.panes.take(start) =~= before.panes);
    assert forall|j: int| start <= j < after.panes.len() implies is_accepted_change(
        #[trigger] after.panes[j],
        panes,
        state.bindings,
        imported,
    ) by {
        assert(after.panes[j] == mirrored(plan.writes)[j - start]);
        let write = plan.writes[j - start];
        let i = choose|i: int|
            0 <= i < panes.len() && is_right_for(
                write,
                #[trigger] panes[i],
                state.bindings,
                imported,
            );
        assert(is_right_for(after.panes[j]->WriteFkey_0, panes[i], state.bindings, imported));
    }
    assert forall|i: int|
        0 <= i < panes.len() && !is_mirrored(
            #[trigger] panes[i],
            state.bindings,
        ) implies exists|j: int|
        start <= j < after.panes.len() && is_right_for(
            (#[trigger] after.panes[j])->WriteFkey_0,
            panes[i],
            state.bindings,
            imported,
        ) by {
        let k = choose|k: int|
            0 <= k < plan.writes.len() && is_right_for(
                #[trigger] plan.writes[k],
                panes[i],
                state.bindings,
                imported,
            );
        assert(after.panes[start + k] == mirrored(plan.writes)[k]);
        assert(is_right_for(
            after.panes[start + k]->WriteFkey_0,
            panes[i],
            state.bindings,
            imported,
        ));
    }
}

/// A call changes a token, as is right for one of the panes, and is accepted.
pub open spec fn is_accepted_change(
    call: DirectoryCall,
    panes: Seq<PaneView>,
    entries: Seq<BindingView>,
    imported: bool,
) -> bool {
    &&& call is WriteFkey
    &&& call->WriteFkey_1 is Ok
    &&& exists|i: int|
        0 <= i < panes.len() && is_right_for(
            call->WriteFkey_0,
            #[trigger] panes[i],
            entries,
            imported,
        )
}

// ---------------------------------------------------------------------------
// What is saved
// ---------------------------------------------------------------------------

/// Between two points of the log a ledger is saved only after one was loaded.
/// It is well formed, and has the version of the loaded ledger, or the one
/// supported version where nothing was stored. So what was accepted when it was
/// loaded is accepted again.
pub open spec fn saves_can_be_loaded(before: World, after: World) -> bool {
    let first = before.store.len() as int;
    forall|i: int|
        first <= i < after.store.len() && (#[trigger] after.store[i]) is Save ==> {
            let loading = after.store[first]->Load_0;
            let saved = after.store[i]->Save_0;
            &&& first < i
            &&& after.store[first] is Load
            &&& loading is Ok
            &&& well_formed(saved.bindings)
            &&& saved.state_version == match loading->Ok_0 {
                Some(state) => state.state_version,
                None => 1,
            }
            &&& match loading->Ok_0 {
                Some(state) => forall|path: Seq<char>| #[trigger]
                    stored_fault(state, path) is None ==> stored_fault(saved, path) is None,
                None => forall|path: Seq<char>| (#[trigger] stored_fault(saved, path)) is None,
            }
        }
}

/// A reconciliation that came to its end loaded a ledger, saved the reconciled
/// one, and did nothing else with the store.
pub open spec fn reconciles(
    before: World,
    after: World,
    panes: Seq<PaneView>,
    state: StateView,
) -> bool {
    let first = before.store.len() as int;
    &&& after.store.len() == first + 2
    &&& after.store[first] is Load
    &&& after.store[first]->Load_0 is Ok
    &&& after.store[first + 1] is Save
    &&& after.store[first + 1]->Save_0 == state
    &&& after.store[first + 1]->Save_1 is Ok
    &&& reconciled(after.store[first]->Load_0->Ok_0, panes) is Ok
    &&& reconciled(after.store[first]->Load_0->Ok_0, panes)->Ok_0.state == state
}

proof fn lemma_saved_is_accepted(loaded: Option<StateView>, saved: StateView)
    requires
        well_formed(saved.bindings),
        saved.state_version == match loaded {
            Some(state) => state.state_version,
            None => 1,
        },
    ensures
        match loaded {
            Some(state) => forall|path: Seq<char>| #[trigger]
                stored_fault(state, path) is None ==> stored_fault(saved, path) is None,
            None => forall|path: Seq<char>| (#[trigger] stored_fault(saved, path)) is None,
        },
{
    assert forall|path: Seq<char>| (#[trigger] stored_fault(saved, path)) is None
        <==> saved.state_version == 1 by {
        law_stored_ledger_accepted_iff(saved, path);
    }
    if let Some(state) = loaded {
        assert forall|path: Seq<char>| #[trigger] stored_fault(state, path) is None implies
            stored_fault(saved, path) is None by {
            law_stored_ledger_accepted_iff(state, path);
            law_stored_ledger_accepted_iff(saved, path);
        }
    }
}

proof fn lemma_reconcile_run(
    before: World,
    after: World,
    panes: Seq<PaneView>,
    result: Result<StateView, BindingFault>,
)
    requires
        reconcile_run(before, after, panes, result),
    ensures
        before.store.is_prefix_of(after.store),
        saves_can_be_loaded(before, after),
        result is Ok ==> reconciles(before, after, panes, result->Ok_0),
{
    let first = before.store.len() as int;
    if let Ok(stored) = before.loading(after) {
        law_reconciliation(stored, panes);
        if let Ok(plan) = reconciled(stored, panes) {
            lemma_saved_is_accepted(stored, plan.state);
            let loaded = before.stored(StoreCall::Load(Ok(stored)));
            let saved = loaded.stored(StoreCall::Save(plan.state, loaded.saving(after)));
            assert(after.store == saved.store);
        }
    }
}

proof fn lemma_refresh_run(
    before: World,
    after: World,
    seen: Result<(Seq<PaneView>, StateView), BindingFault>,
)
    requires
        refresh_run(before, after, seen),
    ensures
        before.store.is_prefix_of(after.store),
        saves_can_be_loaded(before, after),
        seen is Ok ==> {
            &&& before.panes.len() < after.panes.len()
            &&& after.panes[before.panes.len() as int] is Panes
            &&& after.panes[before.panes.len() as int]->Panes_0 is Ok
            &&& after.panes[before.panes.len() as int]->Panes_0->Ok_0 == (seen->Ok_0).0
            &&& reconciles(before, after, (seen->Ok_0).0, (seen->Ok_0).1)
        },
{
    let listing = before.listing(after);
    let listed = before.asked(DirectoryCall::Panes(listing));
    if let Ok(panes) = listing {
        let result = match seen {
            Ok((_, state)) => Ok(state),
            Err(fault) => Err(fault),
        };
        lemma_reconcile_run(listed, after, panes, result);
        lemma_reconcile_extends(listed, after, panes, result);
        assert(after.panes[before.panes.len() as int] == listed.panes[before.panes.len() as int]);
    }
}

proof fn lemma_guarded_run(
    before: World,
    after: World,
    pane_id: Seq<char>,
    result: Result<StateView, BindingFault>,
)
    requires
        guarded_run(before, after, pane_id, result),
    ensures
        before.store.is_prefix_of(after.store),
        saves_can_be_loaded(before, after),
        result is Ok ==> {
            &&& before.panes.len() < after.panes.len()
            &&& after.panes[before.panes.len() as int] is Panes
            &&& after.panes[before.panes.len() as int]->Panes_0 is Ok
            &&& listed(after.panes[before.panes.len() as int]->Panes_0->Ok_0, pane_id)
            &&& reconciles(
                before,
                after,
                after.panes[before.panes.len() as int]->Panes_0->Ok_0,
                result->Ok_0,
            )
        },
{
    let listing = before.listing(after);
    let asked = before.asked(DirectoryCall::Panes(listing));
    if let Ok(panes) = listing {
        if has_pane(panes, pane_id) {
            lemma_reconcile_run(asked, after, panes, result);
            lemma_reconcile_extends(asked, after, panes, result);
            assert(after.panes[before.panes.len() as int]
                == asked.panes[before.panes.len() as int]);
        }
    }
}

/// A ledger of the same version that is saved after a reconciliation can be
/// loaded as well.
proof fn lemma_commit_can_be_loaded(
    before: World,
    middle: World,
    after: World,
    panes: Seq<PaneView>,
    state: StateView,
    next: StateView,
    write: TokenWriteView,
    failure: Option<BindingFault>,
)
    requires
        before.store.is_prefix_of(middle.store),
        saves_can_be_loaded(before, middle),
        reconciles(before, middle, panes, state),
        commit_run(middle, after, next, write, failure),
        next.state_version == state.state_version,
        well_formed(next.bindings),
    ensures
        saves_can_be_loaded(before, after),
        after.store.len() == before.store.len() + 3,
        after.store[before.store.len() as int] == middle.store[before.store.len() as int],
        after.store[before.store.len() as int + 1] == middle.store[before.store.len() as int + 1],
        after.store.last() is Save,
        after.store.last()->Save_0 == next,
{
    let first = before.store.len() as int;
    let stored = middle.store[first]->Load_0->Ok_0;
    law_reconciliation(stored, panes);
    lemma_saved_is_accepted(stored, next);
    assert(after.store == middle.store.push(StoreCall::Save(next, middle.saving(after))));
    assert(after.store[first] == middle.store[first]);
    assert forall|i: int|
        first <= i < after.store.len() && (#[trigger] after.store[i]) is Save implies {
        let loading = after.store[first]->Load_0;
        let saved = after.store[i]->Save_0;
        &&& first < i
        &&& after.store[first] is Load
        &&& loading is Ok
        &&& well_formed(saved.bindings)
        &&& saved.state_version == match loading->Ok_0 {
            Some(state) => state.state_version,
            None => 1,
        }
        &&& match loading->Ok_0 {
            Some(state) => forall|path: Seq<char>| #[trigger]
                stored_fault(state, path) is None ==> stored_fault(saved, path) is None,
            None => forall|path: Seq<char>| (#[trigger] stored_fault(saved, path)) is None,
        }
    } by {
        if i < middle.store.len() {
            assert(after.store[i] == middle.store[i]);
        }
    }
}

/// What a lookup saves can be loaded again.
pub proof fn law_lookup_saves_can_be_loaded(
    before: World,
    after: World,
    key: Seq<char>,
    result: Result<Seq<char>, BindingFault>,
)
    requires
        pane_for_key_run(before, after, key, result),
    ensures
        saves_can_be_loaded(before, after),
{
    if is_key(key) {
        let seen = choose|seen: Result<(Seq<PaneView>, StateView), BindingFault>|
            {
                &&& #[trigger] refresh_run(before, after, seen)
                &&& result == match seen {
                    Err(fault) => Err(fault),
                    Ok((_, state)) => lookup(state, key),
                }
            };
        lemma_refresh_run(before, after, seen);
    }
}

/// What a status report saves can be loaded again.
pub proof fn law_status_saves_can_be_loaded(
    before: World,
    after: World,
    result: Result<Seq<RowView>, BindingFault>,
)
    requires
        status_run(before, after, result),
    ensures
        saves_can_be_loaded(before, after),
{
    let seen = choose|seen: Result<(Seq<PaneView>, StateView), BindingFault>|
        {
            &&& #[trigger] refresh_run(before, after, seen)
            &&& result == match seen {
                Err(fault) => Err(fault),
                Ok((panes, state)) => Ok(in_key_order(paired(state.bindings, panes))),
            }
        };
    lemma_refresh_run(before, after, seen);
}

// ---------------------------------------------------------------------------
// Binding
// ---------------------------------------------------------------------------

/// Some entry is for the pane.
pub open spec fn has_entry(entries: Seq<BindingView>, pane_id: Seq<char>) -> bool {
    exists|i: int| 0 <= i < entries.len() && (#[trigger] entries[i]).pane_id == pane_id
}

/// Some entry is for the key.
pub open spec fn is_taken(entries: Seq<BindingView>, key: Seq<char>) -> bool {
    exists|i: int| 0 <= i < entries.len() && (#[trigger] entries[i]).key == key
}

/// The key is the first, in the order in which keys are given out, that no
/// entry is for.
pub open spec fn is_first_free(entries: Seq<BindingView>, key: Seq<char>) -> bool {
    exists|n: int|
        {
            &&& 0 <= n < 10
            &&& #[trigger] logical_keys()[n] == key
            &&& !is_taken(entries, key)
            &&& forall|earlier: int|
                0 <= earlier < n ==> is_taken(entries, #[trigger] logical_keys()[earlier])
        }
}

/// The key that a granted request gives: the requested one, or else the one
/// that the pane has, or else the first free one.
pub open spec fn is_due(
    entries: Seq<BindingView>,
    pane_id: Seq<char>,
    requested: Option<Seq<char>>,
    key: Seq<char>,
) -> bool {
    match requested {
        Some(requested) => key == requested,
        None => if has_entry(entries, pane_id) {
            entries.contains(BindingView { key, pane_id })
        } else {
            is_first_free(entries, key)
        },
    }
}

proof fn lemma_first_free(entries: Seq<BindingView>, start: int)
    requires
        0 <= start <= 10,
        forall|n: int| 0 <= n < start ==> is_taken(entries, #[trigger] logical_keys()[n]),
    ensures
        match free_key_from(entries, start) {
            Some(key) => is_first_free(entries, key),
            None => forall|n: int|
                0 <= n < 10 ==> is_taken(entries, #[trigger] logical_keys()[n]),
        },
    decreases 10 - start,
{
    law_logical_keys(key_ids()[0]);
    if start < 10 {
        if key_used(entries, key_ids()[start]) {
            assert(is_taken(entries, logical_keys()[start]));
            lemma_first_free(entries, start + 1);
        } else {
            assert(logical_keys()[start] == key_ids()[start]);
            assert(is_first_free(entries, logical_keys()[start]));
        }
    }
}

/// What a request to bind is answered on a well-formed ledger: a key is granted
/// or refused by what the entries are, and the next ledger has the new entry in
/// place of any other of the pane.
pub proof fn law_bind_decision(
    entries: Seq<BindingView>,
    pane_id: Seq<char>,
    requested: Option<Seq<char>>,
)
    requires
        well_formed(entries),
        pane_id.len() > 0,
    ensures
        match bind_outcome(entries, pane_id, requested) {
            Ok(plan) => {
                &&& is_logical_key(plan.key)
                &&& is_due(entries, pane_id, requested, plan.key)
                &&& plan.bindings is None <==> entries.contains(
                    BindingView { key: plan.key, pane_id },
                )
                &&& plan.bindings is Some ==> {
                    let next = plan.bindings->0;
                    &&& !is_taken(entries, plan.key)
                    &&& well_formed(next)
                    &&& forall|entry: BindingView| #[trigger]
                        next.contains(entry) <==> entry == (BindingView { key: plan.key, pane_id })
                            || entries.contains(entry) && entry.pane_id != pane_id
                }
            },
            Err(BindingFault::UnknownKey) => requested is Some && !is_logical_key(requested->0),
            Err(BindingFault::KeyTaken { key, owner }) => {
                &&& requested == Some(key)
                &&& owner != pane_id
                &&& entries.contains(BindingView { key, pane_id: owner })
            },
            Err(BindingFault::NoFreeKey) => {
                &&& requested is None
                &&& !has_entry(entries, pane_id)
                &&& forall|n: int|
                    0 <= n < 10 ==> is_taken(entries, #[trigger] logical_keys()[n])
            },
            Err(_) => false,
        },
{
    law_ledger_accepted_iff_well_formed(entries);
    lemma_no_fault_iff_valid(entries);
    lemma_bound_key(entries, pane_id);
    lemma_first_free(entries, 0);
    if let Some(key) = requested {
        law_logical_keys(key);
    }
    if let Some(key) = bound_key(entries, pane_id) {
        let entry = BindingView { key, pane_id };
        let i = choose|i: int| 0 <= i < entries.len() && entries[i] == entry;
        assert(entries[i].pane_id == pane_id);
        law_one_key_one_pane(entries, key, pane_id);
    }
    match bind_outcome(entries, pane_id, requested) {
        Ok(plan) => {
            law_bind(entries, pane_id, requested, pane_id);
            law_logical_keys(plan.key);
            lemma_key_owner(entries, plan.key);
            law_one_key_one_pane(entries, plan.key, pane_id);
            if let Some(next) = plan.bindings {
                lemma_no_fault_iff_valid(next);
                law_ledger_accepted_iff_well_formed(next);
                let test = |binding: BindingView| binding.pane_id != pane_id;
                let kept = without_pane(entries, pane_id);
                let new = BindingView { key: plan.key, pane_id };
                lemma_filter(entries, test);
                assert(next == kept.push(new));
                assert forall|entry: BindingView| #[trigger]
                    next.contains(entry) <==> entry == new || entries.contains(entry)
                        && entry.pane_id != pane_id by {
                    if next.contains(entry) {
                        let i = choose|i: int| 0 <= i < next.len() && next[i] == entry;
                        if i < kept.len() {
                            assert(kept[i] == entry);
                            assert(kept.contains(entry));
                        }
                    }
                    if entry == new {
                        assert(next[next.len() - 1] == entry);
                    } else if entries.contains(entry) && entry.pane_id != pane_id {
                        assert(kept.contains(entry));
                        let i = choose|i: int| 0 <= i < kept.len() && kept[i] == entry;
                        assert(next[i] == entry);
                    }
                }
            }
        },
        Err(fault) => {
            let chosen = chosen_key(entries, pane_id, requested);
            if let Ok(key) = chosen {
                lemma_key_owner(entries, key);
                if requested is None {
                    if let Some(free) = free_key(entries) {
                        let owner = key_owner(entries, free);
                        if owner is Some {
                            let entry = BindingView { key: free, pane_id: owner->0 };
                            let i = choose|i: int| 0 <= i < entries.len() && entries[i] == entry;
                            assert(entries[i].key == free);
                        }
                    }
                }
            }
        },
    }
}

/// A request to bind a pane. A pane that is not listed is refused before the
/// ledger is looked at. Otherwise the ledger is reconciled with the listing,
/// and decides: where the key is granted and the pane does not have it yet, the
/// next ledger is saved and the pane's token is made to show the key.
pub proof fn law_bind_request(
    before: World,
    after: World,
    pane_id: Seq<char>,
    requested: Option<Seq<char>>,
    result: Result<BindResultView, BindingFault>,
)
    requires
        bind_run(before, after, pane_id, requested, result),
        pane_id.len() > 0,
    ensures
        saves_can_be_loaded(before, after),
        ({
            let first = before.store.len() as int;
            let listing = after.panes[before.panes.len() as int]->Panes_0;
            let entries = after.store[first + 1]->Save_0.bindings;
            &&& before.panes.len() < after.panes.len()
            &&& after.panes[before.panes.len() as int] is Panes
            &&& listing is Ok && !listed(listing->Ok_0, pane_id) ==> result == Err::<
                BindResultView,
                BindingFault,
            >(BindingFault::PaneGone) && after.store == before.store
            &&& result is Ok ==> {
                let granted = result->Ok_0;
                let entry = BindingView { key: granted.key, pane_id };
                &&& listing is Ok
                &&& listed(listing->Ok_0, pane_id)
                &&& granted.pane_id == pane_id
                &&& is_logical_key(granted.key)
                &&& is_due(entries, pane_id, requested, granted.key)
                &&& granted.changed <==> !entries.contains(entry)
                &&& if granted.changed {
                    let next = after.store.last()->Save_0.bindings;
                    &&& after.store.len() == first + 3
                    &&& after.store.last() is Save
                    &&& after.store.last()->Save_1 is Ok
                    &&& forall|other: BindingView| #[trigger]
                        next.contains(other) <==> other == entry || entries.contains(other)
                            && other.pane_id != pane_id
                    &&& after.panes.last() is WriteFkey
                    &&& after.panes.last()->WriteFkey_0 == (TokenWriteView {
                        pane_id,
                        key: Some(granted.key),
                    })
                    &&& after.panes.last()->WriteFkey_1 is Ok
                } else {
                    after.store.len() == first + 2
                }
            }
            &&& match result {
                Err(BindingFault::KeyTaken { key, owner }) => {
                    &&& requested == Some(key)
                    &&& owner != pane_id
                    &&& entries.contains(BindingView { key, pane_id: owner })
                    &&& after.store.len() == first + 2
                },
                Err(BindingFault::NoFreeKey) => {
                    &&& requested is None
                    &&& !has_entry(entries, pane_id)
                    &&& forall|n: int|
                        0 <= n < 10 ==> is_taken(entries, #[trigger] logical_keys()[n])
                    &&& after.store.len() == first + 2
                },
                _ => true,
            }
        }),
{
    let (middle, state) = choose|middle: World, state: Result<StateView, BindingFault>|
        {
            &&& #[trigger] guarded_run(before, middle, pane_id, state)
            &&& match state {
                Err(fault) => after == middle && result == Err::<BindResultView, BindingFault>(
                    fault,
                ),
                Ok(state) => bind_step(middle, after, state, pane_id, requested, result),
            }
        };
    let first = before.store.len() as int;
    lemma_guarded_run(before, middle, pane_id, state);
    lemma_guarded_listing(before, middle, pane_id, state);
    match state {
        Err(fault) => {
            lemma_guarded_refusal(before, middle, pane_id, fault);
        },
        Ok(state) => {
            let panes = middle.panes[before.panes.len() as int]->Panes_0->Ok_0;
            let entries = state.bindings;
            law_reconciliation(middle.store[first]->Load_0->Ok_0, panes);
            law_bind_decision(entries, pane_id, requested);
            if let Ok(plan) = bind_outcome(entries, pane_id, requested) {
                if let Some(bindings) = plan.bindings {
                    let next = StateView { state_version: state.state_version, bindings };
                    let write = TokenWriteView { pane_id, key: Some(plan.key) };
                    let failure: Option<BindingFault> = match result {
                        Ok(_) => None,
                        Err(fault) => Some(fault),
                    };
                    lemma_commit_can_be_loaded(
                        before,
                        middle,
                        after,
                        panes,
                        state,
                        next,
                        write,
                        failure,
                    );
                    let saved = middle.stored(StoreCall::Save(next, middle.saving(after)));
                    assert(after.panes.len() >= middle.panes.len());
                    assert(after.panes[before.panes.len() as int]
                        == middle.panes[before.panes.len() as int]);
                }
            }
        },
    }
}

/// A guarded request lists the panes first.
proof fn lemma_guarded_listing(
    before: World,
    after: World,
    pane_id: Seq<char>,
    result: Result<StateView, BindingFault>,
)
    requires
        guarded_run(before, after, pane_id, result),
    ensures
        before.panes.len() < after.panes.len(),
        after.panes[before.panes.len() as int] is Panes,
        ({
            let listing = after.panes[before.panes.len() as int]->Panes_0;
            listing is Ok && !listed(listing->Ok_0, pane_id) ==> result == Err::<
                StateView,
                BindingFault,
            >(BindingFault::PaneGone) && after.store == before.store
        }),
{
    let listing = before.listing(after);
    let asked = before.asked(DirectoryCall::Panes(listing));
    if let Ok(panes) = listing {
        if has_pane(panes, pane_id) {
            lemma_reconcile_extends(asked, after, panes, result);
            assert(after.panes[before.panes.len() as int]
                == asked.panes[before.panes.len() as int]);
        }
    }
}

/// A guarded request is refused for what the listing or the ledger is, and not
/// for which keys are taken.
proof fn lemma_guarded_refusal(
    before: World,
    after: World,
    pane_id: Seq<char>,
    fault: BindingFault,
)
    requires
        guarded_run(before, after, pane_id, Err(fault)),
    ensures
        !(fault is KeyTaken),
        !(fault is NoFreeKey),
{
    let listing = before.listing(after);
    let asked = before.asked(DirectoryCall::Panes(listing));
    if let Ok(panes) = listing {
        if has_pane(panes, pane_id) {
            if let Ok(stored) = asked.loading(after) {
                law_ledger_accepted_iff_well_formed(starting_state(stored, panes).bindings);
            }
        }
    }
}

// ---------------------------------------------------------------------------
// Status
// ---------------------------------------------------------------------------

/// A pane is the first of the panes with the identifier.
pub open spec fn is_first_listed(
    panes: Seq<PaneView>,
    pane_id: Seq<char>,
    pane: PaneView,
) -> bool {
    exists|k: int|
        {
            &&& 0 <= k < panes.len()
            &&& #[trigger] panes[k] == pane
            &&& pane.pane_id == pane_id
            &&& forall|earlier: int|
                0 <= earlier < k ==> (#[trigger] panes[earlier]).pane_id != pane_id
        }
}

proof fn lemma_pane_named(panes: Seq<PaneView>, pane_id: Seq<char>)
    ensures
        match pane_named(panes, pane_id) {
            Some(pane) => is_first_listed(panes, pane_id, pane),
            None => !listed(panes, pane_id),
        },
    decreases panes.len(),
{
    if panes.len() > 0 {
        if panes[0].pane_id != pane_id {
            let rest = panes.drop_first();
            lemma_pane_named(rest, pane_id);
            if let Some(pane) = pane_named(rest, pane_id) {
                let k = choose|k: int|
                    {
                        &&& 0 <= k < rest.len()
                        &&& #[trigger] rest[k] == pane
                        &&& pane.pane_id == pane_id
                        &&& forall|earlier: int|
                            0 <= earlier < k ==> (#[trigger] rest[earlier]).pane_id != pane_id
                    };
                assert(panes[k + 1] == pane);
                assert forall|earlier: int| 0 <= earlier < k + 1 implies (
                #[trigger] panes[earlier]).pane_id != pane_id by {
                    if earlier > 0 {
                        assert(panes[earlier] == rest[earlier - 1]);
                    }
                }
            } else if listed(panes, pane_id) {
                let j = choose|j: int| 0 <= j < panes.len() && (
                #[trigger] panes[j]).pane_id == pane_id;
                assert(rest[j - 1].pane_id == pane_id);
            }
        } else {
            assert(panes[0] == pane_named(panes, pane_id)->0);
        }
    }
}

/// Every row pairs an entry of the ledger with the listed pane that it names,
/// the first where several have the identifier. An entry has a row exactly when
/// its pane is listed, and the rows stand in the order of their entries.
pub proof fn law_pairing(entries: Seq<BindingView>, panes: Seq<PaneView>)
    ensures
        forall|r: int|
            0 <= r < paired(entries, panes).len() ==> {
                let row = #[trigger] paired(entries, panes)[r];
                &&& entries.contains(row.binding)
                &&& row.pane.pane_id == row.binding.pane_id
                &&& panes.contains(row.pane)
                &&& is_first_listed(panes, row.binding.pane_id, row.pane)
            },
        forall|e: int|
            0 <= e < entries.len() && listed(panes, (#[trigger] entries[e]).pane_id) ==> exists|
                r: int,
            |
                0 <= r < paired(entries, panes).len() && (#[trigger] paired(
                    entries,
                    panes,
                )[r]).binding == entries[e],
        forall|r: int, q: int|
            0 <= r < q < paired(entries, panes).len() ==> exists|e: int, f: int|
                0 <= e < f < entries.len() && #[trigger] entries[e] == (#[trigger] paired(
                    entries,
                    panes,
                )[r]).binding && #[trigger] entries[f] == (#[trigger] paired(
                    entries,
                    panes,
                )[q]).binding,
    decreases entries.len(),
{
    if entries.len() > 0 {
        let front = entries.drop_last();
        let last = entries.len() - 1;
        let earlier = paired(front, panes);
        let rows = paired(entries, panes);
        law_pairing(front, panes);
        lemma_pane_named(panes, entries[last].pane_id);
        assert forall|r: int| 0 <= r < rows.len() implies {
            let row = #[trigger] rows[r];
            &&& entries.contains(row.binding)
            &&& row.pane.pane_id == row.binding.pane_id
            &&& panes.contains(row.pane)
            &&& is_first_listed(panes, row.binding.pane_id, row.pane)
        } by {
            if r < earlier.len() {
                assert(rows[r] == earlier[r]);
                let e = choose|e: int| 0 <= e < front.len() && front[e] == earlier[r].binding;
                assert(entries[e] == rows[r].binding);
            } else {
                assert(entries[last] == rows[r].binding);
            }
        }
        assert forall|e: int|
            0 <= e < entries.len() && listed(
                panes,
                (#[trigger] entries[e]).pane_id,
            ) implies exists|r: int|
            0 <= r < rows.len() && (#[trigger] rows[r]).binding == entries[e] by {
            if e < last {
                assert(front[e] == entries[e]);
                let r = choose|r: int|
                    0 <= r < earlier.len() && (#[trigger] earlier[r]).binding == front[e];
                assert(rows[r] == earlier[r]);
            } else {
                assert(rows[rows.len() - 1].binding == entries[e]);
            }
        }
        assert forall|r: int, q: int| 0 <= r < q < rows.len() implies exists|e: int, f: int|
            0 <= e < f < entries.len() && #[trigger] entries[e] == (#[trigger] rows[r]).binding
                && #[trigger] entries[f] == (#[trigger] rows[q]).binding by {
            assert(rows[r] == earlier[r]);
            if q < earlier.len() {
                assert(rows[q] == earlier[q]);
                let (e, f) = choose|e: int, f: int|
                    0 <= e < f < front.len() && #[trigger] front[e] == earlier[r].binding
                        && #[trigger] front[f] == earlier[q].binding;
                assert(entries[e] == rows[r].binding && entries[f] == rows[q].binding);
            } else {
                let e = choose|e: int| 0 <= e < front.len() && front[e] == earlier[r].binding;
                assert(entries[e] == rows[r].binding && entries[last] == rows[q].binding);
            }
        }
    }
}

/// A status report shows the ledger that was just saved, in key order: every
/// row pairs an entry with the listed pane that it names, every entry of a
/// listed pane has one row, and there are no others.
pub proof fn law_status_report(before: World, after: World, rows: Seq<RowView>)
    requires
        status_run(before, after, Ok(rows)),
    ensures
        before.panes.len() < after.panes.len(),
        after.panes[before.panes.len() as int] is Panes,
        after.panes[before.panes.len() as int]->Panes_0 is Ok,
        after.store.len() == before.store.len() + 2,
        after.store.last() is Save,
        ({
            let panes = after.panes[before.panes.len() as int]->Panes_0->Ok_0;
            let entries = after.store.last()->Save_0.bindings;
            &&& forall|r: int|
                0 <= r < rows.len() ==> {
                    let row = #[trigger] rows[r];
                    &&& entries.contains(row.binding)
                    &&& row.pane.pane_id == row.binding.pane_id
                    &&& panes.contains(row.pane)
                    &&& is_first_listed(panes, row.binding.pane_id, row.pane)
                }
            &&& forall|e: int|
                0 <= e < entries.len() ==> exists|r: int|
                    0 <= r < rows.len() && (#[trigger] rows[r]).binding == #[trigger] entries[e]
            &&& rows.len() == entries.len()
        }),
        forall|r: int, q: int|
            0 <= r < q < rows.len() ==> !text_before(
                (#[trigger] rows[q]).binding.key,
                (#[trigger] rows[r]).binding.key,
            ),
{
    broadcast use vstd::seq_lib::group_to_multiset_ensures;

    let seen = choose|seen: Result<(Seq<PaneView>, StateView), BindingFault>|
        {
            &&& #[trigger] refresh_run(before, after, seen)
            &&& Ok::<Seq<RowView>, BindingFault>(rows) == match seen {
                Err(fault) => Err(fault),
                Ok((panes, state)) => Ok(in_key_order(paired(state.bindings, panes))),
            }
        };
    lemma_refresh_run(before, after, seen);
    let (panes, state) = seen->Ok_0;
    let entries = state.bindings;
    let plain = paired(entries, panes);
    law_reconciliation(after.store[before.store.len() as int]->Load_0->Ok_0, panes);
    law_pairing(entries, panes);
    law_key_order(plain);
    assert forall|r: int| 0 <= r < rows.len() implies {
        let row = #[trigger] rows[r];
        &&& entries.contains(row.binding)
        &&& row.pane.pane_id == row.binding.pane_id
        &&& panes.contains(row.pane)
        &&& is_first_listed(panes, row.binding.pane_id, row.pane)
    } by {
        assert(rows.to_multiset().contains(rows[r]));
        assert(plain.to_multiset().contains(rows[r]));
        assert(plain.contains(rows[r]));
        let q = choose|q: int| 0 <= q < plain.len() && plain[q] == rows[r];
        assert(plain[q] == rows[r]);
    }
    assert forall|e: int| 0 <= e < entries.len() implies exists|r: int|
        0 <= r < rows.len() && (#[trigger] rows[r]).binding == #[trigger] entries[e] by {
        assert(entries.contains(entries[e]));
        assert(listed(panes, entries[e].pane_id));
        let q = choose|q: int| 0 <= q < plain.len() && (#[trigger] plain[q]).binding == entries[e];
        assert(plain.to_multiset().contains(plain[q]));
        assert(rows.to_multiset().contains(plain[q]));
        assert(rows.contains(plain[q]));
        let r = choose|r: int| 0 <= r < rows.len() && rows[r] == plain[q];
        assert(rows[r].binding == entries[e]);
    }
    lemma_all_paired(entries, panes);
    assert(rows.to_multiset().len() == rows.len() && plain.to_multiset().len() == plain.len());
}

/// Where every entry's pane is listed there are as many rows as entries.
proof fn lemma_all_paired(entries: Seq<BindingView>, panes: Seq<PaneView>)
    requires
        forall|e: int|
            0 <= e < entries.len() ==> listed(panes, (#[trigger] entries[e]).pane_id),
    ensures
        paired(entries, panes).len() == entries.len(),
    decreases entries.len(),
{
    if entries.len() > 0 {
        let front = entries.drop_last();
        assert forall|e: int| 0 <= e < front.len() implies listed(
            panes,
            (#[trigger] front[e]).pane_id,
        ) by {
            assert(front[e] == entries[e]);
        }
        lemma_all_paired(front, panes);
        assert(listed(panes, entries[entries.len() - 1].pane_id));
        lemma_pane_named(panes, entries.last().pane_id);
    }
}

// ---------------------------------------------------------------------------
// Releasing
// ---------------------------------------------------------------------------

/// What releasing a pane comes to on a well-formed ledger: a pane without an
/// entry changes nothing; otherwise its entry goes, and no other.
pub proof fn law_release_decision(entries: Seq<BindingView>, pane_id: Seq<char>)
    requires
        well_formed(entries),
    ensures
        match release_outcome(entries, pane_id) {
            None => !has_entry(entries, pane_id),
            Some(next) => {
                &&& has_entry(entries, pane_id)
                &&& well_formed(next)
                &&& forall|entry: BindingView| #[trigger]
                    next.contains(entry) <==> entries.contains(entry) && entry.pane_id != pane_id
            },
        },
{
    law_ledger_accepted_iff_well_formed(entries);
    lemma_no_fault_iff_valid(entries);
    if let Some(next) = release_outcome(entries, pane_id) {
        law_release(entries, pane_id, pane_id);
        lemma_filter(entries, |binding: BindingView| binding.pane_id != pane_id);
        lemma_no_fault_iff_valid(next);
        law_ledger_accepted_iff_well_formed(next);
    }
}

/// A ledger without the entry of one pane was saved, and the token of that pane
/// was cleared.
pub open spec fn releases(
    before: World,
    after: World,
    pane_id: Seq<char>,
) -> bool {
    let first = before.store.len() as int;
    let entries = after.store[first + 1]->Save_0.bindings;
    let next = after.store.last()->Save_0.bindings;
    &&& after.store.len() == first + 3
    &&& after.store.last() is Save
    &&& after.store.last()->Save_1 is Ok
    &&& forall|entry: BindingView| #[trigger]
        next.contains(entry) <==> entries.contains(entry) && entry.pane_id != pane_id
    &&& after.panes.last() is WriteFkey
    &&& after.panes.last()->WriteFkey_0 == (TokenWriteView { pane_id, key: None })
    &&& after.panes.last()->WriteFkey_1 is Ok
}

proof fn lemma_release_step(
    before: World,
    middle: World,
    after: World,
    panes: Seq<PaneView>,
    state: StateView,
    pane_id: Seq<char>,
    result: Result<bool, BindingFault>,
)
    requires
        before.store.is_prefix_of(middle.store),
        saves_can_be_loaded(before, middle),
        reconciles(before, middle, panes, state),
        before.panes.len() < middle.panes.len(),
        release_step(middle, after, state, pane_id, result),
    ensures
        saves_can_be_loaded(before, after),
        after.panes.len() >= middle.panes.len(),
        after.panes[before.panes.len() as int] == middle.panes[before.panes.len() as int],
        after.store.len() > before.store.len() + 1,
        after.store[before.store.len() as int + 1] == middle.store[before.store.len() as int + 1],
        match result {
            Ok(true) => has_entry(state.bindings, pane_id) && releases(before, after, pane_id),
            Ok(false) => !has_entry(state.bindings, pane_id) && after == middle,
            Err(_) => has_entry(state.bindings, pane_id),
        },
{
    let first = before.store.len() as int;
    law_reconciliation(middle.store[first]->Load_0->Ok_0, panes);
    law_release_decision(state.bindings, pane_id);
    if let Some(bindings) = release_outcome(state.bindings, pane_id) {
        let next = StateView { state_version: state.state_version, bindings };
        let write = TokenWriteView { pane_id, key: None };
        let failure: Option<BindingFault> = match result {
            Ok(_) => None,
            Err(fault) => Some(fault),
        };
        lemma_commit_can_be_loaded(before, middle, after, panes, state, next, write, failure);
    }
}

/// A request to release a pane. A pane that is not listed is refused before the
/// ledger is looked at. Otherwise the ledger is reconciled with the listing:
/// `true` says that the pane had an entry, which is gone from the ledger and
/// from the pane's token; `false` says that it had none, and nothing else is
/// saved.
pub proof fn law_release_request(
    before: World,
    after: World,
    pane_id: Seq<char>,
    result: Result<bool, BindingFault>,
)
    requires
        release_run(before, after, pane_id, result),
    ensures
        saves_can_be_loaded(before, after),
        before.panes.len() < after.panes.len(),
        after.panes[before.panes.len() as int] is Panes,
        ({
            let first = before.store.len() as int;
            let listing = after.panes[before.panes.len() as int]->Panes_0;
            let entries = after.store[first + 1]->Save_0.bindings;
            &&& listing is Ok && !listed(listing->Ok_0, pane_id) ==> result == Err::<
                bool,
                BindingFault,
            >(BindingFault::PaneGone) && after.store == before.store
            &&& match result {
                Ok(true) => has_entry(entries, pane_id) && releases(before, after, pane_id),
                Ok(false) => !has_entry(entries, pane_id) && after.store.len() == first + 2,
                Err(_) => true,
            }
        }),
{
    let (middle, state) = choose|middle: World, state: Result<StateView, BindingFault>|
        {
            &&& #[trigger] guarded_run(before, middle, pane_id, state)
            &&& match state {
                Err(fault) => after == middle && result == Err::<bool, BindingFault>(fault),
                Ok(state) => release_step(middle, after, state, pane_id, result),
            }
        };
    lemma_guarded_run(before, middle, pane_id, state);
    lemma_guarded_listing(before, middle, pane_id, state);
    if let Ok(state) = state {
        let panes = middle.panes[before.panes.len() as int]->Panes_0->Ok_0;
        lemma_release_step(before, middle, after, panes, state, pane_id, result);
    }
}

/// A request to release a key. A text that is no logical key is refused before
/// anything is asked. Otherwise the ledger is reconciled with the listing: the
/// pane that is handed back had the key, and its entry is gone; nothing is
/// handed back exactly when no entry is for the key.
pub proof fn law_release_key_request(
    before: World,
    after: World,
    key: Seq<char>,
    result: Result<Option<Seq<char>>, BindingFault>,
)
    requires
        release_key_run(before, after, key, result),
    ensures
        saves_can_be_loaded(before, after),
        !is_logical_key(key) ==> after == before && result == Err::<
            Option<Seq<char>>,
            BindingFault,
        >(BindingFault::UnknownKey),
        ({
            let first = before.store.len() as int;
            let entries = after.store[first + 1]->Save_0.bindings;
            match result {
                Ok(Some(pane_id)) => {
                    &&& entries.contains(BindingView { key, pane_id })
                    &&& releases(before, after, pane_id)
                },
                Ok(None) => !is_taken(entries, key) && after.store.len() == first + 2,
                Err(_) => true,
            }
        }),
{
    law_logical_keys(key);
    if is_key(key) {
        let (middle, seen) = choose|
            middle: World,
            seen: Result<(Seq<PaneView>, StateView), BindingFault>,
        |
            {
                &&& #[trigger] refresh_run(before, middle, seen)
                &&& match seen {
                    Err(fault) => after == middle && result == Err::<
                        Option<Seq<char>>,
                        BindingFault,
                    >(fault),
                    Ok((_, state)) => release_key_step(middle, after, state, key, result),
                }
            };
        lemma_refresh_run(before, middle, seen);
        if let Ok((panes, state)) = seen {
            lemma_key_owner(state.bindings, key);
            if let Some(owner) = key_owner(state.bindings, key) {
                let released: Result<bool, BindingFault> = match result {
                    Ok(_) => Ok(true),
                    Err(fault) => Err(fault),
                };
                lemma_release_step(before, middle, after, panes, state, owner, released);
            }
        }
    }
}

// ---------------------------------------------------------------------------
// Presentation
// ---------------------------------------------------------------------------

/// How a pane is presented: under its identifier, with its status and focus,
/// the first title that it has, and the key that the ledger has for it.
pub open spec fn is_presented(
    row: PresentationView,
    pane: PaneView,
    entries: Seq<BindingView>,
) -> bool {
    &&& row.pane_id == pane.pane_id
    &&& row.agent_status == pane.agent_status
    &&& row.focused == pane.focused
    &&& pane.label is Some ==> row.title == pane.label->0
    &&& pane.label is None && pane.terminal_title_stripped is Some ==> row.title
        == pane.terminal_title_stripped->0
    &&& pane.label is None && pane.terminal_title_stripped is None && pane.terminal_title is Some
        ==> row.title == pane.terminal_title->0
    &&& pane.label is None && pane.terminal_title_stripped is None && pane.terminal_title is None
        ==> row.title == pane.pane_id
    &&& if has_entry(entries, pane.pane_id) {
        exists|e: int|
            {
                &&& 0 <= e < entries.len()
                &&& (#[trigger] entries[e]).pane_id == pane.pane_id
                &&& row.binding.len() == entries[e].key.len()
                &&& row.binding[0] == 'F'
                &&& forall|c: int|
                    1 <= c < row.binding.len() ==> #[trigger] row.binding[c] == entries[e].key[c]
            }
    } else {
        row.binding == "unbound"@
    }
}

/// The live panes are presented one for one, in the order of the listing, under
/// the ledger as it was just loaded. Nothing is written anywhere.
pub proof fn law_presentation(before: World, after: World, rows: Seq<PresentationView>)
    requires
        presentation_run(before, after, Ok(rows)),
    ensures
        after.panes.len() == before.panes.len() + 1,
        after.store.len() == before.store.len() + 1,
        after.panes.last() is Panes,
        after.panes.last()->Panes_0 is Ok,
        after.store.last() is Load,
        after.store.last()->Load_0 is Ok,
        ({
            let panes = after.panes.last()->Panes_0->Ok_0;
            let entries = match after.store.last()->Load_0->Ok_0 {
                Some(state) => state.bindings,
                None => Seq::empty(),
            };
            &&& rows.len() == panes.len()
            &&& forall|i: int|
                0 <= i < panes.len() ==> is_presented(#[trigger] rows[i], panes[i], entries)
        }),
{
    let panes = after.panes.last()->Panes_0->Ok_0;
    let stored = after.store.last()->Load_0->Ok_0;
    let entries = ledger_or_empty(stored);
    assert(presentation(stored, panes) == Ok::<Seq<PresentationView>, BindingFault>(rows));
    law_ledger_accepted_iff_well_formed(entries);
    assert forall|i: int| 0 <= i < panes.len() implies is_presented(
        #[trigger] rows[i],
        panes[i],
        entries,
    ) by {
        let pane = panes[i];
        assert(rows[i] == presented(pane, entries));
        lemma_bound_key(entries, pane.pane_id);
        if let Some(key) = bound_key(entries, pane.pane_id) {
            let entry = BindingView { key, pane_id: pane.pane_id };
            let e = choose|e: int| 0 <= e < entries.len() && entries[e] == entry;
            assert(entries[e].pane_id == pane.pane_id);
            law_logical_keys(key);
            lemma_key_not_empty(key);
            reveal_strlit("F");
            assert(rows[i].binding == "F"@ + key.skip(1));
        }
    }
}

// ---------------------------------------------------------------------------
// The first ledger that a request saves
// ---------------------------------------------------------------------------

/// A bind request that is granted without a change has saved the reconciled
/// ledger.
pub proof fn lemma_bind_saves(
    before: World,
    after: World,
    pane_id: Seq<char>,
    requested: Option<Seq<char>>,
    result: Result<BindResultView, BindingFault>,
)
    requires
        bind_run(before, after, pane_id, requested, result),
        pane_id.len() > 0,
        result is Ok,
        !result->Ok_0.changed,
    ensures
        after.store.len() == before.store.len() + 2,
        after.store.last() is Save,
        after.store.last()->Save_1 is Ok,
{
    let (middle, state) = choose|middle: World, state: Result<StateView, BindingFault>|
        {
            &&& #[trigger] guarded_run(before, middle, pane_id, state)
            &&& match state {
                Err(fault) => after == middle && result == Err::<BindResultView, BindingFault>(
                    fault,
                ),
                Ok(state) => bind_step(middle, after, state, pane_id, requested, result),
            }
        };
    lemma_guarded_run(before, middle, pane_id, state);
}

/// A request to release a key that is granted has saved a well-formed
/// reconciled ledger.
pub proof fn lemma_release_key_saves(
    before: World,
    after: World,
    key: Seq<char>,
    result: Result<Option<Seq<char>>, BindingFault>,
)
    requires
        release_key_run(before, after, key, result),
        result is Ok,
    ensures
        after.store.len() > before.store.len() + 1,
        after.store[before.store.len() as int + 1] is Save,
        well_formed(after.store[before.store.len() as int + 1]->Save_0.bindings),
        result->Ok_0 is None ==> after.store.len() == before.store.len() + 2,
{
    let (middle, seen) = choose|
        middle: World,
        seen: Result<(Seq<PaneView>, StateView), BindingFault>,
    |
        {
            &&& #[trigger] refresh_run(before, middle, seen)
            &&& match seen {
                Err(fault) => after == middle && result == Err::<
                    Option<Seq<char>>,
                    BindingFault,
                >(fault),
                Ok((_, state)) => release_key_step(middle, after, state, key, result),
            }
        };
    lemma_refresh_run(before, middle, seen);
    let (panes, state) = seen->Ok_0;
    law_reconciliation(middle.store[before.store.len() as int]->Load_0->Ok_0, panes);
    if let Some(owner) = key_owner(state.bindings, key) {
        lemma_release_step(before, middle, after, panes, state, owner, Ok(true));
    }
}

} // verus!
