//! What the binding operations keep, undo and leave alone.

use vstd::prelude::*;

use crate::binding::{
    free_key, free_key_from, has_pane, is_key, key_ids, key_used, lemma_no_fault_iff_valid,
    valid_ledger, BindingFault, BindingView, PaneView, StateView,
};
use crate::ledger::{
    bind_outcome, bound_key, key_owner, lemma_bound_key, lemma_key_owner, pane_bound, reconciled,
    release_outcome, starting_state, token_bindings, token_change, token_changes, without_pane,
    BindPlanView, TokenWriteView,
};
use crate::service::{
    bind_run, commit_run, guarded_run, pane_for_key_run, reconcile_run, refresh_run,
    release_key_run, release_run, status_run, BindResultView, DirectoryCall, World,
};
use crate::status::RowView;

verus! {

/// In a valid ledger an entry, the pane of its key and the key of its pane are
/// the same thing said three ways.
pub proof fn law_one_key_one_pane(
    bindings: Seq<BindingView>,
    key: Seq<char>,
    pane_id: Seq<char>,
)
    requires
        valid_ledger(bindings),
    ensures
        bindings.contains(BindingView { key, pane_id }) <==> key_owner(bindings, key) == Some(
            pane_id,
        ),
        bindings.contains(BindingView { key, pane_id }) <==> bound_key(bindings, pane_id) == Some(
            key,
        ),
{
    lemma_key_owner(bindings, key);
    lemma_bound_key(bindings, pane_id);
    let entry = BindingView { key, pane_id };
    if bindings.contains(entry) {
        let i = choose|i: int| 0 <= i < bindings.len() && bindings[i] == entry;
        assert(bindings[i].key == key);
        assert(bindings[i].pane_id == pane_id);
        let owner = BindingView { key, pane_id: key_owner(bindings, key)->0 };
        let j = choose|j: int| 0 <= j < bindings.len() && bindings[j] == owner;
        if i < j {
            assert(bindings[i].key != bindings[j].key);
        } else if j < i {
            assert(bindings[j].key != bindings[i].key);
        }
        let held = BindingView { key: bound_key(bindings, pane_id)->0, pane_id };
        let k = choose|k: int| 0 <= k < bindings.len() && bindings[k] == held;
        if i < k {
            assert(bindings[i].pane_id != bindings[k].pane_id);
        } else if k < i {
            assert(bindings[k].pane_id != bindings[i].pane_id);
        }
    }
}

/// The first free key is a logical key that nothing uses, and there is none
/// exactly when all ten are used.
pub proof fn law_free_key(bindings: Seq<BindingView>)
    ensures
        match free_key(bindings) {
            Some(key) => is_key(key) && !key_used(bindings, key),
            None => forall|i: int| 0 <= i < 10 ==> key_used(bindings, #[trigger] key_ids()[i]),
        },
{
    lemma_free_key_from(bindings, 0);
}

proof fn lemma_free_key_from(bindings: Seq<BindingView>, start: int)
    requires
        0 <= start <= 10,
    ensures
        match free_key_from(bindings, start) {
            Some(key) => is_key(key) && !key_used(bindings, key),
            None => forall|i: int| start <= i < 10 ==> key_used(bindings, #[trigger] key_ids()[i]),
        },
    decreases 10 - start,
{
    if start < 10 {
        lemma_free_key_from(bindings, start + 1);
        assert(is_key(key_ids()[start]));
        if free_key_from(bindings, start) is None {
            assert forall|i: int| start <= i < 10 implies key_used(
                bindings,
                #[trigger] key_ids()[i],
            ) by {
                if i == start {
                    assert(key_used(bindings, key_ids()[start]));
                }
            }
        }
    }
}

/// What is left of a valid ledger is valid, and is what passes the test.
pub proof fn lemma_filter(bindings: Seq<BindingView>, test: spec_fn(BindingView) -> bool)
    requires
        valid_ledger(bindings),
    ensures
        valid_ledger(bindings.filter(test)),
        forall|entry: BindingView| #[trigger]
            bindings.filter(test).contains(entry) <==> bindings.contains(entry) && test(entry),
    decreases bindings.len(),
{
    reveal(Seq::filter);
    let kept = bindings.filter(test);
    if bindings.len() > 0 {
        let rest = bindings.drop_last();
        let last = bindings.last();
        assert(valid_ledger(rest)) by {
            assert forall|i: int| 0 <= i < rest.len() implies is_key((#[trigger] rest[i]).key)
                && rest[i].pane_id.len() > 0 by {
                assert(rest[i] == bindings[i]);
            }
            assert forall|i: int, j: int|
                #![trigger rest[i], rest[j]]
                0 <= i < j < rest.len() implies rest[i].key != rest[j].key && rest[i].pane_id
                != rest[j].pane_id by {
                assert(rest[i] == bindings[i] && rest[j] == bindings[j]);
            }
        }
        lemma_filter(rest, test);
        let inner = rest.filter(test);
        assert(kept == if test(last) { inner.push(last) } else { inner });
        assert(bindings =~= rest.push(last));
        assert forall|entry: BindingView| #[trigger]
            kept.contains(entry) <==> bindings.contains(entry) && test(entry) by {
            if kept.contains(entry) {
                let i = choose|i: int| 0 <= i < kept.len() && kept[i] == entry;
                if i < inner.len() {
                    assert(inner[i] == entry);
                    assert(inner.contains(entry));
                    let j = choose|j: int| 0 <= j < rest.len() && rest[j] == entry;
                    assert(bindings[j] == entry);
                } else {
                    assert(entry == last);
                    assert(bindings[bindings.len() - 1] == entry);
                }
            }
            if bindings.contains(entry) && test(entry) {
                let j = choose|j: int| 0 <= j < bindings.len() && bindings[j] == entry;
                if j < rest.len() {
                    assert(rest[j] == entry);
                    assert(inner.contains(entry));
                    let i = choose|i: int| 0 <= i < inner.len() && inner[i] == entry;
                    assert(kept[i] == entry);
                } else {
                    assert(kept[kept.len() - 1] == entry);
                }
            }
        }
        assert forall|i: int| 0 <= i < kept.len() implies is_key((#[trigger] kept[i]).key)
            && kept[i].pane_id.len() > 0 by {
            if i < inner.len() {
                assert(kept[i] == inner[i]);
            } else {
                assert(kept[i] == bindings[bindings.len() - 1]);
            }
        }
        assert forall|i: int, j: int|
            #![trigger kept[i], kept[j]]
            0 <= i < j < kept.len() implies kept[i].key != kept[j].key && kept[i].pane_id
            != kept[j].pane_id by {
            if j < inner.len() {
                assert(kept[i] == inner[i] && kept[j] == inner[j]);
            } else {
                assert(kept[i] == inner[i]);
                assert(inner.contains(inner[i]));
                let k = choose|k: int| 0 <= k < rest.len() && rest[k] == inner[i];
                assert(bindings[k] == inner[i]);
                assert(bindings[bindings.len() - 1] == kept[j]);
            }
        }
    }
}

/// Reconciling gives a valid ledger whose every pane is live, and drops no
/// entry of a live pane.
pub proof fn law_reconciled_ledger_is_valid_and_live(
    stored: Option<StateView>,
    panes: Seq<PaneView>,
)
    requires
        reconciled(stored, panes) is Ok,
    ensures
        valid_ledger(reconciled(stored, panes)->Ok_0.state.bindings),
        forall|entry: BindingView| #[trigger]
            reconciled(stored, panes)->Ok_0.state.bindings.contains(entry) <==> starting_state(
                stored,
                panes,
            ).bindings.contains(entry) && has_pane(panes, entry.pane_id),
{
    let start = starting_state(stored, panes).bindings;
    lemma_no_fault_iff_valid(start);
    lemma_filter(start, |binding: BindingView| has_pane(panes, binding.pane_id));
}

proof fn lemma_filter_all(bindings: Seq<BindingView>, test: spec_fn(BindingView) -> bool)
    requires
        forall|i: int| 0 <= i < bindings.len() ==> test(#[trigger] bindings[i]),
    ensures
        bindings.filter(test) == bindings,
    decreases bindings.len(),
{
    reveal(Seq::filter);
    if bindings.len() > 0 {
        let rest = bindings.drop_last();
        assert forall|i: int| 0 <= i < rest.len() implies test(#[trigger] rest[i]) by {
            assert(rest[i] == bindings[i]);
        }
        lemma_filter_all(rest, test);
        assert(test(bindings[bindings.len() - 1]));
        assert(rest.push(bindings.last()) =~= bindings);
    } else {
        assert(bindings.filter(test) =~= bindings);
    }
}

/// Reconciling a reconciled ledger with the same panes leaves it as it is.
pub proof fn law_reconcile_is_idempotent(stored: Option<StateView>, panes: Seq<PaneView>)
    requires
        reconciled(stored, panes) is Ok,
    ensures
        reconciled(Some(reconciled(stored, panes)->Ok_0.state), panes) is Ok,
        reconciled(Some(reconciled(stored, panes)->Ok_0.state), panes)->Ok_0.state == reconciled(
            stored,
            panes,
        )->Ok_0.state,
{
    let state = reconciled(stored, panes)->Ok_0.state;
    law_reconciled_ledger_is_valid_and_live(stored, panes);
    lemma_no_fault_iff_valid(state.bindings);
    let test = |binding: BindingView| has_pane(panes, binding.pane_id);
    assert forall|i: int| 0 <= i < state.bindings.len() implies test(
        #[trigger] state.bindings[i],
    ) by {
        assert(state.bindings.contains(state.bindings[i]));
    }
    lemma_filter_all(state.bindings, test);
}

/// A pane whose visible token shows `key`, or nothing.
pub open spec fn showing(pane: PaneView, key: Option<Seq<char>>) -> PaneView {
    PaneView {
        tokens: match key {
            Some(key) => pane.tokens.insert("fkey"@, key),
            None => pane.tokens.remove("fkey"@),
        },
        ..pane
    }
}

/// A pane after its token change, where it has one.
pub open spec fn after_change(
    bindings: Seq<BindingView>,
    pane: PaneView,
    imported: bool,
) -> PaneView {
    match token_change(bindings, pane, imported) {
        Some(write) => showing(pane, write.key),
        None => pane,
    }
}

/// Once the token changes of a reconciliation are made, every pane's token
/// shows exactly the key that the ledger binds it to.
pub proof fn law_tokens_mirror_the_ledger(
    stored: Option<StateView>,
    panes: Seq<PaneView>,
    index: int,
)
    requires
        reconciled(stored, panes) is Ok,
        0 <= index < panes.len(),
    ensures
        after_change(
            reconciled(stored, panes)->Ok_0.state.bindings,
            panes[index],
            stored is None,
        ).fkey() == bound_key(
            reconciled(stored, panes)->Ok_0.state.bindings,
            panes[index].pane_id,
        ),
{
    let bindings = reconciled(stored, panes)->Ok_0.state.bindings;
    let pane = panes[index];
    if stored is None && bound_key(bindings, pane.pane_id) is None && pane.fkey() is Some {
        let key = pane.fkey()->0;
        let entry = BindingView { key, pane_id: pane.pane_id };
        lemma_token_binding(panes, index);
        law_reconciled_ledger_is_valid_and_live(stored, panes);
        assert(has_pane(panes, entry.pane_id));
        assert(bindings.contains(entry));
        law_one_key_one_pane(bindings, key, pane.pane_id);
        assert(false);
    }
}

proof fn lemma_token_binding(panes: Seq<PaneView>, index: int)
    requires
        0 <= index < panes.len(),
        panes[index].fkey() is Some,
    ensures
        token_bindings(panes).contains(
            BindingView { key: panes[index].fkey()->0, pane_id: panes[index].pane_id },
        ),
    decreases panes.len(),
{
    let rest = panes.drop_last();
    let earlier = token_bindings(rest);
    let all = token_bindings(panes);
    let entry = BindingView { key: panes[index].fkey()->0, pane_id: panes[index].pane_id };
    if index < rest.len() {
        assert(rest[index] == panes[index]);
        lemma_token_binding(rest, index);
        let i = choose|i: int| 0 <= i < earlier.len() && earlier[i] == entry;
        assert(all[i] == entry);
    } else {
        assert(all[all.len() - 1] == entry);
    }
}

/// Panes whose tokens show what the ledger says are left alone.
pub proof fn law_mirrored_panes_are_left_alone(
    bindings: Seq<BindingView>,
    panes: Seq<PaneView>,
    imported: bool,
)
    requires
        forall|i: int|
            0 <= i < panes.len() ==> (#[trigger] panes[i]).fkey() == bound_key(
                bindings,
                panes[i].pane_id,
            ),
    ensures
        token_changes(bindings, panes, imported) == Seq::<TokenWriteView>::empty(),
    decreases panes.len(),
{
    if panes.len() > 0 {
        let rest = panes.drop_last();
        assert forall|i: int| 0 <= i < rest.len() implies (#[trigger] rest[i]).fkey() == bound_key(
            bindings,
            rest[i].pane_id,
        ) by {
            assert(rest[i] == panes[i]);
        }
        law_mirrored_panes_are_left_alone(bindings, rest, imported);
        assert(panes[panes.len() - 1].fkey() == bound_key(bindings, panes.last().pane_id));
    }
}

/// The ledger after a granted bind request.
pub open spec fn ledger_after_bind(
    bindings: Seq<BindingView>,
    plan: BindPlanView,
) -> Seq<BindingView> {
    match plan.bindings {
        Some(next) => next,
        None => bindings,
    }
}

/// A granted bind request keeps the ledger valid, gives the pane the key that
/// it names, and leaves every other pane's binding as it was.
pub proof fn law_bind(
    bindings: Seq<BindingView>,
    pane_id: Seq<char>,
    requested: Option<Seq<char>>,
    other: Seq<char>,
)
    requires
        valid_ledger(bindings),
        pane_id.len() > 0,
        bind_outcome(bindings, pane_id, requested) is Ok,
    ensures
        ({
            let plan = bind_outcome(bindings, pane_id, requested)->Ok_0;
            let next = ledger_after_bind(bindings, plan);
            &&& valid_ledger(next)
            &&& is_key(plan.key)
            &&& requested is Some ==> plan.key == requested->0
            &&& bound_key(next, pane_id) == Some(plan.key)
            &&& key_owner(next, plan.key) == Some(pane_id)
            &&& other != pane_id ==> bound_key(next, other) == bound_key(bindings, other)
        }),
{
    let plan = bind_outcome(bindings, pane_id, requested)->Ok_0;
    let next = ledger_after_bind(bindings, plan);
    let key = plan.key;
    lemma_bound_key(bindings, pane_id);
    lemma_key_owner(bindings, key);
    law_free_key(bindings);
    if requested is None && bound_key(bindings, pane_id) is Some {
        let entry = BindingView { key, pane_id };
        assert(bindings.contains(entry));
        let i = choose|i: int| 0 <= i < bindings.len() && bindings[i] == entry;
        assert(is_key(bindings[i].key));
    }
    if plan.bindings is Some {
        let test = |binding: BindingView| binding.pane_id != pane_id;
        let kept = without_pane(bindings, pane_id);
        lemma_filter(bindings, test);
        let entry = BindingView { key, pane_id };
        assert(next == kept.push(entry));
        assert forall|i: int| 0 <= i < next.len() implies is_key((#[trigger] next[i]).key)
            && next[i].pane_id.len() > 0 by {
            if i < kept.len() {
                assert(next[i] == kept[i]);
            }
        }
        assert forall|i: int, j: int|
            #![trigger next[i], next[j]]
            0 <= i < j < next.len() implies next[i].key != next[j].key && next[i].pane_id
            != next[j].pane_id by {
            if j < kept.len() {
                assert(next[i] == kept[i] && next[j] == kept[j]);
            } else {
                assert(kept.contains(kept[i]));
                let k = choose|k: int| 0 <= k < bindings.len() && bindings[k] == kept[i];
                assert(bindings[k].key != key);
            }
        }
        assert(next[next.len() - 1] == entry);
        assert(next.contains(entry));
    } else {
        assert(bindings.contains(BindingView { key, pane_id }));
    }
    law_one_key_one_pane(next, key, pane_id);
    if other != pane_id && plan.bindings is Some {
        let test = |binding: BindingView| binding.pane_id != pane_id;
        let kept = without_pane(bindings, pane_id);
        lemma_filter(bindings, test);
        lemma_bound_key(next, other);
        lemma_bound_key(bindings, other);
        if let Some(held) = bound_key(bindings, other) {
            let entry = BindingView { key: held, pane_id: other };
            assert(kept.contains(entry));
            let i = choose|i: int| 0 <= i < kept.len() && kept[i] == entry;
            assert(next[i] == entry);
            law_one_key_one_pane(next, held, other);
        } else if let Some(held) = bound_key(next, other) {
            let entry = BindingView { key: held, pane_id: other };
            let i = choose|i: int| 0 <= i < next.len() && next[i] == entry;
            assert(kept[i] == entry);
            assert(kept.contains(entry));
            let j = choose|j: int| 0 <= j < bindings.len() && bindings[j] == entry;
            assert(bindings[j].pane_id == other);
        }
    }
}

/// Repeating a bind request, with the granted key named or with none named,
/// grants the same key and changes nothing.
pub proof fn law_bind_is_idempotent(
    bindings: Seq<BindingView>,
    pane_id: Seq<char>,
    requested: Option<Seq<char>>,
)
    requires
        valid_ledger(bindings),
        pane_id.len() > 0,
        bind_outcome(bindings, pane_id, requested) is Ok,
    ensures
        ({
            let plan = bind_outcome(bindings, pane_id, requested)->Ok_0;
            let next = ledger_after_bind(bindings, plan);
            let again = Ok::<BindPlanView, BindingFault>(
                BindPlanView { key: plan.key, bindings: None },
            );
            &&& bind_outcome(next, pane_id, None) == again
            &&& bind_outcome(next, pane_id, Some(plan.key)) == again
        }),
{
    law_bind(bindings, pane_id, requested, pane_id);
}

/// A key that another pane holds is refused, and an unnamed key never is while
/// one is free.
pub proof fn law_bind_refusals(
    bindings: Seq<BindingView>,
    pane_id: Seq<char>,
    key: Seq<char>,
    owner: Seq<char>,
)
    requires
        valid_ledger(bindings),
        pane_id.len() > 0,
    ensures
        bindings.contains(BindingView { key, pane_id: owner }) && owner != pane_id ==> bind_outcome(
            bindings,
            pane_id,
            Some(key),
        ) == Err::<BindPlanView, BindingFault>(BindingFault::KeyTaken { key, owner }),
        !is_key(key) ==> bind_outcome(bindings, pane_id, Some(key)) == Err::<
            BindPlanView,
            BindingFault,
        >(BindingFault::UnknownKey),
        bind_outcome(bindings, pane_id, None) is Err <==> (!pane_bound(bindings, pane_id) && (
        forall|i: int| 0 <= i < 10 ==> key_used(bindings, #[trigger] key_ids()[i]))),
{
    law_one_key_one_pane(bindings, key, owner);
    let entry = BindingView { key, pane_id: owner };
    if bindings.contains(entry) {
        let i = choose|i: int| 0 <= i < bindings.len() && bindings[i] == entry;
        assert(is_key(bindings[i].key));
    }
    lemma_bound_key(bindings, pane_id);
    law_free_key(bindings);
    if let Some(held) = bound_key(bindings, pane_id) {
        law_one_key_one_pane(bindings, held, pane_id);
        let own = BindingView { key: held, pane_id };
        let i = choose|i: int| 0 <= i < bindings.len() && bindings[i] == own;
        assert(bindings[i].pane_id == pane_id);
    } else if let Some(free) = free_key(bindings) {
        lemma_key_owner(bindings, free);
        if key_owner(bindings, free) is Some {
            let taken = BindingView { key: free, pane_id: key_owner(bindings, free)->0 };
            let i = choose|i: int| 0 <= i < bindings.len() && bindings[i] == taken;
            assert(bindings[i].key == free);
        }
        if forall|i: int| 0 <= i < 10 ==> key_used(bindings, #[trigger] key_ids()[i]) {
            let i = choose|i: int| 0 <= i < key_ids().len() && key_ids()[i] == free;
            assert(key_used(bindings, key_ids()[i]));
        }
    }
}

/// Releasing a pane keeps the ledger valid, unbinds that pane and no other,
/// and frees its key.
pub proof fn law_release(bindings: Seq<BindingView>, pane_id: Seq<char>, other: Seq<char>)
    requires
        valid_ledger(bindings),
        release_outcome(bindings, pane_id) is Some,
    ensures
        ({
            let next = release_outcome(bindings, pane_id)->0;
            &&& valid_ledger(next)
            &&& !pane_bound(next, pane_id)
            &&& bound_key(bindings, pane_id) is Some
            &&& !key_used(next, bound_key(bindings, pane_id)->0)
            &&& other != pane_id ==> bound_key(next, other) == bound_key(bindings, other)
        }),
{
    let test = |binding: BindingView| binding.pane_id != pane_id;
    let next = without_pane(bindings, pane_id);
    lemma_filter(bindings, test);
    if pane_bound(next, pane_id) {
        let i = choose|i: int| 0 <= i < next.len() && (#[trigger] next[i]).pane_id == pane_id;
        assert(next.contains(next[i]));
    }
    lemma_bound_key(bindings, pane_id);
    let key = bound_key(bindings, pane_id)->0;
    law_one_key_one_pane(bindings, key, pane_id);
    if key_used(next, key) {
        let i = choose|i: int| 0 <= i < next.len() && (#[trigger] next[i]).key == key;
        assert(next.contains(next[i]));
        law_one_key_one_pane(bindings, key, next[i].pane_id);
        assert(next[i] == BindingView { key, pane_id: next[i].pane_id });
    }
    if other != pane_id {
        lemma_bound_key(next, other);
        lemma_bound_key(bindings, other);
        if let Some(held) = bound_key(bindings, other) {
            assert(next.contains(BindingView { key: held, pane_id: other }));
            law_one_key_one_pane(next, held, other);
        } else if let Some(held) = bound_key(next, other) {
            let entry = BindingView { key: held, pane_id: other };
            assert(bindings.contains(entry));
            let j = choose|j: int| 0 <= j < bindings.len() && bindings[j] == entry;
            assert(bindings[j].pane_id == other);
        }
    }
}

/// Releasing a pane right after binding it, where it was not bound before,
/// gives back the ledger.
pub proof fn law_release_undoes_bind(
    bindings: Seq<BindingView>,
    pane_id: Seq<char>,
    requested: Option<Seq<char>>,
)
    requires
        valid_ledger(bindings),
        pane_id.len() > 0,
        !pane_bound(bindings, pane_id),
        bind_outcome(bindings, pane_id, requested) is Ok,
    ensures
        ({
            let plan = bind_outcome(bindings, pane_id, requested)->Ok_0;
            release_outcome(ledger_after_bind(bindings, plan), pane_id) == Some(bindings)
        }),
{
    reveal(Seq::filter);
    let plan = bind_outcome(bindings, pane_id, requested)->Ok_0;
    let next = ledger_after_bind(bindings, plan);
    let test = |binding: BindingView| binding.pane_id != pane_id;
    lemma_key_owner(bindings, plan.key);
    if plan.bindings is None {
        let entry = BindingView { key: plan.key, pane_id };
        let i = choose|i: int| 0 <= i < bindings.len() && bindings[i] == entry;
        assert(bindings[i].pane_id == pane_id);
        assert(false);
    }
    assert forall|i: int| 0 <= i < bindings.len() implies test(#[trigger] bindings[i]) by {}
    lemma_filter_all(bindings, test);
    assert(next.drop_last() =~= bindings);
    assert(next[next.len() - 1].pane_id == pane_id);
}

// ---------------------------------------------------------------------------
// Laws of whole requests
// ---------------------------------------------------------------------------

/// Every ledger handed to the store between two points of the log is valid.
pub open spec fn saves_only_valid(before: World, after: World) -> bool {
    forall|i: int|
        before.store.len() <= i < after.store.len() && (#[trigger] after.store[i]) is Save
            ==> valid_ledger(after.store[i]->Save_0.bindings)
}

/// Between two points of the log no token is touched unless a ledger was
/// saved with success.
pub open spec fn saves_before_tokens(before: World, after: World) -> bool {
    (exists|i: int|
        before.panes.len() <= i < after.panes.len() && (#[trigger] after.panes[i]) is WriteFkey)
        ==> (exists|i: int|
        before.store.len() <= i < after.store.len() && (#[trigger] after.store[i]) is Save
            && after.store[i]->Save_1 is Ok)
}

proof fn lemma_reconcile_saves(
    before: World,
    after: World,
    panes: Seq<PaneView>,
    result: Result<StateView, BindingFault>,
)
    requires
        reconcile_run(before, after, panes, result),
    ensures
        before.store.is_prefix_of(after.store),
        before.panes.is_prefix_of(after.panes),
        saves_only_valid(before, after),
        saves_before_tokens(before, after),
        result is Ok ==> valid_ledger(result->Ok_0.bindings),
{
    let loading = before.loading(after);
    if let Ok(stored) = loading {
        if let Ok(plan) = reconciled(stored, panes) {
            law_reconciled_ledger_is_valid_and_live(stored, panes);
            let n = before.store.len() as int;
            assert(after.store[n + 1] is Save);
        }
    }
}

proof fn lemma_refresh_saves(
    before: World,
    after: World,
    result: Result<(Seq<PaneView>, StateView), BindingFault>,
)
    requires
        refresh_run(before, after, result),
    ensures
        before.store.is_prefix_of(after.store),
        before.panes.is_prefix_of(after.panes),
        saves_only_valid(before, after),
        saves_before_tokens(before, after),
        result is Ok ==> valid_ledger(result->Ok_0.1.bindings),
{
    let listing = before.listing(after);
    let listed = before.asked(DirectoryCall::Panes(listing));
    if let Ok(panes) = listing {
        match result {
            Ok((_, state)) => lemma_reconcile_saves(listed, after, panes, Ok(state)),
            Err(fault) => lemma_reconcile_saves(listed, after, panes, Err(fault)),
        }
        assert(after.panes[before.panes.len() as int] == listed.panes[before.panes.len() as int]);
    }
}

proof fn lemma_guarded_saves(
    before: World,
    after: World,
    pane_id: Seq<char>,
    result: Result<StateView, BindingFault>,
)
    requires
        guarded_run(before, after, pane_id, result),
    ensures
        before.store.is_prefix_of(after.store),
        before.panes.is_prefix_of(after.panes),
        saves_only_valid(before, after),
        saves_before_tokens(before, after),
        result is Ok ==> valid_ledger(result->Ok_0.bindings),
{
    let listing = before.listing(after);
    let listed = before.asked(DirectoryCall::Panes(listing));
    if let Ok(panes) = listing {
        if has_pane(panes, pane_id) {
            lemma_reconcile_saves(listed, after, panes, result);
            assert(after.panes[before.panes.len() as int]
                == listed.panes[before.panes.len() as int]);
        }
    }
}

proof fn lemma_join_runs(before: World, middle: World, after: World)
    requires
        middle.store.is_prefix_of(after.store),
        middle.panes.is_prefix_of(after.panes),
        before.store.is_prefix_of(middle.store),
        before.panes.is_prefix_of(middle.panes),
        saves_only_valid(before, middle),
        saves_only_valid(middle, after),
        saves_before_tokens(before, middle),
        saves_before_tokens(middle, after),
    ensures
        saves_only_valid(before, after),
        saves_before_tokens(before, after),
{
    assert forall|i: int|
        before.store.len() <= i < after.store.len() && (#[trigger] after.store[i]) is Save implies
        valid_ledger(after.store[i]->Save_0.bindings) by {
        if i < middle.store.len() {
            assert(after.store[i] == middle.store[i]);
        }
    }
    if exists|i: int|
        before.panes.len() <= i < after.panes.len() && (#[trigger] after.panes[i]) is WriteFkey {
        let i = choose|i: int|
            before.panes.len() <= i < after.panes.len() && (#[trigger] after.panes[i]) is WriteFkey;
        if i < middle.panes.len() {
            assert(middle.panes[i] is WriteFkey);
            let j = choose|j: int|
                before.store.len() <= j < middle.store.len() && (#[trigger] middle.store[j]) is Save
                    && middle.store[j]->Save_1 is Ok;
            assert(after.store[j] == middle.store[j]);
        } else {
            let j = choose|j: int|
                middle.store.len() <= j < after.store.len() && (#[trigger] after.store[j]) is Save
                    && after.store[j]->Save_1 is Ok;
            assert(after.store[j] is Save);
        }
    }
}

proof fn lemma_commit_saves(
    before: World,
    after: World,
    state: StateView,
    write: TokenWriteView,
    failure: Option<BindingFault>,
)
    requires
        commit_run(before, after, state, write, failure),
        valid_ledger(state.bindings),
    ensures
        before.store.is_prefix_of(after.store),
        before.panes.is_prefix_of(after.panes),
        saves_only_valid(before, after),
        saves_before_tokens(before, after),
{
    let n = before.store.len() as int;
    assert(after.store[n] is Save);
}

/// A bind request hands only valid ledgers to the store, and touches a token
/// only after a ledger was saved.
pub proof fn law_bind_request_is_safe(
    before: World,
    after: World,
    pane_id: Seq<char>,
    requested: Option<Seq<char>>,
    result: Result<BindResultView, BindingFault>,
)
    requires
        bind_run(before, after, pane_id, requested, result),
        pane_id.len() > 0,
    ensures
        saves_only_valid(before, after),
        saves_before_tokens(before, after),
{
    let (middle, state) = choose|middle: World, state: Result<StateView, BindingFault>|
        {
            &&& #[trigger] guarded_run(before, middle, pane_id, state)
            &&& match state {
                Err(fault) => after == middle && result == Err::<BindResultView, BindingFault>(
                    fault,
                ),
                Ok(state) => crate::service::bind_step(
                    middle,
                    after,
                    state,
                    pane_id,
                    requested,
                    result,
                ),
            }
        };
    lemma_guarded_saves(before, middle, pane_id, state);
    if let Ok(state) = state {
        if let Ok(plan) = bind_outcome(state.bindings, pane_id, requested) {
            law_bind(state.bindings, pane_id, requested, pane_id);
            if let Some(bindings) = plan.bindings {
                let next = StateView { state_version: state.state_version, bindings };
                let write = TokenWriteView { pane_id, key: Some(plan.key) };
                let failure: Option<BindingFault> = match result {
                    Ok(_) => None,
                    Err(fault) => Some(fault),
                };
                lemma_commit_saves(middle, after, next, write, failure);
                lemma_join_runs(before, middle, after);
            }
        }
    }
}

proof fn lemma_release_saves(
    before: World,
    after: World,
    state: StateView,
    pane_id: Seq<char>,
    result: Result<bool, BindingFault>,
)
    requires
        crate::service::release_step(before, after, state, pane_id, result),
        valid_ledger(state.bindings),
    ensures
        before.store.is_prefix_of(after.store),
        before.panes.is_prefix_of(after.panes),
        saves_only_valid(before, after),
        saves_before_tokens(before, after),
{
    if let Some(bindings) = release_outcome(state.bindings, pane_id) {
        law_release(state.bindings, pane_id, pane_id);
        let next = StateView { state_version: state.state_version, bindings };
        let write = TokenWriteView { pane_id, key: None };
        let failure: Option<BindingFault> = match result {
            Ok(_) => None,
            Err(fault) => Some(fault),
        };
        lemma_commit_saves(before, after, next, write, failure);
    }
}

/// A request to release a pane hands only valid ledgers to the store, and
/// touches a token only after a ledger was saved.
pub proof fn law_release_request_is_safe(
    before: World,
    after: World,
    pane_id: Seq<char>,
    result: Result<bool, BindingFault>,
)
    requires
        release_run(before, after, pane_id, result),
    ensures
        saves_only_valid(before, after),
        saves_before_tokens(before, after),
{
    let (middle, state) = choose|middle: World, state: Result<StateView, BindingFault>|
        {
            &&& #[trigger] guarded_run(before, middle, pane_id, state)
            &&& match state {
                Err(fault) => after == middle && result == Err::<bool, BindingFault>(fault),
                Ok(state) => crate::service::release_step(middle, after, state, pane_id, result),
            }
        };
    lemma_guarded_saves(before, middle, pane_id, state);
    if let Ok(state) = state {
        lemma_release_saves(middle, after, state, pane_id, result);
        lemma_join_runs(before, middle, after);
    }
}

/// A request to release a key hands only valid ledgers to the store, and
/// touches a token only after a ledger was saved.
pub proof fn law_release_key_request_is_safe(
    before: World,
    after: World,
    key: Seq<char>,
    result: Result<Option<Seq<char>>, BindingFault>,
)
    requires
        release_key_run(before, after, key, result),
    ensures
        saves_only_valid(before, after),
        saves_before_tokens(before, after),
{
    if is_key(key) {
        let (middle, seen) = choose|
            middle: World,
            seen: Result<(Seq<PaneView>, StateView), BindingFault>,
        |
            {
                &&& #[trigger] refresh_run(before, middle, seen)
                &&& match seen {
                    Err(fault) => after == middle && result == Err::<
                        Option<Seq<char>>,
                        BindingFault,
                    >(fault),
                    Ok((_, state)) => crate::service::release_key_step(
                        middle,
                        after,
                        state,
                        key,
                        result,
                    ),
                }
            };
        lemma_refresh_saves(before, middle, seen);
        if let Ok((_, state)) = seen {
            if let Some(owner) = key_owner(state.bindings, key) {
                match result {
                    Ok(_) => lemma_release_saves(middle, after, state, owner, Ok(true)),
                    Err(fault) => lemma_release_saves(middle, after, state, owner, Err(fault)),
                }
                lemma_join_runs(before, middle, after);
            }
        }
    }
}

/// A lookup hands only valid ledgers to the store, and touches a token only
/// after a ledger was saved.
pub proof fn law_lookup_is_safe(
    before: World,
    after: World,
    key: Seq<char>,
    result: Result<Seq<char>, BindingFault>,
)
    requires
        pane_for_key_run(before, after, key, result),
    ensures
        saves_only_valid(before, after),
        saves_before_tokens(before, after),
{
    if is_key(key) {
        let seen = choose|seen: Result<(Seq<PaneView>, StateView), BindingFault>|
            {
                &&& #[trigger] refresh_run(before, after, seen)
                &&& result == match seen {
                    Err(fault) => Err(fault),
                    Ok((_, state)) => crate::service::lookup(state, key),
                }
            };
        lemma_refresh_saves(before, after, seen);
    }
}

/// A status report hands only valid ledgers to the store, and touches a token
/// only after a ledger was saved.
pub proof fn law_status_is_safe(
    before: World,
    after: World,
    result: Result<Seq<RowView>, BindingFault>,
)
    requires
        status_run(before, after, result),
    ensures
        saves_only_valid(before, after),
        saves_before_tokens(before, after),
{
    let seen = choose|seen: Result<(Seq<PaneView>, StateView), BindingFault>|
        {
            &&& #[trigger] refresh_run(before, after, seen)
            &&& result == match seen {
                Err(fault) => Err(fault),
                Ok((panes, state)) => Ok(
                    crate::status::in_key_order(crate::status::paired(state.bindings, panes)),
                ),
            }
        };
    lemma_refresh_saves(before, after, seen);
}

} // verus!
