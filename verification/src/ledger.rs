//! Decisions over the binding ledger: reconciling it with the live panes,
//! binding a pane, releasing one, and looking one up.

use vstd::prelude::*;

use crate::binding::{
    binding_views, fault_of, first_free_key, free_key, has_pane, is_key, key_used, ledger_fault,
    pane_views, valid_key, validate_bindings, Binding, BindingError, BindingFault, BindingState,
    BindingView, Pane, PaneView, StateView, STATE_VERSION,
};
use crate::text::{option_str_view, option_view, same_option, same_text};

verus! {

// ---------------------------------------------------------------------------
// Lookups
// ---------------------------------------------------------------------------

/// The key bound to `pane_id`: that of the first entry for the pane.
pub open spec fn bound_key(bindings: Seq<BindingView>, pane_id: Seq<char>) -> Option<Seq<char>>
    decreases bindings.len(),
{
    if bindings.len() == 0 {
        None
    } else if bindings[0].pane_id == pane_id {
        Some(bindings[0].key)
    } else {
        bound_key(bindings.drop_first(), pane_id)
    }
}

/// The pane bound to `key`: that of the first entry for the key.
pub open spec fn key_owner(bindings: Seq<BindingView>, key: Seq<char>) -> Option<Seq<char>>
    decreases bindings.len(),
{
    if bindings.len() == 0 {
        None
    } else if bindings[0].key == key {
        Some(bindings[0].pane_id)
    } else {
        key_owner(bindings.drop_first(), key)
    }
}

proof fn lemma_bound_key_skip(bindings: Seq<BindingView>, pane_id: Seq<char>, count: int)
    requires
        0 <= count <= bindings.len(),
        forall|i: int| 0 <= i < count ==> (#[trigger] bindings[i]).pane_id != pane_id,
    ensures
        bound_key(bindings, pane_id) == bound_key(bindings.skip(count), pane_id),
    decreases count,
{
    if count > 0 {
        let rest = bindings.drop_first();
        assert forall|i: int| 0 <= i < count - 1 implies (#[trigger] rest[i]).pane_id != pane_id by {
            assert(rest[i] == bindings[i + 1]);
        }
        lemma_bound_key_skip(rest, pane_id, count - 1);
        assert(rest.skip(count - 1) =~= bindings.skip(count));
        assert(bindings[0].pane_id != pane_id);
    } else {
        assert(bindings.skip(0) =~= bindings);
    }
}

proof fn lemma_key_owner_skip(bindings: Seq<BindingView>, key: Seq<char>, count: int)
    requires
        0 <= count <= bindings.len(),
        forall|i: int| 0 <= i < count ==> (#[trigger] bindings[i]).key != key,
    ensures
        key_owner(bindings, key) == key_owner(bindings.skip(count), key),
    decreases count,
{
    if count > 0 {
        let rest = bindings.drop_first();
        assert forall|i: int| 0 <= i < count - 1 implies (#[trigger] rest[i]).key != key by {
            assert(rest[i] == bindings[i + 1]);
        }
        lemma_key_owner_skip(rest, key, count - 1);
        assert(rest.skip(count - 1) =~= bindings.skip(count));
        assert(bindings[0].key != key);
    } else {
        assert(bindings.skip(0) =~= bindings);
    }
}

/// Where the pane of a key is found, and that nothing is found for an unused key.
pub proof fn lemma_key_owner(bindings: Seq<BindingView>, key: Seq<char>)
    ensures
        match key_owner(bindings, key) {
            Some(pane_id) => bindings.contains(BindingView { key, pane_id }),
            None => !key_used(bindings, key),
        },
    decreases bindings.len(),
{
    if bindings.len() > 0 {
        if bindings[0].key == key {
            assert(bindings[0] == BindingView { key, pane_id: bindings[0].pane_id });
        } else {
            let rest = bindings.drop_first();
            lemma_key_owner(rest, key);
            if key_owner(rest, key) is Some {
                let entry = BindingView { key, pane_id: key_owner(rest, key)->0 };
                let i = choose|i: int| 0 <= i < rest.len() && rest[i] == entry;
                assert(bindings[i + 1] == entry);
            } else if key_used(bindings, key) {
                let i = choose|i: int| 0 <= i < bindings.len() && (#[trigger] bindings[i]).key == key;
                assert(rest[i - 1].key == key);
            }
        }
    }
}

/// Whether some entry is for the pane.
pub open spec fn pane_bound(bindings: Seq<BindingView>, pane_id: Seq<char>) -> bool {
    exists|i: int| 0 <= i < bindings.len() && (#[trigger] bindings[i]).pane_id == pane_id
}

/// Where the key of a pane is found, and that nothing is found for an unbound pane.
pub proof fn lemma_bound_key(bindings: Seq<BindingView>, pane_id: Seq<char>)
    ensures
        match bound_key(bindings, pane_id) {
            Some(key) => bindings.contains(BindingView { key, pane_id }),
            None => !pane_bound(bindings, pane_id),
        },
    decreases bindings.len(),
{
    if bindings.len() > 0 {
        if bindings[0].pane_id == pane_id {
            assert(bindings[0] == BindingView { key: bindings[0].key, pane_id });
        } else {
            let rest = bindings.drop_first();
            lemma_bound_key(rest, pane_id);
            if bound_key(rest, pane_id) is Some {
                let entry = BindingView { key: bound_key(rest, pane_id)->0, pane_id };
                let i = choose|i: int| 0 <= i < rest.len() && rest[i] == entry;
                assert(bindings[i + 1] == entry);
            } else if pane_bound(bindings, pane_id) {
                let i = choose|i: int|
                    0 <= i < bindings.len() && (#[trigger] bindings[i]).pane_id == pane_id;
                assert(rest[i - 1].pane_id == pane_id);
            }
        }
    }
}

/// The key bound to a pane.
pub fn key_of_pane<'a>(bindings: &'a [Binding], pane_id: &str) -> (key: Option<&'a str>)
    ensures
        option_str_view(key) == bound_key(binding_views(bindings@), pane_id@),
{
    let ghost entries = binding_views(bindings@);
    for i in 0..bindings.len()
        invariant
            entries == binding_views(bindings@),
            forall|j: int| 0 <= j < i ==> (#[trigger] entries[j]).pane_id != pane_id@,
    {
        if same_text(bindings[i].pane_id.as_str(), pane_id) {
            proof {
                lemma_bound_key_skip(entries, pane_id@, i as int);
                assert(entries.skip(i as int)[0] == bindings@[i as int]@);
            }
            return Some(bindings[i].key.as_str());
        }
    }
    proof {
        lemma_bound_key_skip(entries, pane_id@, entries.len() as int);
    }
    None
}

/// The pane bound to a key.
pub fn pane_of_key<'a>(bindings: &'a [Binding], key: &str) -> (pane_id: Option<&'a str>)
    ensures
        option_str_view(pane_id) == key_owner(binding_views(bindings@), key@),
{
    let ghost entries = binding_views(bindings@);
    for i in 0..bindings.len()
        invariant
            entries == binding_views(bindings@),
            forall|j: int| 0 <= j < i ==> (#[trigger] entries[j]).key != key@,
    {
        if same_text(bindings[i].key.as_str(), key) {
            proof {
                lemma_key_owner_skip(entries, key@, i as int);
                assert(entries.skip(i as int)[0] == bindings@[i as int]@);
            }
            return Some(bindings[i].pane_id.as_str());
        }
    }
    proof {
        lemma_key_owner_skip(entries, key@, entries.len() as int);
    }
    None
}

/// Whether a pane with this identifier is listed.
pub fn lists_pane(panes: &[Pane], pane_id: &str) -> (listed: bool)
    ensures
        listed == has_pane(pane_views(panes@), pane_id@),
{
    let ghost listed_panes = pane_views(panes@);
    for i in 0..panes.len()
        invariant
            listed_panes == pane_views(panes@),
            forall|j: int| 0 <= j < i ==> (#[trigger] listed_panes[j]).pane_id != pane_id@,
    {
        if same_text(panes[i].pane_id.as_str(), pane_id) {
            assert(listed_panes[i as int].pane_id == pane_id@);
            return true;
        }
    }
    false
}

// ---------------------------------------------------------------------------
// Reconciliation
// ---------------------------------------------------------------------------

/// The bindings that the panes' visible tokens spell out, in pane order.
pub open spec fn token_bindings(panes: Seq<PaneView>) -> Seq<BindingView>
    decreases panes.len(),
{
    if panes.len() == 0 {
        Seq::empty()
    } else {
        let earlier = token_bindings(panes.drop_last());
        match panes.last().fkey() {
            Some(key) => earlier.push(BindingView { key, pane_id: panes.last().pane_id }),
            None => earlier,
        }
    }
}

/// The ledger to start from: the stored one, or, where nothing was ever
/// stored, the bindings that the panes' tokens spell out.
pub open spec fn starting_state(
    stored: Option<StateView>,
    panes: Seq<PaneView>,
) -> StateView {
    match stored {
        Some(state) => state,
        None => StateView { state_version: STATE_VERSION, bindings: token_bindings(panes) },
    }
}

/// The entries whose pane still exists.
pub open spec fn live_bindings(
    bindings: Seq<BindingView>,
    panes: Seq<PaneView>,
) -> Seq<BindingView> {
    bindings.filter(|binding: BindingView| has_pane(panes, binding.pane_id))
}

/// A change to a pane's visible token: a key to show, or nothing.
#[derive(Debug, PartialEq, Eq)]
pub struct TokenWrite {
    pub pane_id: String,
    pub key: Option<String>,
}

#[verifier::ext_equal]
pub struct TokenWriteView {
    pub pane_id: Seq<char>,
    pub key: Option<Seq<char>>,
}

impl View for TokenWrite {
    type V = TokenWriteView;

    open spec fn view(&self) -> TokenWriteView {
        TokenWriteView { pane_id: self.pane_id@, key: option_view(self.key) }
    }
}

/// The views of a sequence of token changes.
pub open spec fn write_views(writes: Seq<TokenWrite>) -> Seq<TokenWriteView> {
    writes.map_values(|write: TokenWrite| write@)
}

/// The change that makes one pane's token mirror the ledger. A stale token is
/// left alone when the ledger was itself imported from the tokens.
pub open spec fn token_change(
    bindings: Seq<BindingView>,
    pane: PaneView,
    imported: bool,
) -> Option<TokenWriteView> {
    match bound_key(bindings, pane.pane_id) {
        Some(key) => if pane.fkey() != Some(key) {
            Some(TokenWriteView { pane_id: pane.pane_id, key: Some(key) })
        } else {
            None
        },
        None => if !imported && pane.fkey() is Some {
            Some(TokenWriteView { pane_id: pane.pane_id, key: None })
        } else {
            None
        },
    }
}

/// The changes that make every pane's token mirror the ledger, in pane order.
pub open spec fn token_changes(
    bindings: Seq<BindingView>,
    panes: Seq<PaneView>,
    imported: bool,
) -> Seq<TokenWriteView>
    decreases panes.len(),
{
    if panes.len() == 0 {
        Seq::empty()
    } else {
        let earlier = token_changes(bindings, panes.drop_last(), imported);
        match token_change(bindings, panes.last(), imported) {
            Some(write) => earlier.push(write),
            None => earlier,
        }
    }
}

/// A ledger that agrees with the live panes, and the token changes that make
/// the panes agree with it.
#[derive(Debug)]
pub struct Reconciliation {
    pub state: BindingState,
    pub writes: Vec<TokenWrite>,
}

#[verifier::ext_equal]
pub struct ReconciliationView {
    pub state: StateView,
    pub writes: Seq<TokenWriteView>,
}

impl View for Reconciliation {
    type V = ReconciliationView;

    open spec fn view(&self) -> ReconciliationView {
        ReconciliationView { state: self.state@, writes: write_views(self.writes@) }
    }
}

/// What reconciling a stored ledger with the live panes gives.
pub open spec fn reconciled(
    stored: Option<StateView>,
    panes: Seq<PaneView>,
) -> Result<ReconciliationView, BindingFault> {
    let start = starting_state(stored, panes);
    match ledger_fault(start.bindings) {
        Some(fault) => Err(fault),
        None => {
            let bindings = live_bindings(start.bindings, panes);
            Ok(
                ReconciliationView {
                    state: StateView { state_version: start.state_version, bindings },
                    writes: token_changes(bindings, panes, stored is None),
                },
            )
        },
    }
}

/// The view of an optional ledger.
pub open spec fn stored_view(stored: Option<BindingState>) -> Option<StateView> {
    match stored {
        Some(state) => Some(state@),
        None => None,
    }
}

fn bindings_from_tokens(panes: &[Pane]) -> (bindings: Vec<Binding>)
    ensures
        binding_views(bindings@) == token_bindings(pane_views(panes@)),
{
    let ghost all = pane_views(panes@);
    let mut bindings: Vec<Binding> = Vec::new();
    assert(binding_views(bindings@) =~= token_bindings(all.take(0)));
    for i in 0..panes.len()
        invariant
            all == pane_views(panes@),
            binding_views(bindings@) == token_bindings(all.take(i as int)),
    {
        let ghost before = bindings@;
        proof {
            assert(all.take(i + 1).drop_last() =~= all.take(i as int));
            assert(all.take(i + 1).last() == panes@[i as int]@);
        }
        if let Some(key) = panes[i].fkey() {
            bindings.push(Binding { key: key.to_owned(), pane_id: panes[i].pane_id.clone() });
            assert(binding_views(bindings@) =~= binding_views(before).push(
                BindingView { key: key@, pane_id: panes@[i as int].pane_id@ },
            ));
        }
    }
    assert(all.take(panes.len() as int) =~= all);
    bindings
}

fn keep_live(bindings: &[Binding], panes: &[Pane]) -> (kept: Vec<Binding>)
    ensures
        binding_views(kept@) == live_bindings(binding_views(bindings@), pane_views(panes@)),
{
    let ghost all = binding_views(bindings@);
    let ghost test = |binding: BindingView| has_pane(pane_views(panes@), binding.pane_id);
    let mut kept: Vec<Binding> = Vec::new();
    proof {
        reveal(Seq::filter);
        assert(binding_views(kept@) =~= all.take(0).filter(test));
    }
    for i in 0..bindings.len()
        invariant
            all == binding_views(bindings@),
            test == (|binding: BindingView| has_pane(pane_views(panes@), binding.pane_id)),
            binding_views(kept@) == all.take(i as int).filter(test),
    {
        let ghost before = kept@;
        proof {
            reveal(Seq::filter);
            assert(all.take(i + 1).drop_last() =~= all.take(i as int));
            assert(all.take(i + 1).last() == bindings@[i as int]@);
        }
        if lists_pane(panes, bindings[i].pane_id.as_str()) {
            kept.push(bindings[i].clone());
            assert(binding_views(kept@) =~= binding_views(before).push(bindings@[i as int]@));
        }
    }
    assert(all.take(bindings.len() as int) =~= all);
    kept
}

fn mirror(bindings: &[Binding], panes: &[Pane], imported: bool) -> (writes: Vec<TokenWrite>)
    ensures
        write_views(writes@) == token_changes(
            binding_views(bindings@),
            pane_views(panes@),
            imported,
        ),
{
    let ghost entries = binding_views(bindings@);
    let ghost all = pane_views(panes@);
    let mut writes: Vec<TokenWrite> = Vec::new();
    assert(write_views(writes@) =~= token_changes(entries, all.take(0), imported));
    for i in 0..panes.len()
        invariant
            entries == binding_views(bindings@),
            all == pane_views(panes@),
            write_views(writes@) == token_changes(entries, all.take(i as int), imported),
    {
        let ghost before = writes@;
        let pane = &panes[i];
        proof {
            assert(all.take(i + 1).drop_last() =~= all.take(i as int));
            assert(all.take(i + 1).last() == pane@);
        }
        match key_of_pane(bindings, pane.pane_id.as_str()) {
            Some(key) => {
                if !same_option(pane.fkey(), Some(key)) {
                    writes.push(
                        TokenWrite { pane_id: pane.pane_id.clone(), key: Some(key.to_owned()) },
                    );
                    assert(write_views(writes@) =~= write_views(before).push(
                        TokenWriteView { pane_id: pane.pane_id@, key: Some(key@) },
                    ));
                }
            },
            None => {
                if !imported && pane.fkey().is_some() {
                    writes.push(TokenWrite { pane_id: pane.pane_id.clone(), key: None });
                    assert(write_views(writes@) =~= write_views(before).push(
                        TokenWriteView { pane_id: pane.pane_id@, key: None },
                    ));
                }
            },
        }
    }
    assert(all.take(panes.len() as int) =~= all);
    writes
}

/// Reconciles the stored ledger with the live panes.
///
/// Entries of closed panes go. Where nothing was ever stored, the ledger is
/// imported from the panes' visible tokens.
pub fn reconcile(stored: Option<BindingState>, panes: &[Pane]) -> (result: Result<
    Reconciliation,
    BindingError,
>)
    ensures
        match reconciled(stored_view(stored), pane_views(panes@)) {
            Ok(expected) => result is Ok && result->Ok_0@ == expected,
            Err(fault) => fault_of(result) == Some(fault),
        },
{
    let imported = stored.is_none();
    let start = match stored {
        Some(state) => state,
        None => BindingState {
            state_version: STATE_VERSION,
            bindings: bindings_from_tokens(panes),
        },
    };
    match validate_bindings(start.bindings.as_slice()) {
        Ok(()) => {},
        Err(error) => {
            return Err(error);
        },
    }
    let bindings = keep_live(start.bindings.as_slice(), panes);
    let writes = mirror(bindings.as_slice(), panes, imported);
    Ok(
        Reconciliation {
            state: BindingState { state_version: start.state_version, bindings },
            writes,
        },
    )
}

// ---------------------------------------------------------------------------
// Binding and releasing
// ---------------------------------------------------------------------------

/// The entries that are not for the pane.
pub open spec fn without_pane(
    bindings: Seq<BindingView>,
    pane_id: Seq<char>,
) -> Seq<BindingView> {
    bindings.filter(|binding: BindingView| binding.pane_id != pane_id)
}

/// The key that a request is for: the named one, or else the one that the pane
/// has, or else the first free one.
pub open spec fn chosen_key(
    bindings: Seq<BindingView>,
    pane_id: Seq<char>,
    requested: Option<Seq<char>>,
) -> Result<Seq<char>, BindingFault> {
    match requested {
        Some(key) => if is_key(key) {
            Ok(key)
        } else {
            Err(BindingFault::UnknownKey)
        },
        None => match bound_key(bindings, pane_id) {
            Some(key) => Ok(key),
            None => match free_key(bindings) {
                Some(key) => Ok(key),
                None => Err(BindingFault::NoFreeKey),
            },
        },
    }
}

/// A granted request: the key, and the ledger to store where it changes.
#[derive(Debug)]
pub struct BindPlan {
    pub key: String,
    pub bindings: Option<Vec<Binding>>,
}

#[verifier::ext_equal]
pub struct BindPlanView {
    pub key: Seq<char>,
    pub bindings: Option<Seq<BindingView>>,
}

impl View for BindPlan {
    type V = BindPlanView;

    open spec fn view(&self) -> BindPlanView {
        BindPlanView {
            key: self.key@,
            bindings: match self.bindings {
                Some(bindings) => Some(binding_views(bindings@)),
                None => None,
            },
        }
    }
}

/// What a request to bind a pane is answered.
pub open spec fn bind_outcome(
    bindings: Seq<BindingView>,
    pane_id: Seq<char>,
    requested: Option<Seq<char>>,
) -> Result<BindPlanView, BindingFault> {
    match chosen_key(bindings, pane_id, requested) {
        Err(fault) => Err(fault),
        Ok(key) => match key_owner(bindings, key) {
            Some(owner) => if owner != pane_id {
                Err(BindingFault::KeyTaken { key, owner })
            } else {
                Ok(BindPlanView { key, bindings: None })
            },
            None => Ok(
                BindPlanView {
                    key,
                    bindings: Some(
                        without_pane(bindings, pane_id).push(BindingView { key, pane_id }),
                    ),
                },
            ),
        },
    }
}

fn drop_pane(bindings: &[Binding], pane_id: &str) -> (kept: Vec<Binding>)
    ensures
        binding_views(kept@) == without_pane(binding_views(bindings@), pane_id@),
{
    let ghost all = binding_views(bindings@);
    let ghost test = |binding: BindingView| binding.pane_id != pane_id@;
    let mut kept: Vec<Binding> = Vec::new();
    proof {
        reveal(Seq::filter);
        assert(binding_views(kept@) =~= all.take(0).filter(test));
    }
    for i in 0..bindings.len()
        invariant
            all == binding_views(bindings@),
            test == (|binding: BindingView| binding.pane_id != pane_id@),
            binding_views(kept@) == all.take(i as int).filter(test),
    {
        let ghost before = kept@;
        proof {
            reveal(Seq::filter);
            assert(all.take(i + 1).drop_last() =~= all.take(i as int));
            assert(all.take(i + 1).last() == bindings@[i as int]@);
        }
        if !same_text(bindings[i].pane_id.as_str(), pane_id) {
            kept.push(bindings[i].clone());
            assert(binding_views(kept@) =~= binding_views(before).push(bindings@[i as int]@));
        }
    }
    assert(all.take(bindings.len() as int) =~= all);
    kept
}

/// Decides a request to bind `pane_id`, to `requested` where a key is named.
///
/// Without a named key an already-bound pane keeps its key.
pub fn plan_bind(bindings: &[Binding], pane_id: &str, requested: Option<&str>) -> (result: Result<
    BindPlan,
    BindingError,
>)
    ensures
        match bind_outcome(binding_views(bindings@), pane_id@, option_str_view(requested)) {
            Ok(expected) => result is Ok && result->Ok_0@ == expected,
            Err(fault) => fault_of(result) == Some(fault),
        },
{
    let key: &str = match requested {
        Some(key) => match valid_key(key) {
            Ok(key) => key,
            Err(error) => {
                return Err(error);
            },
        },
        None => match key_of_pane(bindings, pane_id) {
            Some(key) => key,
            None => match first_free_key(bindings) {
                Some(key) => key,
                None => {
                    return Err(BindingError::NoFreeKey);
                },
            },
        },
    };
    match pane_of_key(bindings, key) {
        Some(owner) => {
            if !same_text(owner, pane_id) {
                return Err(
                    BindingError::KeyTaken { key: key.to_owned(), owner: owner.to_owned() },
                );
            }
            Ok(BindPlan { key: key.to_owned(), bindings: None })
        },
        None => {
            let mut kept = drop_pane(bindings, pane_id);
            let ghost before = kept@;
            kept.push(Binding { key: key.to_owned(), pane_id: pane_id.to_owned() });
            assert(binding_views(kept@) =~= binding_views(before).push(
                BindingView { key: key@, pane_id: pane_id@ },
            ));
            Ok(BindPlan { key: key.to_owned(), bindings: Some(kept) })
        },
    }
}

/// The ledger after releasing a pane; nothing when the pane is not bound.
pub open spec fn release_outcome(
    bindings: Seq<BindingView>,
    pane_id: Seq<char>,
) -> Option<Seq<BindingView>> {
    if pane_bound(bindings, pane_id) {
        Some(without_pane(bindings, pane_id))
    } else {
        None
    }
}

/// Decides a request to release `pane_id`: the ledger to store, or nothing
/// when the pane is not bound.
pub fn plan_release(bindings: &[Binding], pane_id: &str) -> (kept: Option<Vec<Binding>>)
    ensures
        match release_outcome(binding_views(bindings@), pane_id@) {
            Some(expected) => kept is Some && binding_views(kept->0@) == expected,
            None => kept is None,
        },
{
    proof {
        lemma_bound_key(binding_views(bindings@), pane_id@);
    }
    match key_of_pane(bindings, pane_id) {
        Some(key) => {
            proof {
                let entries = binding_views(bindings@);
                let entry = BindingView { key: key@, pane_id: pane_id@ };
                let i = choose|i: int| 0 <= i < entries.len() && entries[i] == entry;
                assert(entries[i].pane_id == pane_id@);
            }
            Some(drop_pane(bindings, pane_id))
        },
        None => None,
    }
}

} // verus!
