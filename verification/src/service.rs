//! The binding service: ledger operations carried out against a store and
//! Herdr.
//!
//! The contracts speak of the calls that an operation makes and of what each
//! was answered. Every call is recorded in a ghost log; an operation's result
//! is fixed by the answers in the log.

use vstd::prelude::*;

use crate::binding::{
    binding_views, fault_of, has_pane, is_key, ledger_fault, lemma_no_fault_iff_valid, pane_views,
    valid_key, validate_bindings, Binding, BindingError, BindingFault, BindingState, BindingView,
    Pane, PaneView, StateView,
};
use crate::ledger::{
    bind_outcome, key_owner, lists_pane, pane_of_key, plan_bind, plan_release, reconcile,
    reconciled, release_outcome, stored_view, write_views, TokenWrite, TokenWriteView,
};
use crate::status::{
    in_key_order, paired, present_panes, presentation_views, presented, row_views, status_rows,
    PanePresentation, PresentationView, RowView,
};
use crate::text::{option_str_view, option_view, views};

verus! {

/// A call to the store, with its answer.
pub enum StoreCall {
    Load(Result<Option<StateView>, Seq<char>>),
    Save(StateView, Result<(), Seq<char>>),
}

/// What became of publishing the sidebar tokens of one pane.
#[derive(Clone, Copy, Debug, PartialEq, Eq, Structural)]
pub enum PresentationTokenWrite {
    /// The tokens were accepted.
    Written,
    /// The pane had closed in the meantime.
    PaneGone,
}

/// A call to Herdr, with its answer.
pub enum DirectoryCall {
    Panes(Result<Seq<PaneView>, Seq<char>>),
    WriteFkey(TokenWriteView, Result<(), Seq<char>>),
    WritePresentation(Seq<char>, Seq<char>, Result<PresentationTokenWrite, Seq<char>>),
    Focus(Seq<char>, Result<(), Seq<char>>),
    SendKeys(Seq<char>, Seq<Seq<char>>, Result<(), Seq<char>>),
}

/// The view of a load's answer.
pub open spec fn load_answer(answer: Result<Option<BindingState>, String>) -> Result<
    Option<StateView>,
    Seq<char>,
> {
    match answer {
        Ok(stored) => Ok(stored_view(stored)),
        Err(message) => Err(message@),
    }
}

/// The view of the answer to a listing of panes.
pub open spec fn panes_answer(answer: Result<Vec<Pane>, String>) -> Result<
    Seq<PaneView>,
    Seq<char>,
> {
    match answer {
        Ok(panes) => Ok(pane_views(panes@)),
        Err(message) => Err(message@),
    }
}

/// The view of an answer that carries nothing on success.
pub open spec fn plain_answer(answer: Result<(), String>) -> Result<(), Seq<char>> {
    match answer {
        Ok(()) => Ok(()),
        Err(message) => Err(message@),
    }
}

/// The view of the answer to a publication of sidebar tokens.
pub open spec fn presentation_answer(
    answer: Result<PresentationTokenWrite, String>,
) -> Result<PresentationTokenWrite, Seq<char>> {
    match answer {
        Ok(written) => Ok(written),
        Err(message) => Err(message@),
    }
}

/// Durable storage for the binding ledger.
pub trait BindingStore {
    /// The calls made of the store so far, oldest first, each with its answer.
    /// It is ghost: a store that is not itself verified has nothing to define.
    open spec fn made(&self) -> Seq<StoreCall> {
        arbitrary()
    }

    /// Reads the ledger; nothing when none was ever stored.
    fn load(&mut self) -> (answer: Result<Option<BindingState>, String>)
        ensures
            final(self).made() == old(self).made().push(StoreCall::Load(load_answer(answer))),
    ;

    /// Replaces the ledger.
    fn save(&mut self, state: &BindingState) -> (answer: Result<(), String>)
        ensures
            final(self).made() == old(self).made().push(
                StoreCall::Save(state@, plain_answer(answer)),
            ),
    ;
}

/// The Herdr operations that Beckon needs.
pub trait PaneDirectory {
    /// The calls made of Herdr so far, oldest first, each with its answer. It
    /// is ghost: a directory that is not itself verified has nothing to define.
    open spec fn made(&self) -> Seq<DirectoryCall> {
        arbitrary()
    }

    /// Lists the live panes.
    fn panes(&mut self) -> (answer: Result<Vec<Pane>, String>)
        ensures
            final(self).made() == old(self).made().push(
                DirectoryCall::Panes(panes_answer(answer)),
            ),
    ;

    /// Shows `key` in the pane's visible `fkey` token, or clears the token.
    fn write_fkey(&mut self, pane_id: &str, key: Option<&str>) -> (answer: Result<(), String>)
        ensures
            final(self).made() == old(self).made().push(
                DirectoryCall::WriteFkey(
                    TokenWriteView { pane_id: pane_id@, key: option_str_view(key) },
                    plain_answer(answer),
                ),
            ),
    ;

    /// Publishes the sidebar tokens of a pane.
    fn write_presentation_tokens(&mut self, pane_id: &str, binding: &str) -> (answer: Result<
        PresentationTokenWrite,
        String,
    >)
        ensures
            final(self).made() == old(self).made().push(
                DirectoryCall::WritePresentation(
                    pane_id@,
                    binding@,
                    presentation_answer(answer),
                ),
            ),
    ;

    /// Focuses a pane.
    fn focus_pane(&mut self, pane_id: &str) -> (answer: Result<(), String>)
        ensures
            final(self).made() == old(self).made().push(
                DirectoryCall::Focus(pane_id@, plain_answer(answer)),
            ),
    ;

    /// Sends logical keys to a pane.
    fn send_keys(&mut self, pane_id: &str, keys: &Vec<String>) -> (answer: Result<(), String>)
        ensures
            final(self).made() == old(self).made().push(
                DirectoryCall::SendKeys(pane_id@, views(keys@), plain_answer(answer)),
            ),
    ;
}

/// The calls made so far to the store and to Herdr.
#[verifier::ext_equal]
pub struct World {
    pub store: Seq<StoreCall>,
    pub panes: Seq<DirectoryCall>,
}

impl World {
    /// After one more call to the store.
    pub open spec fn stored(self, call: StoreCall) -> World {
        World { store: self.store.push(call), panes: self.panes }
    }

    /// After one more call to Herdr.
    pub open spec fn asked(self, call: DirectoryCall) -> World {
        World { store: self.store, panes: self.panes.push(call) }
    }

    /// The answer to the first listing of panes after this point of the log.
    pub open spec fn listing(self, after: World) -> Result<Seq<PaneView>, Seq<char>> {
        after.panes[self.panes.len() as int]->Panes_0
    }

    /// The answer to the first load after this point of the log.
    pub open spec fn loading(self, after: World) -> Result<Option<StateView>, Seq<char>> {
        after.store[self.store.len() as int]->Load_0
    }

    /// The answer to the first save after this point of the log.
    pub open spec fn saving(self, after: World) -> Result<(), Seq<char>> {
        after.store[self.store.len() as int]->Save_1
    }

    /// The answer to the first token change after this point of the log.
    pub open spec fn mirroring(self, after: World) -> Result<(), Seq<char>> {
        after.panes[self.panes.len() as int]->WriteFkey_1
    }
}

/// The log of token changes that all succeeded.
pub open spec fn mirrored(writes: Seq<TokenWriteView>) -> Seq<DirectoryCall> {
    writes.map_values(|write: TokenWriteView| DirectoryCall::WriteFkey(write, Ok(())))
}

/// The token changes are made in order, up to the first that fails.
pub open spec fn mirror_run(
    before: World,
    after: World,
    writes: Seq<TokenWriteView>,
    failure: Option<BindingFault>,
) -> bool {
    &&& after.store == before.store
    &&& match failure {
        None => after.panes == before.panes + mirrored(writes),
        Some(fault) => {
            let done = after.panes.len() - before.panes.len() - 1;
            &&& 0 <= done < writes.len()
            &&& fault is Directory
            &&& after.panes == before.panes + mirrored(writes.take(done)).push(
                DirectoryCall::WriteFkey(writes[done], Err(fault->Directory_0)),
            )
        },
    }
}

/// The stored ledger is loaded and reconciled with `panes`; the result is
/// saved, and after that the tokens are made to mirror it.
pub open spec fn reconcile_run(
    before: World,
    after: World,
    panes: Seq<PaneView>,
    result: Result<StateView, BindingFault>,
) -> bool {
    let loading = before.loading(after);
    let loaded = before.stored(StoreCall::Load(loading));
    match loading {
        Err(message) => after == loaded && result == Err::<StateView, BindingFault>(
            BindingFault::Store(message),
        ),
        Ok(stored) => match reconciled(stored, panes) {
            Err(fault) => after == loaded && result == Err::<StateView, BindingFault>(fault),
            Ok(plan) => {
                let saving = loaded.saving(after);
                let saved = loaded.stored(StoreCall::Save(plan.state, saving));
                match saving {
                    Err(message) => after == saved && result == Err::<StateView, BindingFault>(
                        BindingFault::Store(message),
                    ),
                    Ok(()) => match result {
                        Ok(state) => mirror_run(saved, after, plan.writes, None) && state
                            == plan.state,
                        Err(fault) => mirror_run(saved, after, plan.writes, Some(fault)),
                    },
                }
            },
        },
    }
}

/// The view of a reconciled ledger or of the reason why there is none.
pub open spec fn state_result(result: Result<BindingState, BindingError>) -> Result<
    StateView,
    BindingFault,
> {
    match result {
        Ok(state) => Ok(state@),
        Err(error) => Err(error@),
    }
}

/// The panes are listed, and the ledger is reconciled with them.
pub open spec fn refresh_run(
    before: World,
    after: World,
    result: Result<(Seq<PaneView>, StateView), BindingFault>,
) -> bool {
    let listing = before.listing(after);
    let listed = before.asked(DirectoryCall::Panes(listing));
    match listing {
        Err(message) => after == listed && result == Err::<
            (Seq<PaneView>, StateView),
            BindingFault,
        >(BindingFault::Directory(message)),
        Ok(panes) => match result {
            Ok((seen, state)) => seen == panes && reconcile_run(listed, after, panes, Ok(state)),
            Err(fault) => reconcile_run(listed, after, panes, Err(fault)),
        },
    }
}

/// The view of the listed panes and the ledger reconciled with them.
pub open spec fn seen_result(
    result: Result<(Vec<Pane>, BindingState), BindingError>,
) -> Result<(Seq<PaneView>, StateView), BindingFault> {
    match result {
        Ok(seen) => Ok((pane_views(seen.0@), seen.1@)),
        Err(error) => Err(error@),
    }
}

/// A ledger is saved, and after that one token is changed.
pub open spec fn commit_run(
    before: World,
    after: World,
    state: StateView,
    write: TokenWriteView,
    failure: Option<BindingFault>,
) -> bool {
    let saving = before.saving(after);
    let saved = before.stored(StoreCall::Save(state, saving));
    match saving {
        Err(message) => after == saved && failure == Some(BindingFault::Store(message)),
        Ok(()) => {
            let mirroring = saved.mirroring(after);
            &&& after == saved.asked(DirectoryCall::WriteFkey(write, mirroring))
            &&& failure == match mirroring {
                Ok(()) => None,
                Err(message) => Some(BindingFault::Directory(message)),
            }
        },
    }
}

/// An operation on a pane starts by listing the panes. A pane that is not
/// listed is refused before the ledger is looked at.
pub open spec fn guarded_run(
    before: World,
    after: World,
    pane_id: Seq<char>,
    result: Result<StateView, BindingFault>,
) -> bool {
    let listing = before.listing(after);
    let listed = before.asked(DirectoryCall::Panes(listing));
    match listing {
        Err(message) => after == listed && result == Err::<StateView, BindingFault>(
            BindingFault::Directory(message),
        ),
        Ok(panes) => if !has_pane(panes, pane_id) {
            after == listed && result == Err::<StateView, BindingFault>(BindingFault::PaneGone)
        } else {
            reconcile_run(listed, after, panes, result)
        },
    }
}

/// The answer to a bind request.
#[derive(Debug)]
pub struct BindResult {
    pub key: String,
    pub pane_id: String,
    pub changed: bool,
}

#[verifier::ext_equal]
pub struct BindResultView {
    pub key: Seq<char>,
    pub pane_id: Seq<char>,
    pub changed: bool,
}

impl View for BindResult {
    type V = BindResultView;

    open spec fn view(&self) -> BindResultView {
        BindResultView { key: self.key@, pane_id: self.pane_id@, changed: self.changed }
    }
}

/// The view of the answer to a bind request.
pub open spec fn bind_result(result: Result<BindResult, BindingError>) -> Result<
    BindResultView,
    BindingFault,
> {
    match result {
        Ok(granted) => Ok(granted@),
        Err(error) => Err(error@),
    }
}

/// What a bind request does once the ledger `state` is reconciled.
pub open spec fn bind_step(
    before: World,
    after: World,
    state: StateView,
    pane_id: Seq<char>,
    requested: Option<Seq<char>>,
    result: Result<BindResultView, BindingFault>,
) -> bool {
    match bind_outcome(state.bindings, pane_id, requested) {
        Err(fault) => after == before && result == Err::<BindResultView, BindingFault>(fault),
        Ok(plan) => match plan.bindings {
            None => after == before && result == Ok::<BindResultView, BindingFault>(
                BindResultView { key: plan.key, pane_id, changed: false },
            ),
            Some(bindings) => {
                let next = StateView { state_version: state.state_version, bindings };
                let write = TokenWriteView { pane_id, key: Some(plan.key) };
                match result {
                    Ok(granted) => commit_run(before, after, next, write, None) && granted
                        == BindResultView { key: plan.key, pane_id, changed: true },
                    Err(fault) => commit_run(before, after, next, write, Some(fault)),
                }
            },
        },
    }
}

/// A whole bind request.
pub open spec fn bind_run(
    before: World,
    after: World,
    pane_id: Seq<char>,
    requested: Option<Seq<char>>,
    result: Result<BindResultView, BindingFault>,
) -> bool {
    exists|middle: World, state: Result<StateView, BindingFault>|
        {
            &&& #[trigger] guarded_run(before, middle, pane_id, state)
            &&& match state {
                Err(fault) => after == middle && result == Err::<BindResultView, BindingFault>(
                    fault,
                ),
                Ok(state) => bind_step(middle, after, state, pane_id, requested, result),
            }
        }
}

/// What a release request does once the ledger `state` is reconciled.
pub open spec fn release_step(
    before: World,
    after: World,
    state: StateView,
    pane_id: Seq<char>,
    result: Result<bool, BindingFault>,
) -> bool {
    match release_outcome(state.bindings, pane_id) {
        None => after == before && result == Ok::<bool, BindingFault>(false),
        Some(bindings) => {
            let next = StateView { state_version: state.state_version, bindings };
            let write = TokenWriteView { pane_id, key: None };
            match result {
                Ok(changed) => changed && commit_run(before, after, next, write, None),
                Err(fault) => commit_run(before, after, next, write, Some(fault)),
            }
        },
    }
}

/// A whole request to release a pane.
pub open spec fn release_run(
    before: World,
    after: World,
    pane_id: Seq<char>,
    result: Result<bool, BindingFault>,
) -> bool {
    exists|middle: World, state: Result<StateView, BindingFault>|
        {
            &&& #[trigger] guarded_run(before, middle, pane_id, state)
            &&& match state {
                Err(fault) => after == middle && result == Err::<bool, BindingFault>(fault),
                Ok(state) => release_step(middle, after, state, pane_id, result),
            }
        }
}

/// What a request to release a key does once the ledger `state` is reconciled.
pub open spec fn release_key_step(
    before: World,
    after: World,
    state: StateView,
    key: Seq<char>,
    result: Result<Option<Seq<char>>, BindingFault>,
) -> bool {
    match key_owner(state.bindings, key) {
        None => after == before && result == Ok::<Option<Seq<char>>, BindingFault>(None),
        Some(owner) => match result {
            Ok(released) => released == Some(owner) && release_step(
                before,
                after,
                state,
                owner,
                Ok(true),
            ),
            Err(fault) => release_step(before, after, state, owner, Err(fault)),
        },
    }
}

/// A whole request to release a key.
pub open spec fn release_key_run(
    before: World,
    after: World,
    key: Seq<char>,
    result: Result<Option<Seq<char>>, BindingFault>,
) -> bool {
    if !is_key(key) {
        after == before && result == Err::<Option<Seq<char>>, BindingFault>(
            BindingFault::UnknownKey,
        )
    } else {
        exists|middle: World, seen: Result<(Seq<PaneView>, StateView), BindingFault>|
            {
                &&& #[trigger] refresh_run(before, middle, seen)
                &&& match seen {
                    Err(fault) => after == middle && result == Err::<
                        Option<Seq<char>>,
                        BindingFault,
                    >(fault),
                    Ok((_, state)) => release_key_step(middle, after, state, key, result),
                }
            }
    }
}

/// The pane of a key in a reconciled ledger.
pub open spec fn lookup(state: StateView, key: Seq<char>) -> Result<Seq<char>, BindingFault> {
    match key_owner(state.bindings, key) {
        Some(pane_id) => Ok(pane_id),
        None => Err(BindingFault::NotBound { key }),
    }
}

/// A whole lookup of the pane of a key.
pub open spec fn pane_for_key_run(
    before: World,
    after: World,
    key: Seq<char>,
    result: Result<Seq<char>, BindingFault>,
) -> bool {
    if !is_key(key) {
        after == before && result == Err::<Seq<char>, BindingFault>(BindingFault::UnknownKey)
    } else {
        exists|seen: Result<(Seq<PaneView>, StateView), BindingFault>|
            {
                &&& #[trigger] refresh_run(before, after, seen)
                &&& result == match seen {
                    Err(fault) => Err(fault),
                    Ok((_, state)) => lookup(state, key),
                }
            }
    }
}

/// The view of a result that carries a text.
pub open spec fn text_result(result: Result<String, BindingError>) -> Result<
    Seq<char>,
    BindingFault,
> {
    match result {
        Ok(text) => Ok(text@),
        Err(error) => Err(error@),
    }
}

/// The view of a result that may carry a text.
pub open spec fn optional_text_result(result: Result<Option<String>, BindingError>) -> Result<
    Option<Seq<char>>,
    BindingFault,
> {
    match result {
        Ok(text) => Ok(option_view(text)),
        Err(error) => Err(error@),
    }
}

/// The view of a result that carries a flag.
pub open spec fn flag_result(result: Result<bool, BindingError>) -> Result<bool, BindingFault> {
    match result {
        Ok(flag) => Ok(flag),
        Err(error) => Err(error@),
    }
}

/// A whole status report.
pub open spec fn status_run(
    before: World,
    after: World,
    result: Result<Seq<RowView>, BindingFault>,
) -> bool {
    exists|seen: Result<(Seq<PaneView>, StateView), BindingFault>|
        {
            &&& #[trigger] refresh_run(before, after, seen)
            &&& result == match seen {
                Err(fault) => Err(fault),
                Ok((panes, state)) => Ok(in_key_order(paired(state.bindings, panes))),
            }
        }
}

/// The view of a status report.
pub open spec fn rows_result(result: Result<Vec<(Binding, Pane)>, BindingError>) -> Result<
    Seq<RowView>,
    BindingFault,
> {
    match result {
        Ok(rows) => Ok(row_views(rows@)),
        Err(error) => Err(error@),
    }
}

/// The ledger as it is stored; an empty one where none was ever stored.
pub open spec fn ledger_or_empty(stored: Option<StateView>) -> Seq<BindingView> {
    match stored {
        Some(state) => state.bindings,
        None => Seq::empty(),
    }
}

/// How every pane is presented under a stored ledger.
pub open spec fn presentation(
    stored: Option<StateView>,
    panes: Seq<PaneView>,
) -> Result<Seq<PresentationView>, BindingFault> {
    let bindings = ledger_or_empty(stored);
    match ledger_fault(bindings) {
        Some(fault) => Err(fault),
        None => Ok(panes.map_values(|pane: PaneView| presented(pane, bindings))),
    }
}

/// A whole presentation of the live panes: one listing and one load, and
/// nothing is changed.
pub open spec fn presentation_run(
    before: World,
    after: World,
    result: Result<Seq<PresentationView>, BindingFault>,
) -> bool {
    let listing = before.listing(after);
    let listed = before.asked(DirectoryCall::Panes(listing));
    match listing {
        Err(message) => after == listed && result == Err::<Seq<PresentationView>, BindingFault>(
            BindingFault::Directory(message),
        ),
        Ok(panes) => {
            let loading = listed.loading(after);
            &&& after == listed.stored(StoreCall::Load(loading))
            &&& result == match loading {
                Err(message) => Err(BindingFault::Store(message)),
                Ok(stored) => presentation(stored, panes),
            }
        },
    }
}

/// The view of a presentation.
pub open spec fn presentations_result(
    result: Result<Vec<PanePresentation>, BindingError>,
) -> Result<Seq<PresentationView>, BindingFault> {
    match result {
        Ok(rows) => Ok(presentation_views(rows@)),
        Err(error) => Err(error@),
    }
}

/// The single writer of the binding ledger.
pub struct BindingService<S, P> {
    pub store: S,
    pub panes: P,
}

impl<S: BindingStore, P: PaneDirectory> BindingService<S, P> {
    /// The calls made so far.
    pub open spec fn world(&self) -> World {
        World { store: self.store.made(), panes: self.panes.made() }
    }

    /// A service over a store and a directory.
    pub fn new(store: S, panes: P) -> (service: Self)
        ensures
            service.store == store,
            service.panes == panes,
            service.world() == (World { store: store.made(), panes: panes.made() }),
    {
        BindingService { store, panes }
    }

    fn mirror_tokens(&mut self, writes: &Vec<TokenWrite>) -> (result: Result<(), BindingError>)
        ensures
            mirror_run(
                old(self).world(),
                final(self).world(),
                write_views(writes@),
                fault_of(result),
            ),
    {
        let ghost before = self.world();
        let ghost all = write_views(writes@);
        assert(before.panes =~= before.panes + mirrored(all.take(0)));
        for i in 0..writes.len()
            invariant
                all == write_views(writes@),
                self.world().store == before.store,
                self.world().panes == before.panes + mirrored(all.take(i as int)),
                before == old(self).world(),
        {
            let ghost previous = self.world();
            let key = match &writes[i].key {
                Some(key) => Some(key.as_str()),
                None => None,
            };
            let answer = self.panes.write_fkey(writes[i].pane_id.as_str(), key);
            proof {
                assert(all[i as int] == writes@[i as int]@);
                assert(self.world().panes == previous.panes.push(
                    DirectoryCall::WriteFkey(all[i as int], plain_answer(answer)),
                ));
            }
            match answer {
                Ok(()) => {
                    assert(all.take(i + 1) =~= all.take(i as int).push(all[i as int]));
                    assert(self.world().panes =~= before.panes + mirrored(all.take(i + 1)));
                },
                Err(message) => {
                    assert(self.world().panes =~= before.panes + mirrored(
                        all.take(i as int),
                    ).push(DirectoryCall::WriteFkey(all[i as int], Err(message@))));
                    assert(self.world().panes.len() - before.panes.len() - 1 == i);
                    return Err(BindingError::Directory(message));
                },
            }
        }
        assert(all.take(all.len() as int) =~= all);
        Ok(())
    }

    fn reconcile_panes(&mut self, panes: &Vec<Pane>) -> (result: Result<BindingState, BindingError>)
        ensures
            reconcile_run(
                old(self).world(),
                final(self).world(),
                pane_views(panes@),
                state_result(result),
            ),
    {
        let ghost before = self.world();
        let stored = match self.store.load() {
            Ok(stored) => stored,
            Err(message) => {
                assert(before.loading(self.world()) == Err::<Option<StateView>, Seq<char>>(message@));
                return Err(BindingError::Store(message));
            },
        };
        let ghost loading: Result<Option<StateView>, Seq<char>> = Ok(stored_view(stored));
        let ghost loaded = before.stored(StoreCall::Load(loading));
        assert(self.world() == loaded);
        let plan = match reconcile(stored, panes.as_slice()) {
            Ok(plan) => plan,
            Err(error) => {
                assert(before.loading(self.world()) == loading);
                return Err(error);
            },
        };
        let answer = self.store.save(&plan.state);
        let ghost saved = loaded.stored(StoreCall::Save(plan.state@, plain_answer(answer)));
        assert(self.world() == saved);
        match answer {
            Ok(()) => {},
            Err(message) => {
                assert(before.loading(self.world()) == loading);
                assert(loaded.saving(self.world()) == plain_answer(answer));
                return Err(BindingError::Store(message));
            },
        }
        let mirrored = self.mirror_tokens(&plan.writes);
        assert(before.loading(self.world()) == loading);
        assert(loaded.saving(self.world()) == Ok::<(), Seq<char>>(()));
        match mirrored {
            Ok(()) => Ok(plan.state),
            Err(error) => Err(error),
        }
    }

    /// Lists the panes and reconciles the ledger with them.
    fn refresh(&mut self) -> (result: Result<(Vec<Pane>, BindingState), BindingError>)
        ensures
            refresh_run(
                old(self).world(),
                final(self).world(),
                seen_result(result),
            ),
    {
        let ghost before = self.world();
        let answer = self.panes.panes();
        let ghost listing = panes_answer(answer);
        let ghost listed = before.asked(DirectoryCall::Panes(listing));
        assert(self.world() == listed);
        let panes = match answer {
            Ok(panes) => panes,
            Err(message) => {
                assert(before.listing(self.world()) == listing);
                return Err(BindingError::Directory(message));
            },
        };
        let state = self.reconcile_panes(&panes);
        proof {
            lemma_reconcile_extends(listed, self.world(), pane_views(panes@), state_result(state));
            assert(before.listing(self.world()) == listing);
        }
        match state {
            Ok(state) => Ok((panes, state)),
            Err(error) => Err(error),
        }
    }

    /// Lists the panes, refuses a pane that is not among them, and reconciles
    /// the ledger.
    fn refresh_for(&mut self, pane_id: &str) -> (result: Result<BindingState, BindingError>)
        ensures
            guarded_run(
                old(self).world(),
                final(self).world(),
                pane_id@,
                state_result(result),
            ),
    {
        let ghost before = self.world();
        let answer = self.panes.panes();
        let ghost listing = panes_answer(answer);
        let ghost listed = before.asked(DirectoryCall::Panes(listing));
        assert(self.world() == listed);
        let panes = match answer {
            Ok(panes) => panes,
            Err(message) => {
                assert(before.listing(self.world()) == listing);
                return Err(BindingError::Directory(message));
            },
        };
        if !lists_pane(panes.as_slice(), pane_id) {
            assert(before.listing(self.world()) == listing);
            return Err(BindingError::PaneGone);
        }
        let state = self.reconcile_panes(&panes);
        proof {
            lemma_reconcile_extends(listed, self.world(), pane_views(panes@), state_result(state));
            assert(before.listing(self.world()) == listing);
        }
        state
    }

    /// Saves a ledger and then changes one token.
    fn commit(&mut self, state: &BindingState, pane_id: &str, key: Option<&str>) -> (result: Result<
        (),
        BindingError,
    >)
        ensures
            commit_run(
                old(self).world(),
                final(self).world(),
                state@,
                TokenWriteView { pane_id: pane_id@, key: option_str_view(key) },
                fault_of(result),
            ),
    {
        let ghost before = self.world();
        let saving = self.store.save(state);
        let ghost saved = before.stored(StoreCall::Save(state@, plain_answer(saving)));
        assert(self.world() == saved);
        match saving {
            Ok(()) => {},
            Err(message) => {
                assert(before.saving(self.world()) == plain_answer(saving));
                return Err(BindingError::Store(message));
            },
        }
        let mirroring = self.panes.write_fkey(pane_id, key);
        assert(before.saving(self.world()) == plain_answer(saving));
        assert(saved.mirroring(self.world()) == plain_answer(mirroring));
        match mirroring {
            Ok(()) => Ok(()),
            Err(message) => Err(BindingError::Directory(message)),
        }
    }

    /// Binds a pane, to `requested_key` where a key is named. Without a named
    /// key an already-bound pane keeps its key, and any other pane gets the
    /// first free one.
    pub fn bind(&mut self, pane_id: &str, requested_key: Option<&str>) -> (result: Result<
        BindResult,
        BindingError,
    >)
        ensures
            bind_run(
                old(self).world(),
                final(self).world(),
                pane_id@,
                option_str_view(requested_key),
                bind_result(result),
            ),
    {
        let ghost before = self.world();
        let refreshed = self.refresh_for(pane_id);
        let ghost middle = self.world();
        assert(guarded_run(before, middle, pane_id@, state_result(refreshed)));
        let state = match refreshed {
            Ok(state) => state,
            Err(error) => {
                return Err(error);
            },
        };
        let plan = match plan_bind(state.bindings.as_slice(), pane_id, requested_key) {
            Ok(plan) => plan,
            Err(error) => {
                return Err(error);
            },
        };
        match plan.bindings {
            None => Ok(
                BindResult { key: plan.key, pane_id: pane_id.to_owned(), changed: false },
            ),
            Some(bindings) => {
                let next = BindingState { state_version: state.state_version, bindings };
                match self.commit(&next, pane_id, Some(plan.key.as_str())) {
                    Ok(()) => Ok(
                        BindResult { key: plan.key, pane_id: pane_id.to_owned(), changed: true },
                    ),
                    Err(error) => Err(error),
                }
            },
        }
    }

    fn release_from(&mut self, state: &BindingState, pane_id: &str) -> (result: Result<
        bool,
        BindingError,
    >)
        ensures
            release_step(
                old(self).world(),
                final(self).world(),
                state@,
                pane_id@,
                flag_result(result),
            ),
    {
        match plan_release(state.bindings.as_slice(), pane_id) {
            None => Ok(false),
            Some(bindings) => {
                let next = BindingState { state_version: state.state_version, bindings };
                match self.commit(&next, pane_id, None) {
                    Ok(()) => Ok(true),
                    Err(error) => Err(error),
                }
            },
        }
    }

    /// Clears the binding of a pane, and says whether there was one.
    pub fn release(&mut self, pane_id: &str) -> (result: Result<bool, BindingError>)
        ensures
            release_run(
                old(self).world(),
                final(self).world(),
                pane_id@,
                flag_result(result),
            ),
    {
        let ghost before = self.world();
        let refreshed = self.refresh_for(pane_id);
        let ghost middle = self.world();
        assert(guarded_run(before, middle, pane_id@, state_result(refreshed)));
        match refreshed {
            Ok(state) => self.release_from(&state, pane_id),
            Err(error) => Err(error),
        }
    }

    /// Clears the binding of a key, and returns the pane that it was bound to.
    pub fn release_key(&mut self, key: &str) -> (result: Result<Option<String>, BindingError>)
        ensures
            release_key_run(
                old(self).world(),
                final(self).world(),
                key@,
                optional_text_result(result),
            ),
    {
        match valid_key(key) {
            Ok(_) => {},
            Err(error) => {
                return Err(error);
            },
        }
        let ghost before = self.world();
        let refreshed = self.refresh();
        let ghost seen = seen_result(refreshed);
        let ghost middle = self.world();
        assert(refresh_run(before, middle, seen));
        let (panes, state) = match refreshed {
            Ok(seen) => seen,
            Err(error) => {
                return Err(error);
            },
        };
        let owner: String = match pane_of_key(state.bindings.as_slice(), key) {
            Some(owner) => owner.to_owned(),
            None => {
                return Ok(None);
            },
        };
        proof {
            crate::ledger::lemma_key_owner(binding_views(state.bindings@), key@);
            let entries = binding_views(state.bindings@);
            let entry = BindingView { key: key@, pane_id: owner@ };
            let i = choose|i: int| 0 <= i < entries.len() && entries[i] == entry;
            assert(entries[i].pane_id == owner@);
        }
        match self.release_from(&state, owner.as_str()) {
            Ok(_) => Ok(Some(owner)),
            Err(error) => Err(error),
        }
    }

    /// The bound panes in key order.
    pub fn status(&mut self) -> (result: Result<Vec<(Binding, Pane)>, BindingError>)
        ensures
            status_run(old(self).world(), final(self).world(), rows_result(result)),
    {
        let ghost before = self.world();
        let refreshed = self.refresh();
        let ghost seen = seen_result(refreshed);
        assert(refresh_run(before, self.world(), seen));
        match refreshed {
            Ok((panes, state)) => Ok(
                status_rows(state.bindings.as_slice(), panes.as_slice()),
            ),
            Err(error) => Err(error),
        }
    }

    /// The pane bound to a key.
    pub fn pane_for_key(&mut self, key: &str) -> (result: Result<String, BindingError>)
        ensures
            pane_for_key_run(
                old(self).world(),
                final(self).world(),
                key@,
                text_result(result),
            ),
    {
        match valid_key(key) {
            Ok(_) => {},
            Err(error) => {
                return Err(error);
            },
        }
        let ghost before = self.world();
        let refreshed = self.refresh();
        let ghost seen = seen_result(refreshed);
        assert(refresh_run(before, self.world(), seen));
        match refreshed {
            Ok((_, state)) => match pane_of_key(state.bindings.as_slice(), key) {
                Some(owner) => Ok(owner.to_owned()),
                None => Err(BindingError::NotBound { key: key.to_owned() }),
            },
            Err(error) => Err(error),
        }
    }

    /// Every live pane with its title and binding. Nothing is changed, so this
    /// can be polled.
    pub fn panes(&mut self) -> (result: Result<Vec<PanePresentation>, BindingError>)
        ensures
            presentation_run(
                old(self).world(),
                final(self).world(),
                presentations_result(result),
            ),
    {
        let ghost before = self.world();
        let answer = self.panes.panes();
        let ghost listing = panes_answer(answer);
        let ghost listed = before.asked(DirectoryCall::Panes(listing));
        assert(self.world() == listed);
        let panes = match answer {
            Ok(panes) => panes,
            Err(message) => {
                assert(before.listing(self.world()) == listing);
                return Err(BindingError::Directory(message));
            },
        };
        let loading = self.store.load();
        assert(self.world() == listed.stored(StoreCall::Load(load_answer(loading))));
        assert(before.listing(self.world()) == listing);
        assert(listed.loading(self.world()) == load_answer(loading));
        match loading {
            Ok(stored) => present_stored(stored, panes.as_slice()),
            Err(message) => Err(BindingError::Store(message)),
        }
    }
}

/// How every pane is presented under a stored ledger.
pub fn present_stored(stored: Option<BindingState>, panes: &[Pane]) -> (result: Result<
    Vec<PanePresentation>,
    BindingError,
>)
    ensures
        presentations_result(result) == presentation(stored_view(stored), pane_views(panes@)),
{
    let bindings = match stored {
        Some(state) => state.bindings,
        None => Vec::new(),
    };
    assert(binding_views(bindings@) =~= ledger_or_empty(stored_view(stored)));
    proof {
        lemma_no_fault_iff_valid(binding_views(bindings@));
    }
    match validate_bindings(bindings.as_slice()) {
        Ok(()) => Ok(present_panes(bindings.as_slice(), panes)),
        Err(error) => Err(error),
    }
}

/// Reconciling only adds to the log.
pub proof fn lemma_reconcile_extends(
    before: World,
    after: World,
    panes: Seq<PaneView>,
    result: Result<StateView, BindingFault>,
)
    requires
        reconcile_run(before, after, panes, result),
    ensures
        before.store.is_prefix_of(after.store),
        before.panes.is_prefix_of(after.panes),
        before.store.len() < after.store.len(),
{
}

} // verus!
