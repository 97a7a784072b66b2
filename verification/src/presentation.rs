//! What the daemon shows on every tick: the render plan of the moment and the
//! sidebar tokens of the panes.
//!
//! Both are polled, so neither changes the ledger.

use vstd::prelude::*;

use crate::binding::{binding_views, pane_views, BindingError, BindingFault, BindingState, Pane};
use crate::ledger::stored_view;
use crate::name_map::NameMap;
use crate::render::{
    plan_result, render, DisplayConfig, DisplayError, DisplayFault, DisplayView, PlanView,
    RenderPlan,
};
use crate::service::{
    ledger_or_empty, load_answer, panes_answer, presentation_answer, presentation_run,
    presentations_result, BindingService, BindingStore, DirectoryCall, PaneDirectory,
    PresentationTokenWrite, StoreCall, World,
};
use crate::status::{pair_panes, paired, presentation_views, PanePresentation, PresentationView};
use crate::text::{same_text, views};

verus! {

broadcast use vstd::string::group_string_axioms;

// ---------------------------------------------------------------------------
// The render plan of the moment
// ---------------------------------------------------------------------------

/// Why there is no plan.
#[derive(Debug)]
pub enum TickError {
    Store(String),
    Directory(String),
    Display(DisplayError),
}

pub enum TickFault {
    Store(Seq<char>),
    Directory(Seq<char>),
    Display(DisplayFault),
}

impl View for TickError {
    type V = TickFault;

    open spec fn view(&self) -> TickFault {
        match *self {
            TickError::Store(message) => TickFault::Store(message@),
            TickError::Directory(message) => TickFault::Directory(message@),
            TickError::Display(error) => TickFault::Display(error@),
        }
    }
}

impl TickFault {
    /// The text shown to the user.
    pub open spec fn message(self) -> Seq<char> {
        match self {
            TickFault::Store(message) => message,
            TickFault::Directory(message) => message,
            TickFault::Display(fault) => fault.message(),
        }
    }
}

impl TickError {
    /// The text shown to the user.
    pub fn message(&self) -> (text: String)
        ensures
            text@ == self@.message(),
    {
        match self {
            TickError::Store(message) => message.clone(),
            TickError::Directory(message) => message.clone(),
            TickError::Display(error) => error.message(),
        }
    }
}

/// The view of a plan or of the reason why there is none.
pub open spec fn tick_result(result: Result<RenderPlan, TickError>) -> Result<
    PlanView,
    TickFault,
> {
    match result {
        Ok(plan) => Ok(plan@),
        Err(error) => Err(error@),
    }
}

/// The ledger is loaded, the panes are listed, and the plan for the bindings
/// whose panes are live is resolved. Nothing is saved and no token is written.
pub open spec fn plan_run(
    before: World,
    after: World,
    display: DisplayView,
    result: Result<PlanView, TickFault>,
) -> bool {
    let loading = before.loading(after);
    let loaded = before.stored(StoreCall::Load(loading));
    match loading {
        Err(message) => after == loaded && result == Err::<PlanView, TickFault>(
            TickFault::Store(message),
        ),
        Ok(stored) => {
            let listing = loaded.listing(after);
            &&& after == loaded.asked(DirectoryCall::Panes(listing))
            &&& match listing {
                Err(message) => result == Err::<PlanView, TickFault>(
                    TickFault::Directory(message),
                ),
                Ok(panes) => {
                    let rows = paired(ledger_or_empty(stored), panes);
                    match result {
                        Ok(plan) => plan_result(display, rows, Ok(plan)),
                        Err(TickFault::Display(fault)) => plan_result(display, rows, Err(fault)),
                        Err(_) => false,
                    }
                },
            }
        },
    }
}

/// The plan for the bindings of a stored ledger whose panes are listed.
pub fn plan_for(
    display: &DisplayConfig,
    stored: Option<BindingState>,
    panes: &Vec<Pane>,
) -> (result: Result<RenderPlan, DisplayError>)
    ensures
        plan_result(
            display@,
            paired(ledger_or_empty(stored_view(stored)), pane_views(panes@)),
            match result {
                Ok(plan) => Ok(plan@),
                Err(error) => Err(error@),
            },
        ),
{
    let bindings = match stored {
        Some(state) => state.bindings,
        None => Vec::new(),
    };
    assert(binding_views(bindings@) =~= ledger_or_empty(stored_view(stored)));
    let rows = pair_panes(bindings.as_slice(), panes.as_slice());
    render(display, rows.as_slice())
}

/// Resolves the render plan of the moment.
pub fn current_plan<S: BindingStore, P: PaneDirectory>(
    service: &mut BindingService<S, P>,
    display: &DisplayConfig,
) -> (result: Result<RenderPlan, TickError>)
    ensures
        plan_run(old(service).world(), final(service).world(), display@, tick_result(result)),
{
    let ghost before = service.world();
    let loading = service.store.load();
    let ghost load = load_answer(loading);
    let ghost loaded = before.stored(StoreCall::Load(load));
    assert(service.world() == loaded);
    assert(before.loading(loaded) == load);
    let stored = match loading {
        Ok(stored) => stored,
        Err(message) => {
            return Err(TickError::Store(message));
        },
    };
    let listing = service.panes.panes();
    let ghost list = panes_answer(listing);
    let ghost listed = loaded.asked(DirectoryCall::Panes(list));
    assert(service.world() == listed);
    assert(before.loading(listed) == load);
    assert(loaded.listing(listed) == list);
    let panes = match listing {
        Ok(panes) => panes,
        Err(message) => {
            return Err(TickError::Directory(message));
        },
    };
    match plan_for(display, stored, &panes) {
        Ok(plan) => Ok(plan),
        Err(error) => Err(TickError::Display(error)),
    }
}

// ---------------------------------------------------------------------------
// Sidebar tokens
// ---------------------------------------------------------------------------

/// Publishes Beckon-owned sidebar tokens only when a pane appears or its
/// binding changes. Pane identifiers are immutable, so one update per pane
/// keeps the sidebar independent of missing-token fallbacks.
pub struct PresentationPublisher {
    published: NameMap<String>,
}

impl View for PresentationPublisher {
    type V = Map<Seq<char>, Seq<char>>;

    closed spec fn view(&self) -> Map<Seq<char>, Seq<char>> {
        self.published@.map_values(|binding: String| binding@)
    }
}

impl Default for PresentationPublisher {
    /// Nothing was published yet.
    fn default() -> (publisher: Self)
        ensures
            publisher@ == Map::<Seq<char>, Seq<char>>::empty(),
    {
        let publisher = PresentationPublisher { published: NameMap::new() };
        assert(publisher@ =~= Map::<Seq<char>, Seq<char>>::empty());
        publisher
    }
}

/// The identifiers of the panes in a presentation.
pub open spec fn live_panes(rows: Seq<PresentationView>) -> Set<Seq<char>> {
    Set::new(|pane_id: Seq<char>| exists|i: int| 0 <= i < rows.len() && (
    #[trigger] rows[i]).pane_id == pane_id)
}

/// What remains published of the panes that are still there.
pub open spec fn still_published(
    published: Map<Seq<char>, Seq<char>>,
    rows: Seq<PresentationView>,
) -> Map<Seq<char>, Seq<char>> {
    published.restrict(live_panes(rows))
}

/// Whether a pane's tokens show its binding already.
pub open spec fn is_published(
    published: Map<Seq<char>, Seq<char>>,
    row: PresentationView,
) -> bool {
    published.contains_key(row.pane_id) && published[row.pane_id] == row.binding
}

/// How far a publication has come.
#[verifier::ext_equal]
pub struct Progress {
    pub published: Map<Seq<char>, Seq<char>>,
    pub calls: Seq<DirectoryCall>,
    pub changed: bool,
    pub failure: Option<Seq<char>>,
}

/// The tokens of one more pane, given the log of calls. Nothing is tried after
/// a failure. A pane that has closed in the meantime is remembered too, so
/// that it is not tried again on every tick.
pub open spec fn progressed(
    progress: Progress,
    row: PresentationView,
    log: Seq<DirectoryCall>,
) -> Progress {
    if progress.failure is Some || is_published(progress.published, row) {
        progress
    } else {
        let answer = log[progress.calls.len() as int]->WritePresentation_2;
        let calls = progress.calls.push(
            DirectoryCall::WritePresentation(row.pane_id, row.binding, answer),
        );
        match answer {
            Err(message) => Progress {
                published: progress.published,
                calls,
                changed: progress.changed,
                failure: Some(message),
            },
            Ok(write) => Progress {
                published: progress.published.insert(row.pane_id, row.binding),
                calls,
                changed: progress.changed || write is Written,
                failure: None,
            },
        }
    }
}

/// How far the publication of the rows comes, given the log of calls.
pub open spec fn progress_of(
    published: Map<Seq<char>, Seq<char>>,
    calls: Seq<DirectoryCall>,
    rows: Seq<PresentationView>,
    log: Seq<DirectoryCall>,
) -> Progress
    decreases rows.len(),
{
    if rows.len() == 0 {
        Progress { published, calls, changed: false, failure: None }
    } else {
        progressed(progress_of(published, calls, rows.drop_last(), log), rows.last(), log)
    }
}

/// A whole publication: panes that are gone are forgotten, and the tokens of
/// the others are published in order where they changed, up to the first
/// failure.
pub open spec fn publish_run(
    published: Map<Seq<char>, Seq<char>>,
    calls: Seq<DirectoryCall>,
    published_after: Map<Seq<char>, Seq<char>>,
    calls_after: Seq<DirectoryCall>,
    rows: Seq<PresentationView>,
    result: Result<bool, Seq<char>>,
) -> bool {
    let end = progress_of(still_published(published, rows), calls, rows, calls_after);
    &&& published_after == end.published
    &&& calls_after == end.calls
    &&& result == match end.failure {
        Some(message) => Err::<bool, Seq<char>>(message),
        None => Ok::<bool, Seq<char>>(end.changed),
    }
}

/// The view of a publication's result.
pub open spec fn changed_result(result: Result<bool, String>) -> Result<bool, Seq<char>> {
    match result {
        Ok(changed) => Ok(changed),
        Err(message) => Err(message@),
    }
}

proof fn lemma_longer_log(
    published: Map<Seq<char>, Seq<char>>,
    calls: Seq<DirectoryCall>,
    rows: Seq<PresentationView>,
    log: Seq<DirectoryCall>,
    call: DirectoryCall,
)
    requires
        progress_of(published, calls, rows, log).calls.len() <= log.len(),
    ensures
        progress_of(published, calls, rows, log.push(call)) == progress_of(
            published,
            calls,
            rows,
            log,
        ),
    decreases rows.len(),
{
    if rows.len() > 0 {
        let earlier = progress_of(published, calls, rows.drop_last(), log);
        assert(earlier.calls.len() <= progress_of(published, calls, rows, log).calls.len());
        lemma_longer_log(published, calls, rows.drop_last(), log, call);
        if earlier.failure is None && !is_published(earlier.published, rows.last()) {
            assert(earlier.calls.len() < log.len());
            assert(log.push(call)[earlier.calls.len() as int] == log[earlier.calls.len() as int]);
        }
    }
}

proof fn lemma_failure_stays(
    published: Map<Seq<char>, Seq<char>>,
    calls: Seq<DirectoryCall>,
    rows: Seq<PresentationView>,
    log: Seq<DirectoryCall>,
    count: int,
)
    requires
        0 <= count <= rows.len(),
        progress_of(published, calls, rows.take(count), log).failure is Some,
    ensures
        progress_of(published, calls, rows, log) == progress_of(
            published,
            calls,
            rows.take(count),
            log,
        ),
    decreases rows.len(),
{
    if count < rows.len() {
        assert(rows.drop_last().take(count) =~= rows.take(count));
        lemma_failure_stays(published, calls, rows.drop_last(), log, count);
    } else {
        assert(rows.take(count) =~= rows);
    }
}

impl PresentationPublisher {
    /// Publishes the tokens of the panes where they changed. Returns whether
    /// any were accepted.
    pub fn publish<P: PaneDirectory>(
        &mut self,
        panes: &mut P,
        presentation: &Vec<PanePresentation>,
    ) -> (result: Result<bool, String>)
        ensures
            publish_run(
                old(self)@,
                old(panes).made(),
                final(self)@,
                final(panes).made(),
                presentation_views(presentation@),
                changed_result(result),
            ),
    {
        let ghost rows = presentation_views(presentation@);
        let mut live: Vec<String> = Vec::new();
        for i in 0..presentation.len()
            invariant
                live.len() == i,
                forall|j: int| 0 <= j < i ==> (#[trigger] live@[j])@ == presentation@[j].pane_id@,
        {
            live.push(presentation[i].pane_id.clone());
        }
        let ghost known = self@;
        self.published.keep_only(&live);
        proof {
            assert forall|pane_id: Seq<char>| live_panes(rows).contains(pane_id) <==> views(
                live@,
            ).contains(pane_id) by {
                if views(live@).contains(pane_id) {
                    let i = choose|i: int| 0 <= i < live.len() && views(live@)[i] == pane_id;
                    assert(rows[i].pane_id == pane_id);
                }
                if live_panes(rows).contains(pane_id) {
                    let i = choose|i: int| 0 <= i < rows.len() && (
                    #[trigger] rows[i]).pane_id == pane_id;
                    assert(views(live@)[i] == pane_id);
                }
            }
            assert(self@ =~= still_published(known, rows));
        }
        let mut changed = false;
        let ghost start = self@;
        let ghost calls = panes.made();
        assert(rows.take(0) =~= Seq::empty());
        for i in 0..presentation.len()
            invariant
                rows == presentation_views(presentation@),
                start == still_published(old(self)@, rows),
                calls == old(panes).made(),
                progress_of(start, calls, rows.take(i as int), panes.made()) == (Progress {
                    published: self@,
                    calls: panes.made(),
                    changed,
                    failure: None,
                }),
        {
            let pane = &presentation[i];
            let ghost row = pane@;
            let ghost here = self@;
            let ghost log = panes.made();
            proof {
                assert(rows.take(i + 1).drop_last() =~= rows.take(i as int));
                assert(rows.take(i + 1).last() == row);
            }
            let shown = match self.published.get(pane.pane_id.as_str()) {
                Some(binding) => same_text(binding.as_str(), pane.binding.as_str()),
                None => false,
            };
            assert(shown == is_published(here, row));
            if !shown {
                let answer = panes.write_presentation_tokens(
                    pane.pane_id.as_str(),
                    pane.binding.as_str(),
                );
                proof {
                    lemma_longer_log(start, calls, rows.take(i as int), log, panes.made().last());
                    assert(panes.made() =~= log.push(panes.made().last()));
                    assert(panes.made()[log.len() as int]->WritePresentation_2
                        == presentation_answer(answer));
                }
                match answer {
                    Err(message) => {
                        proof {
                            lemma_failure_stays(start, calls, rows, panes.made(), i + 1);
                        }
                        return Err(message);
                    },
                    Ok(PresentationTokenWrite::Written) => {
                        changed = true;
                    },
                    Ok(PresentationTokenWrite::PaneGone) => {},
                }
                self.published.insert(pane.pane_id.clone(), pane.binding.clone());
                assert(self@ =~= here.insert(row.pane_id, row.binding));
            }
        }
        assert(rows.take(presentation.len() as int) =~= rows);
        Ok(changed)
    }

    /// Presents the live panes and publishes their tokens where they changed.
    pub fn sync<S: BindingStore, P: PaneDirectory>(
        &mut self,
        service: &mut BindingService<S, P>,
    ) -> (result: Result<bool, BindingError>)
        ensures
            sync_run(
                old(self)@,
                old(service).world(),
                final(self)@,
                final(service).world(),
                match result {
                    Ok(changed) => Ok(changed),
                    Err(error) => Err(error@),
                },
            ),
    {
        let ghost before = service.world();
        let listed = service.panes();
        let ghost middle = service.world();
        let ghost seen = presentations_result(listed);
        assert(presentation_run(before, middle, seen));
        let presentation = match listed {
            Ok(presentation) => presentation,
            Err(error) => {
                return Err(error);
            },
        };
        let published = self.publish(&mut service.panes, &presentation);
        match published {
            Ok(changed) => Ok(changed),
            Err(message) => Err(BindingError::Directory(message)),
        }
    }
}

/// A presentation of the live panes, and the publication of it.
pub open spec fn sync_run(
    published: Map<Seq<char>, Seq<char>>,
    before: World,
    published_after: Map<Seq<char>, Seq<char>>,
    after: World,
    result: Result<bool, BindingFault>,
) -> bool {
    exists|middle: World, seen: Result<Seq<PresentationView>, BindingFault>|
        {
            &&& #[trigger] presentation_run(before, middle, seen)
            &&& match seen {
                Err(fault) => {
                    &&& published_after == published
                    &&& after == middle
                    &&& result == Err::<bool, BindingFault>(fault)
                },
                Ok(rows) => {
                    &&& after.store == middle.store
                    &&& match result {
                        Ok(changed) => publish_run(
                            published,
                            middle.panes,
                            published_after,
                            after.panes,
                            rows,
                            Ok(changed),
                        ),
                        Err(BindingFault::Directory(message)) => publish_run(
                            published,
                            middle.panes,
                            published_after,
                            after.panes,
                            rows,
                            Err(message),
                        ),
                        Err(_) => false,
                    }
                },
            }
        }
}

// ---------------------------------------------------------------------------
// Laws
// ---------------------------------------------------------------------------

/// No pane is presented twice.
pub open spec fn rows_differ(rows: Seq<PresentationView>) -> bool {
    forall|i: int, j: int|
        0 <= i < j < rows.len() ==> (#[trigger] rows[i]).pane_id != (#[trigger] rows[j]).pane_id
}

/// A publication that came to its end shows every row.
pub proof fn lemma_publication_covers(
    published: Map<Seq<char>, Seq<char>>,
    calls: Seq<DirectoryCall>,
    rows: Seq<PresentationView>,
    log: Seq<DirectoryCall>,
)
    requires
        rows_differ(rows),
        progress_of(published, calls, rows, log).failure is None,
    ensures
        forall|i: int|
            0 <= i < rows.len() ==> is_published(
                progress_of(published, calls, rows, log).published,
                #[trigger] rows[i],
            ),
    decreases rows.len(),
{
    if rows.len() > 0 {
        let earlier = rows.drop_last();
        assert(forall|i: int| 0 <= i < earlier.len() ==> #[trigger] earlier[i] == rows[i]);
        lemma_publication_covers(published, calls, earlier, log);
        assert forall|i: int| 0 <= i < rows.len() implies is_published(
            progress_of(published, calls, rows, log).published,
            #[trigger] rows[i],
        ) by {
            if i < earlier.len() {
                assert(is_published(
                    progress_of(published, calls, earlier, log).published,
                    earlier[i],
                ));
                assert(rows[i].pane_id != rows[rows.len() - 1].pane_id);
            }
        }
    }
}

proof fn lemma_nothing_to_publish(
    published: Map<Seq<char>, Seq<char>>,
    calls: Seq<DirectoryCall>,
    rows: Seq<PresentationView>,
    log: Seq<DirectoryCall>,
)
    requires
        forall|i: int| 0 <= i < rows.len() ==> is_published(published, #[trigger] rows[i]),
    ensures
        progress_of(published, calls, rows, log) == (Progress {
            published,
            calls,
            changed: false,
            failure: None,
        }),
    decreases rows.len(),
{
    if rows.len() > 0 {
        let earlier = rows.drop_last();
        assert forall|i: int| 0 <= i < earlier.len() implies is_published(
            published,
            #[trigger] earlier[i],
        ) by {
            assert(earlier[i] == rows[i]);
        }
        lemma_nothing_to_publish(published, calls, earlier, log);
        assert(is_published(published, rows[rows.len() - 1]));
    }
}

/// Tokens are published once: after a publication that came to its end, the
/// same presentation is not published again, whether the panes took the tokens
/// or had closed.
pub proof fn law_tokens_are_published_once(
    published: Map<Seq<char>, Seq<char>>,
    calls: Seq<DirectoryCall>,
    published_after: Map<Seq<char>, Seq<char>>,
    calls_after: Seq<DirectoryCall>,
    rows: Seq<PresentationView>,
    changed: bool,
    published_later: Map<Seq<char>, Seq<char>>,
    calls_later: Seq<DirectoryCall>,
    result: Result<bool, Seq<char>>,
)
    requires
        rows_differ(rows),
        publish_run(published, calls, published_after, calls_after, rows, Ok(changed)),
        publish_run(published_after, calls_after, published_later, calls_later, rows, result),
    ensures
        calls_later == calls_after,
        result == Ok::<bool, Seq<char>>(false),
{
    lemma_publication_covers(still_published(published, rows), calls, rows, calls_after);
    let kept = still_published(published_after, rows);
    assert forall|i: int| 0 <= i < rows.len() implies is_published(kept, #[trigger] rows[i]) by {
        assert(is_published(published_after, rows[i]));
        assert(live_panes(rows).contains(rows[i].pane_id));
    }
    lemma_nothing_to_publish(kept, calls_after, rows, calls_later);
}

/// Showing the plan of the moment changes nothing: there is at most one load
/// and one listing, and nothing else.
pub proof fn law_plan_changes_nothing(
    before: World,
    after: World,
    display: DisplayView,
    result: Result<PlanView, TickFault>,
)
    requires
        plan_run(before, after, display, result),
    ensures
        after.store == before.store.push(StoreCall::Load(before.loading(after))),
        after.panes == before.panes || after.panes == before.panes.push(
            DirectoryCall::Panes(before.listing(after)),
        ),
{
    assert(before.stored(StoreCall::Load(before.loading(after))).listing(after)
        == before.listing(after));
}

} // verus!
