//! What holds over any history of calls: of the status writes, of the plugin
//! feed, of the sidebar tokens, of the key presses and of the pane cache.

use vstd::prelude::*;

use crate::action::{confirms, PendingView};
use crate::binding::{BindingFault, PaneView};
use crate::config::ConfirmView;
use crate::hid::{
    new_sink, plan_slots, sent_treatments, sink_run, SinkView, SnapshotView, Status, Treatment,
    WriteFault, WriterCall, DISCONNECTED_RETRY_DELAY,
};
use crate::navigation::{
    focused_in, law_keys_are_sent_only_to_confirm, press_run, press_step,
    ActivationView, MILLISECOND,
};
use crate::pane_cache::{applied, PaneEventView};
use crate::plugin::{mailbox_fault, new_feed, queue_run, FeedView, Mailbox, QueuedView};
use crate::presentation::{
    is_published, live_panes, progress_of, publish_run, rows_differ, still_published,
    Progress,
};
use crate::render::{same_plan, PlanView};
use crate::service::{pane_for_key_run, DirectoryCall, PresentationTokenWrite, World};
use crate::status::PresentationView;

verus! {

// ---------------------------------------------------------------------------
// Status writes
// ---------------------------------------------------------------------------

/// A history of passes over a new sink: what it remembers and what was written
/// before each pass and after the last, and what each pass was given and gave.
pub struct SinkHistory {
    pub states: Seq<SinkView>,
    pub calls: Seq<Seq<WriterCall>>,
    pub plans: Seq<PlanView>,
    pub moments: Seq<u128>,
    pub results: Seq<Result<bool, WriteFault>>,
}

impl SinkHistory {
    /// The number of passes.
    pub open spec fn passes(self) -> nat {
        self.plans.len()
    }

    /// A step of the history is a pass over the sink.
    pub open spec fn is_pass(self, pass: int) -> bool {
        &&& self.moments[pass] + DISCONNECTED_RETRY_DELAY <= u128::MAX
        &&& sink_run(
            self.states[pass],
            self.calls[pass],
            self.states[pass + 1],
            self.calls[pass + 1],
            self.plans[pass],
            self.moments[pass],
            self.results[pass],
        )
    }

    /// The history starts with a new sink, and every step is a pass.
    pub open spec fn wf(self) -> bool {
        &&& self.states.len() == self.passes() + 1
        &&& self.calls.len() == self.passes() + 1
        &&& self.moments.len() == self.passes()
        &&& self.results.len() == self.passes()
        &&& self.states[0] == new_sink()
        &&& forall|pass: int| 0 <= pass < self.passes() ==> #[trigger] self.is_pass(pass)
    }

    /// A pass wrote a snapshot, successfully or not.
    pub open spec fn wrote(self, pass: int) -> bool {
        self.calls[pass + 1].len() > self.calls[pass].len()
    }

    /// What a pass that wrote has written, and the answer.
    pub open spec fn write(self, pass: int) -> WriterCall {
        self.calls[pass + 1].last()
    }

    /// The number of writes before `end` that succeeded.
    pub open spec fn successes(self, end: int) -> nat
        decreases end,
    {
        if end <= 0 {
            0
        } else if self.wrote(end - 1) && self.write(end - 1).answer is Ok {
            self.successes(end - 1) + 1
        } else {
            self.successes(end - 1)
        }
    }

    /// What the latest successful write before `end` has shown.
    pub open spec fn shown(self, end: int) -> Option<(Seq<Status>, Seq<Treatment>)>
        decreases end,
    {
        if end <= 0 {
            None
        } else if self.wrote(end - 1) && self.write(end - 1).answer is Ok {
            Some((self.write(end - 1).snapshot.slots, self.write(end - 1).snapshot.treatments))
        } else {
            self.shown(end - 1)
        }
    }

    /// When the latest write before `end` was made, if it failed.
    pub open spec fn failed_at(self, end: int) -> Option<u128>
        decreases end,
    {
        if end <= 0 {
            None
        } else if self.wrote(end - 1) {
            match self.write(end - 1).answer {
                Ok(()) => None,
                Err(_) => Some(self.moments[end - 1]),
            }
        } else {
            self.failed_at(end - 1)
        }
    }
}

/// What a pass changes of what a sink remembers.
proof fn lemma_sink_pass(history: SinkHistory, pass: int)
    requires
        history.wf(),
        0 <= pass < history.passes(),
    ensures
        history.moments[pass] + DISCONNECTED_RETRY_DELAY <= u128::MAX,
        ({
            let before = history.states[pass];
            let after = history.states[pass + 1];
            let write = history.write(pass);
            if !history.wrote(pass) {
                after == before
            } else if write.answer is Ok {
                &&& after.last == Some((write.snapshot.slots, write.snapshot.treatments))
                &&& after.next_sequence == (before.next_sequence + 1) % 256
                &&& after.retry_after is None
            } else {
                &&& after.last == before.last
                &&& after.next_sequence == before.next_sequence
                &&& after.retry_after == Some(
                    (history.moments[pass] + DISCONNECTED_RETRY_DELAY) as u128,
                )
            }
        }),
{
    assert(history.is_pass(pass));
}

proof fn lemma_next_number(count: nat)
    ensures
        (count % 256 + 1) % 256 == (count + 1) % 256,
{
}

/// What a sink remembers, told from its writes.
proof fn lemma_sink_state(history: SinkHistory, end: int)
    requires
        history.wf(),
        0 <= end <= history.passes(),
    ensures
        history.states[end].next_sequence == history.successes(end) % 256,
        history.states[end].last == history.shown(end),
        match history.failed_at(end) {
            Some(moment) => {
                &&& moment + DISCONNECTED_RETRY_DELAY <= u128::MAX
                &&& history.states[end].retry_after == Some(
                    (moment + DISCONNECTED_RETRY_DELAY) as u128,
                )
            },
            None => history.states[end].retry_after is None,
        },
    decreases end,
{
    if end > 0 {
        lemma_sink_state(history, end - 1);
        lemma_sink_pass(history, end - 1);
        lemma_next_number(history.successes(end - 1));
    }
}

/// Over any history, a pass whose plan gives a snapshot waits, with `Ok(false)`
/// and no write, exactly when the latest successful write showed the same, or
/// the latest write failed and the retry delay since then has not passed.
/// Otherwise it writes once, and numbers the snapshot with the successful
/// writes so far, modulo 256. The answer of the write is its result.
pub proof fn law_status_writes(history: SinkHistory, pass: int)
    requires
        history.wf(),
        0 <= pass < history.passes(),
    ensures
        match plan_slots(history.plans[pass]) {
            Err(fault) => {
                &&& history.calls[pass + 1] == history.calls[pass]
                &&& history.results[pass] == Err::<bool, WriteFault>(
                    WriteFault::Failed(fault.message()),
                )
            },
            Ok(slots) => {
                let treatments = sent_treatments(history.plans[pass].treatments);
                let deferred = match history.failed_at(pass) {
                    Some(moment) => history.moments[pass] < moment + DISCONNECTED_RETRY_DELAY,
                    None => false,
                };
                if history.shown(pass) == Some((slots, treatments)) || deferred {
                    &&& history.calls[pass + 1] == history.calls[pass]
                    &&& history.results[pass] == Ok::<bool, WriteFault>(false)
                } else {
                    let answer = history.write(pass).answer;
                    let sequence = (history.successes(pass) % 256) as u8;
                    &&& history.calls[pass + 1] == history.calls[pass].push(
                        WriterCall {
                            snapshot: SnapshotView { sequence, slots, treatments },
                            answer,
                        },
                    )
                    &&& history.results[pass] == match answer {
                        Ok(()) => Ok::<bool, WriteFault>(true),
                        Err(fault) => Err::<bool, WriteFault>(fault),
                    }
                }
            },
        },
{
    lemma_sink_state(history, pass);
    assert(history.is_pass(pass));
}

// ---------------------------------------------------------------------------
// The plugin feed
// ---------------------------------------------------------------------------

/// A history of offers to a plugin whose mailbox was empty at first: the feed
/// and what the mailbox holds before each offer and after the last, and what
/// each offer was given and gave. A worker only reads the mailbox.
pub struct FeedHistory {
    pub feeds: Seq<FeedView>,
    pub held: Seq<Option<QueuedView>>,
    pub plans: Seq<PlanView>,
    pub mailboxes: Seq<Mailbox>,
    pub results: Seq<Result<bool, Seq<char>>>,
}

/// The `count`th sequence number. The numbers end at the largest.
pub open spec fn sequence_number(count: nat) -> u64 {
    if count <= u64::MAX {
        count as u64
    } else {
        u64::MAX
    }
}

impl FeedHistory {
    /// The number of offers.
    pub open spec fn offers(self) -> nat {
        self.plans.len()
    }

    /// A step of the history is an offer.
    pub open spec fn is_offer(self, offer: int) -> bool {
        queue_run(
            self.feeds[offer],
            self.held[offer],
            self.feeds[offer + 1],
            self.held[offer + 1],
            self.plans[offer],
            self.mailboxes[offer],
            self.results[offer],
        )
    }

    /// The history starts with a new feed, and every step is an offer.
    pub open spec fn wf(self) -> bool {
        &&& self.feeds.len() == self.offers() + 1
        &&& self.held.len() == self.offers() + 1
        &&& self.mailboxes.len() == self.offers()
        &&& self.results.len() == self.offers()
        &&& self.feeds[0] == new_feed()
        &&& self.held[0] is None
        &&& forall|offer: int| 0 <= offer < self.offers() ==> #[trigger] self.is_offer(offer)
    }

    /// The plans accepted before `end`, oldest first.
    pub open spec fn accepted(self, end: int) -> Seq<PlanView>
        decreases end,
    {
        if end <= 0 {
            Seq::empty()
        } else if self.results[end - 1] == Ok::<bool, Seq<char>>(true) {
            self.accepted(end - 1).push(self.plans[end - 1])
        } else {
            self.accepted(end - 1)
        }
    }

    /// What the mailbox holds when only the latest accepted plan is in it.
    pub open spec fn latest(self, end: int) -> Option<QueuedView> {
        let accepted = self.accepted(end);
        if accepted.len() == 0 {
            None
        } else {
            Some(
                QueuedView { sequence: sequence_number(accepted.len()), plan: accepted.last() },
            )
        }
    }
}

/// What a feed remembers, told from the plans that were accepted.
proof fn lemma_feed_state(history: FeedHistory, end: int)
    requires
        history.wf(),
        0 <= end <= history.offers(),
    ensures
        history.held[end] == history.latest(end),
        history.feeds[end].next_sequence == sequence_number(history.accepted(end).len() + 1),
        history.feeds[end].last_plan == match history.latest(end) {
            Some(queued) => Some(queued.plan),
            None => None,
        },
    decreases end,
{
    if end > 0 {
        lemma_feed_state(history, end - 1);
        assert(history.is_offer(end - 1));
        if history.results[end - 1] == Ok::<bool, Seq<char>>(true) {
            assert(history.accepted(end).last() == history.plans[end - 1]);
        }
    }
}

/// Over any history, accepted plans are numbered from one upwards, and the
/// mailbox holds the latest of them alone. An offer of a plan equal to it
/// leaves the mailbox as it is; another is accepted exactly when the mailbox
/// is open, and is otherwise refused with what is wrong with the mailbox.
pub proof fn law_plugin_feed(history: FeedHistory, offer: int)
    requires
        history.wf(),
        0 <= offer < history.offers(),
    ensures
        history.held[offer] == history.latest(offer),
        history.held[offer + 1] == history.latest(offer + 1),
        ({
            let accepted = history.accepted(offer);
            if accepted.len() > 0 && same_plan(accepted.last(), history.plans[offer]) {
                &&& history.results[offer] == Ok::<bool, Seq<char>>(false)
                &&& history.held[offer + 1] == history.held[offer]
            } else {
                match mailbox_fault(history.mailboxes[offer]) {
                    Some(message) => {
                        &&& history.results[offer] == Err::<bool, Seq<char>>(message)
                        &&& history.held[offer + 1] == history.held[offer]
                    },
                    None => {
                        &&& history.results[offer] == Ok::<bool, Seq<char>>(true)
                        &&& history.held[offer + 1] == Some(
                            QueuedView {
                                sequence: sequence_number(accepted.len() + 1),
                                plan: history.plans[offer],
                            },
                        )
                    },
                }
            }
        }),
{
    lemma_feed_state(history, offer);
    lemma_feed_state(history, offer + 1);
    assert(history.is_offer(offer));
}

// ---------------------------------------------------------------------------
// Sidebar tokens
// ---------------------------------------------------------------------------

/// The binding that the latest answered write for a pane has shown.
pub open spec fn latest_token(writes: Seq<DirectoryCall>, pane_id: Seq<char>) -> Option<Seq<char>>
    decreases writes.len(),
{
    if writes.len() == 0 {
        None
    } else {
        match writes.last() {
            DirectoryCall::WritePresentation(pane, binding, Ok(_)) if pane == pane_id => Some(
                binding,
            ),
            _ => latest_token(writes.drop_last(), pane_id),
        }
    }
}

/// One publication: the calls of the directory before and after it, the rows
/// that it presents, and its result.
pub struct Publication {
    pub calls: Seq<DirectoryCall>,
    pub calls_after: Seq<DirectoryCall>,
    pub rows: Seq<PresentationView>,
    pub result: Result<bool, Seq<char>>,
}

impl Publication {
    /// The writes that the publication made.
    pub open spec fn writes(self) -> Seq<DirectoryCall> {
        self.calls_after.skip(self.calls.len() as int)
    }
}

/// A history of publications by a new publisher: what it remembers before each
/// of them and after the last. Other calls of the directory may lie between.
pub struct TokenHistory {
    pub published: Seq<Map<Seq<char>, Seq<char>>>,
    pub publications: Seq<Publication>,
}

impl TokenHistory {
    /// A step of the history is a publication in which no pane occurs twice.
    pub open spec fn is_publication(self, index: int) -> bool {
        let step = self.publications[index];
        &&& rows_differ(step.rows)
        &&& publish_run(
            self.published[index],
            step.calls,
            self.published[index + 1],
            step.calls_after,
            step.rows,
            step.result,
        )
    }

    /// The history starts with a new publisher, and every step is a publication.
    pub open spec fn wf(self) -> bool {
        &&& self.published.len() == self.publications.len() + 1
        &&& self.published[0] == Map::<Seq<char>, Seq<char>>::empty()
        &&& forall|index: int|
            0 <= index < self.publications.len() ==> #[trigger] self.is_publication(index)
    }

    /// The binding that the latest answered write for a pane has shown, out of
    /// the writes before `end` and since the pane was last absent.
    pub open spec fn token(self, end: int, pane_id: Seq<char>) -> Option<Seq<char>>
        decreases end,
    {
        if end <= 0 {
            None
        } else {
            let step = self.publications[end - 1];
            match latest_token(step.writes(), pane_id) {
                Some(binding) => Some(binding),
                None => if exists|i: int|
                    0 <= i < step.rows.len() && (#[trigger] step.rows[i]).pane_id == pane_id {
                    self.token(end - 1, pane_id)
                } else {
                    None
                },
            }
        }
    }

    /// The rows of a publication whose panes do not show their bindings yet.
    pub open spec fn due(self, index: int) -> Seq<PresentationView> {
        self.publications[index].rows.filter(
            |row: PresentationView| self.token(index, row.pane_id) != Some(row.binding),
        )
    }
}

/// A call writes the tokens of a row.
pub open spec fn writes_row(call: DirectoryCall, row: PresentationView) -> bool {
    call is WritePresentation && call->WritePresentation_0 == row.pane_id
        && call->WritePresentation_1 == row.binding
}

proof fn lemma_published_is_latest(
    start: Map<Seq<char>, Seq<char>>,
    calls: Seq<DirectoryCall>,
    rows: Seq<PresentationView>,
    log: Seq<DirectoryCall>,
    pane_id: Seq<char>,
)
    ensures
        ({
            let end = progress_of(start, calls, rows, log);
            &&& calls.is_prefix_of(end.calls)
            &&& match latest_token(end.calls.skip(calls.len() as int), pane_id) {
                Some(binding) => end.published.contains_key(pane_id) && end.published[pane_id]
                    == binding,
                None => {
                    &&& end.published.contains_key(pane_id) == start.contains_key(pane_id)
                    &&& start.contains_key(pane_id) ==> end.published[pane_id] == start[pane_id]
                },
            }
        }),
    decreases rows.len(),
{
    let count = calls.len() as int;
    if rows.len() == 0 {
        assert(calls.skip(count) =~= Seq::empty());
    } else {
        lemma_published_is_latest(start, calls, rows.drop_last(), log, pane_id);
        let earlier = progress_of(start, calls, rows.drop_last(), log);
        let end = progress_of(start, calls, rows, log);
        if earlier.failure is None && !is_published(earlier.published, rows.last()) {
            let writes = end.calls.skip(count);
            assert(writes.drop_last() =~= earlier.calls.skip(count));
            assert(writes.last() == end.calls.last());
        }
    }
}

/// Some write was taken by its pane.
pub open spec fn token_taken(writes: Seq<DirectoryCall>) -> bool {
    exists|i: int|
        0 <= i < writes.len() && (#[trigger] writes[i])->WritePresentation_2 == Ok::<
            PresentationTokenWrite,
            Seq<char>,
        >(PresentationTokenWrite::Written)
}

/// The calls from `start` on write the rows that are due, up to a failure.
spec fn due_written(end: Progress, start: int, due: Seq<PresentationView>) -> bool {
    let writes = end.calls.skip(start);
    &&& writes.len() <= due.len()
    &&& forall|i: int| 0 <= i < writes.len() ==> writes_row(#[trigger] writes[i], due[i])
    &&& end.failure is None ==> writes.len() == due.len()
    &&& forall|i: int|
        0 <= i < writes.len() ==> (#[trigger] writes[i])->WritePresentation_2 is Ok
            || end.failure is Some && i == writes.len() - 1
    &&& end.failure is Some ==> writes.len() > 0 && writes.last()->WritePresentation_2 == Err::<
        PresentationTokenWrite,
        Seq<char>,
    >(end.failure->0)
}

/// What is published of panes that are not presented stays.
spec fn others_unchanged(
    start: Map<Seq<char>, Seq<char>>,
    end: Map<Seq<char>, Seq<char>>,
    rows: Seq<PresentationView>,
) -> bool {
    forall|pane_id: Seq<char>|
        !live_panes(rows).contains(pane_id) ==> {
            &&& #[trigger] end.contains_key(pane_id) == start.contains_key(pane_id)
            &&& start.contains_key(pane_id) ==> end[pane_id] == start[pane_id]
        }
}

proof fn lemma_due_are_written(
    start: Map<Seq<char>, Seq<char>>,
    calls: Seq<DirectoryCall>,
    rows: Seq<PresentationView>,
    log: Seq<DirectoryCall>,
    is_due: spec_fn(PresentationView) -> bool,
)
    requires
        rows_differ(rows),
        forall|i: int|
            0 <= i < rows.len() ==> is_due(#[trigger] rows[i]) == !is_published(start, rows[i]),
    ensures
        calls.is_prefix_of(progress_of(start, calls, rows, log).calls),
        due_written(progress_of(start, calls, rows, log), calls.len() as int, rows.filter(is_due)),
        progress_of(start, calls, rows, log).changed <==> token_taken(
            progress_of(start, calls, rows, log).calls.skip(calls.len() as int),
        ),
        others_unchanged(start, progress_of(start, calls, rows, log).published, rows),
    decreases rows.len(),
{
    reveal(Seq::filter);
    let count = calls.len() as int;
    let end = progress_of(start, calls, rows, log);
    let writes = end.calls.skip(count);
    if rows.len() == 0 {
        assert(writes =~= Seq::empty());
    } else {
        let front = rows.drop_last();
        let row = rows.last();
        assert forall|i: int| 0 <= i < front.len() implies is_due(#[trigger] front[i])
            == !is_published(start, front[i]) by {
            assert(front[i] == rows[i]);
        }
        assert forall|i: int, j: int| 0 <= i < j < front.len() implies (
        #[trigger] front[i]).pane_id != (#[trigger] front[j]).pane_id by {
            assert(front[i] == rows[i] && front[j] == rows[j]);
        }
        lemma_due_are_written(start, calls, front, log, is_due);
        let earlier = progress_of(start, calls, front, log);
        let done = earlier.calls.skip(count);
        assert(!live_panes(front).contains(row.pane_id)) by {
            if live_panes(front).contains(row.pane_id) {
                let i = choose|i: int| 0 <= i < front.len() && (
                #[trigger] front[i]).pane_id == row.pane_id;
                assert(rows[i].pane_id == rows[rows.len() - 1].pane_id);
            }
        }
        assert(earlier.published.contains_key(row.pane_id) == start.contains_key(row.pane_id));
        assert(is_published(earlier.published, row) == is_published(start, row));
        assert(is_due(rows[rows.len() - 1]) == !is_published(start, row));
        assert forall|pane_id: Seq<char>| !live_panes(rows).contains(pane_id) implies {
            &&& #[trigger] end.published.contains_key(pane_id) == start.contains_key(pane_id)
            &&& start.contains_key(pane_id) ==> end.published[pane_id] == start[pane_id]
        } by {
            assert(rows[rows.len() - 1].pane_id == row.pane_id);
            if live_panes(front).contains(pane_id) {
                let i = choose|i: int| 0 <= i < front.len() && (
                #[trigger] front[i]).pane_id == pane_id;
                assert(rows[i].pane_id == pane_id);
            }
            assert(earlier.published.contains_key(pane_id) == start.contains_key(pane_id));
        }
        let due_before = front.filter(is_due);
        let due = rows.filter(is_due);
        if earlier.failure is None && !is_published(earlier.published, row) {
            assert(due == due_before.push(row));
            assert(writes =~= done.push(end.calls.last()));
            assert(forall|i: int| 0 <= i < done.len() ==> #[trigger] writes[i] == done[i]);
            assert(writes[done.len() as int] == end.calls.last());
            if end.changed {
                if earlier.changed {
                    let i = choose|i: int|
                        0 <= i < done.len() && (#[trigger] done[i])->WritePresentation_2 == Ok::<
                            PresentationTokenWrite,
                            Seq<char>,
                        >(PresentationTokenWrite::Written);
                    assert(writes[i] == done[i]);
                } else {
                    assert(writes[done.len() as int]->WritePresentation_2 == Ok::<
                        PresentationTokenWrite,
                        Seq<char>,
                    >(PresentationTokenWrite::Written));
                }
            }
        } else {
            assert(writes == done);
            assert(forall|i: int| 0 <= i < done.len() ==> #[trigger] due[i] == due_before[i]);
        }
    }
}

/// What a publisher remembers is what the latest answered writes have shown.
proof fn lemma_publisher_state(history: TokenHistory, end: int, pane_id: Seq<char>)
    requires
        history.wf(),
        0 <= end <= history.publications.len(),
    ensures
        history.token(end, pane_id) == if history.published[end].contains_key(pane_id) {
            Some(history.published[end][pane_id])
        } else {
            None
        },
    decreases end,
{
    if end > 0 {
        lemma_publisher_state(history, end - 1, pane_id);
        assert(history.is_publication(end - 1));
        let step = history.publications[end - 1];
        lemma_published_is_latest(
            still_published(history.published[end - 1], step.rows),
            step.calls,
            step.rows,
            step.calls_after,
            pane_id,
        );
    }
}

/// Over any history in which no publication presents a pane twice, a
/// publication writes to the panes whose latest answered write, since the pane
/// was last absent, showed another binding, or that have none: once each, in
/// order, up to the first write that fails. Where none fails it returns whether
/// any write was taken, else that failure.
pub proof fn law_sidebar_tokens(history: TokenHistory, index: int)
    requires
        history.wf(),
        0 <= index < history.publications.len(),
    ensures
        ({
            let step = history.publications[index];
            let writes = step.writes();
            let due = history.due(index);
            &&& step.calls_after == step.calls + writes
            &&& writes.len() <= due.len()
            &&& forall|i: int| 0 <= i < writes.len() ==> writes_row(#[trigger] writes[i], due[i])
            &&& forall|i: int|
                0 <= i < writes.len() ==> (#[trigger] writes[i])->WritePresentation_2 is Ok
                    || step.result is Err && i == writes.len() - 1
            &&& match step.result {
                Ok(changed) => {
                    &&& writes.len() == due.len()
                    &&& changed <==> token_taken(writes)
                },
                Err(message) => writes.len() > 0 && writes.last()->WritePresentation_2 == Err::<
                    PresentationTokenWrite,
                    Seq<char>,
                >(message),
            }
        }),
{
    assert(history.is_publication(index));
    let step = history.publications[index];
    let published = history.published[index];
    let start = still_published(published, step.rows);
    let is_due = |row: PresentationView| history.token(index, row.pane_id) != Some(row.binding);
    assert forall|i: int| 0 <= i < step.rows.len() implies is_due(#[trigger] step.rows[i])
        == !is_published(start, step.rows[i]) by {
        let row = step.rows[i];
        lemma_publisher_state(history, index, row.pane_id);
        assert(live_panes(step.rows).contains(row.pane_id));
    }
    lemma_due_are_written(start, step.calls, step.rows, step.calls_after, is_due);
    assert(history.due(index) == step.rows.filter(is_due));
    assert(step.calls_after =~= step.calls + step.writes());
}

// ---------------------------------------------------------------------------
// Key presses
// ---------------------------------------------------------------------------

/// One press: the stores before it, after the bound pane was looked up, and at
/// its end; the pane that was found; and what became of the press.
pub struct Press {
    pub before: World,
    pub middle: World,
    pub after: World,
    pub raised: Seq<Result<(), Seq<char>>>,
    pub raised_after: Seq<Result<(), Seq<char>>>,
    pub key: Seq<char>,
    pub target: Result<Seq<char>, BindingFault>,
    pub now: int,
    pub result: ActivationView,
}

impl Press {
    /// The pane that a press that focused one has focused.
    pub open spec fn focused_pane(self) -> Seq<char> {
        self.after.panes.last()->Focus_0
    }

    /// A press that focuses a pane looks it up twice, first to see whether the
    /// press confirms. It is steady when both found the same pane.
    pub open spec fn is_steady(self) -> bool {
        self.result is Focused ==> self.target == Ok::<Seq<char>, BindingFault>(
            self.focused_pane(),
        )
    }

    /// The press sent keys in the call at `index`.
    pub open spec fn sends(self, index: int) -> bool {
        self.before.panes.len() <= index < self.after.panes.len() && self.after.panes[index]
            is SendKeys
    }
}

/// A history of presses under one configuration: what is armed before each of
/// them and after the last. Anything may happen to the panes in between.
pub struct PressHistory {
    pub confirm: ConfirmView,
    pub pendings: Seq<Option<PendingView>>,
    pub presses: Seq<Press>,
}

impl PressHistory {
    /// A step of the history is a press.
    pub open spec fn is_press(self, index: int) -> bool {
        let press = self.presses[index];
        &&& pane_for_key_run(press.before, press.middle, press.key, press.target)
        &&& press_step(
            press.middle,
            press.raised,
            self.pendings[index],
            press.after,
            press.raised_after,
            self.pendings[index + 1],
            press.key,
            press.target,
            self.confirm,
            press.now,
            press.result,
        )
    }

    /// Nothing is armed at first, and every step is a press.
    pub open spec fn wf(self) -> bool {
        &&& self.pendings.len() == self.presses.len() + 1
        &&& self.pendings[0] is None
        &&& forall|index: int| 0 <= index < self.presses.len() ==> #[trigger] self.is_press(index)
    }

    /// The length of the confirmation window.
    pub open spec fn window(self) -> int {
        MILLISECOND * self.confirm.repeat_press_ms
    }

    /// A press that focused the pane looked up for the key, and that no press
    /// before `end` has used or replaced.
    pub open spec fn armed_by(self, earlier: int, key: Seq<char>, pane_id: Seq<char>, end: int) -> bool {
        &&& 0 <= earlier < end
        &&& self.presses[earlier].result is Focused
        &&& self.presses[earlier].key == key
        &&& self.presses[earlier].target == Ok::<Seq<char>, BindingFault>(pane_id)
        &&& forall|later: int|
            earlier < later < end ==> {
                ||| (#[trigger] self.presses[later]).result is FocusFailed
                ||| self.presses[later].result is Focused && self.presses[later].target is Err
            }
    }
}

/// What is armed was armed by a press that no later one has used or replaced.
proof fn lemma_armed(history: PressHistory, end: int) -> (earlier: int)
    requires
        history.wf(),
        0 <= end <= history.presses.len(),
        history.pendings[end] is Some,
    ensures
        history.confirm.enabled,
        history.armed_by(
            earlier,
            history.pendings[end]->0.key,
            history.pendings[end]->0.pane_id,
            end,
        ),
        history.pendings[end]->0.expires_at == history.presses[earlier].now + history.window(),
    decreases end,
{
    let latest = end - 1;
    let press = history.presses[latest];
    assert(history.is_press(latest));
    if press.result is Focused && press.target is Ok && history.confirm.enabled {
        latest
    } else {
        let earlier = lemma_armed(history, latest);
        assert(press.result is FocusFailed || press.result is Focused && press.target is Err);
        earlier
    }
}

/// Over any history of presses, keys are sent only where confirmation is
/// enabled: the configured keys, to the pane that is bound to the pressed key
/// and that a listing taken just before shows as focused. An earlier press of
/// the same key, for the same pane and no longer ago than the window, focused
/// that pane, and no press in between has confirmed or armed another one.
pub proof fn law_keys_follow_a_focus(history: PressHistory, index: int, call: int) -> (earlier: int)
    requires
        history.wf(),
        0 <= index < history.presses.len(),
        history.presses[index].sends(call),
    ensures
        ({
            let press = history.presses[index];
            let pane_id = press.after.panes[call]->SendKeys_0;
            &&& history.confirm.enabled
            &&& press.after.panes[call]->SendKeys_1 == history.confirm.keys
            &&& press.target == Ok::<Seq<char>, BindingFault>(pane_id)
            &&& press.before.panes.len() < call && press.after.panes[call - 1] is Panes
            &&& focused_in(press.after.panes[call - 1]->Panes_0, pane_id)
            &&& history.armed_by(earlier, press.key, pane_id, index)
            &&& press.now - history.presses[earlier].now <= history.window()
        }),
{
    let press = history.presses[index];
    let pending = history.pendings[index];
    let pending_after = history.pendings[index + 1];
    assert(history.is_press(index));
    assert(press_run(
        press.before,
        press.raised,
        pending,
        press.after,
        press.raised_after,
        pending_after,
        press.key,
        history.confirm,
        press.now,
        press.result,
    ));
    law_keys_are_sent_only_to_confirm(
        press.before,
        press.raised,
        pending,
        press.after,
        press.raised_after,
        pending_after,
        press.key,
        history.confirm,
        press.now,
        press.result,
        call,
    );
    lemma_armed(history, index)
}

/// Over any history, keys are sent only by a press that repeats the latest
/// successful focus press: that one was of the same key, focused the same pane
/// no longer ago than the window, and every press since then failed to focus,
/// so that none has confirmed. The presses from that one on must be steady.
pub proof fn law_keys_repeat_the_latest_focus(history: PressHistory, index: int, call: int) -> (earlier:
    int)
    requires
        history.wf(),
        0 <= index < history.presses.len(),
        history.presses[index].sends(call),
    ensures
        0 <= earlier < index,
        ({
            let press = history.presses[index];
            let focus = history.presses[earlier];
            &&& focus.result is Focused
            &&& focus.key == press.key
            &&& press.now - focus.now <= history.window()
            &&& focus.is_steady() ==> focus.focused_pane() == press.after.panes[call]->SendKeys_0
        }),
        forall|later: int|
            earlier < later < index && (#[trigger] history.presses[later]).is_steady()
                ==> history.presses[later].result is FocusFailed,
{
    law_keys_follow_a_focus(history, index, call)
}

/// Over any history, a press confirms, and sends the keys once, exactly when
/// confirmation is enabled, the press finds the pane of what is armed, it is of
/// the key that armed it, the pane is focused and the window has not passed.
pub proof fn law_press_confirms(history: PressHistory, index: int)
    requires
        history.wf(),
        0 <= index < history.presses.len(),
    ensures
        ({
            let press = history.presses[index];
            let listing = press.middle.listing(press.after);
            let confirmed = press.result is Confirmed || press.result is ConfirmFailed;
            &&& confirmed <==> {
                &&& history.confirm.enabled
                &&& press.target is Ok
                &&& confirms(
                    history.pendings[index],
                    press.key,
                    press.target->Ok_0,
                    focused_in(listing, press.target->Ok_0),
                    press.now,
                )
            }
            &&& confirmed ==> {
                &&& press.after.panes.last() is SendKeys
                &&& press.after.panes.last()->SendKeys_0 == press.target->Ok_0
                &&& press.after.panes.last()->SendKeys_1 == history.confirm.keys
                &&& history.pendings[index + 1] is None
            }
        }),
{
    assert(history.is_press(index));
}

// ---------------------------------------------------------------------------
// The pane cache
// ---------------------------------------------------------------------------

/// A call of a cache. A listing comes with its answer.
pub enum CacheCall {
    Replace(Seq<PaneView>),
    Apply(PaneEventView),
    Panes(Seq<PaneView>),
}

/// A history of the calls that any number of holders make of one cache, in the
/// order in which they get hold of it: the panes before each call and after the
/// last, each call, and who made it.
pub struct CacheHistory {
    pub snapshots: Seq<Seq<PaneView>>,
    pub calls: Seq<CacheCall>,
    pub holders: Seq<int>,
}

impl CacheHistory {
    /// A step of the history is a call of the cache.
    pub open spec fn is_call(self, index: int) -> bool {
        let before = self.snapshots[index];
        let after = self.snapshots[index + 1];
        match self.calls[index] {
            CacheCall::Replace(panes) => after == panes,
            CacheCall::Apply(event) => after == applied(before, event),
            CacheCall::Panes(answer) => after == before && answer == before,
        }
    }

    /// Every step is a call of the cache.
    pub open spec fn wf(self) -> bool {
        &&& self.snapshots.len() == self.calls.len() + 1
        &&& self.holders.len() == self.calls.len()
        &&& forall|index: int| 0 <= index < self.calls.len() ==> #[trigger] self.is_call(index)
    }
}

/// All holders of a cache share one snapshot: whoever replaced it, and whoever
/// lists the panes, the listing gives the replacement as it was given, where
/// nothing was written in between. Nothing of the older panes is left, however
/// recent they were.
pub proof fn law_holders_share_one_snapshot(
    history: CacheHistory,
    replaced: int,
    listed: int,
    panes: Seq<PaneView>,
    answer: Seq<PaneView>,
)
    requires
        history.wf(),
        0 <= replaced < listed < history.calls.len(),
        history.calls[replaced] == CacheCall::Replace(panes),
        history.calls[listed] == CacheCall::Panes(answer),
        forall|index: int|
            replaced < index < listed ==> (#[trigger] history.calls[index]) is Panes,
    ensures
        answer == panes,
{
    assert(history.is_call(listed));
    lemma_snapshot_stays(history, replaced, listed, panes);
}

proof fn lemma_snapshot_stays(
    history: CacheHistory,
    replaced: int,
    end: int,
    panes: Seq<PaneView>,
)
    requires
        history.wf(),
        0 <= replaced < end <= history.calls.len(),
        history.calls[replaced] == CacheCall::Replace(panes),
        forall|index: int| replaced < index < end ==> (#[trigger] history.calls[index]) is Panes,
    ensures
        history.snapshots[end] == panes,
    decreases end,
{
    assert(history.is_call(end - 1));
    if replaced < end - 1 {
        lemma_snapshot_stays(history, replaced, end - 1, panes);
        assert(history.calls[end - 1] is Panes);
    }
}

} // verus!
