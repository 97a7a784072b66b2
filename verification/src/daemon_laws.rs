//! What the daemon's parts come to, told from their inputs and results: the
//! pane cache, whole requests, display plugins and the keyboard's endpoint.

use vstd::prelude::*;

use crate::binding::{BindingFault, BindingView, PaneView};
use crate::control::{dispatch_run, wanted_release, ReplyView, RequestView};
use crate::display::{
    display_outcome, failure_of, reports, FailureView, PublishOutcome, SetView,
};
use crate::herdr::{meaning, payload_of};
use crate::hid::{status_positions, Device, WriteFault};
use crate::pane_cache::{applied, upserted, PaneEventView};
use crate::plugin::{
    advanced, after_events, asked, expected, orderly, reported_outcome, ActionView, EventView,
    Stage, SupervisorView, WorkerStatus,
};
use crate::presentation::{lemma_publication_covers, publish_run, still_published, sync_run};
use crate::request_laws::{
    has_entry, is_taken, law_bind_request, law_presentation, law_release_key_request,
    law_release_request, law_status_report, saves_can_be_loaded,
};
use crate::service::{presentation_run, status_run, World};
use crate::status::{PresentationView, RowView};

verus! {

// ---------------------------------------------------------------------------
// The pane cache
// ---------------------------------------------------------------------------

/// A report of a pane that is not cached puts it last. A report of a cached one
/// takes its place, the first where several have the identifier, unless the
/// report has a revision and an older one. Every other pane stays where it is.
pub proof fn law_report_updates_one_pane(panes: Seq<PaneView>, pane: PaneView)
    ensures
        ({
            let next = applied(panes, PaneEventView::Upsert(pane));
            if exists|i: int| 0 <= i < panes.len() && (#[trigger] panes[i]).pane_id == pane.pane_id {
                &&& next.len() == panes.len()
                &&& forall|i: int|
                    0 <= i < panes.len() ==> {
                        let first = panes[i].pane_id == pane.pane_id && forall|j: int|
                            0 <= j < i ==> (#[trigger] panes[j]).pane_id != pane.pane_id;
                        #[trigger] next[i] == if first && (pane.revision == 0 || panes[i].revision
                            <= pane.revision) {
                            pane
                        } else {
                            panes[i]
                        }
                    }
            } else {
                next == panes.push(pane)
            }
        }),
{
    lemma_upserted(panes, pane);
}

proof fn lemma_upserted(panes: Seq<PaneView>, pane: PaneView)
    ensures
        ({
            let next = upserted(panes, pane);
            if exists|i: int| 0 <= i < panes.len() && (#[trigger] panes[i]).pane_id == pane.pane_id {
                &&& next.len() == panes.len()
                &&& forall|i: int|
                    0 <= i < panes.len() ==> {
                        let first = panes[i].pane_id == pane.pane_id && forall|j: int|
                            0 <= j < i ==> (#[trigger] panes[j]).pane_id != pane.pane_id;
                        #[trigger] next[i] == if first && (pane.revision == 0 || panes[i].revision
                            <= pane.revision) {
                            pane
                        } else {
                            panes[i]
                        }
                    }
            } else {
                next == panes.push(pane)
            }
        }),
    decreases panes.len(),
{
    let next = upserted(panes, pane);
    if panes.len() == 0 {
        assert(next =~= panes.push(pane));
    } else if panes[0].pane_id == pane.pane_id {
        assert forall|i: int| 0 <= i < panes.len() implies {
            let first = panes[i].pane_id == pane.pane_id && forall|j: int|
                0 <= j < i ==> (#[trigger] panes[j]).pane_id != pane.pane_id;
            #[trigger] next[i] == if first && (pane.revision == 0 || panes[i].revision
                <= pane.revision) {
                pane
            } else {
                panes[i]
            }
        } by {
            if i > 0 {
                assert(panes[0].pane_id == pane.pane_id);
            }
        }
    } else {
        let rest = panes.drop_first();
        let inner = upserted(rest, pane);
        lemma_upserted(rest, pane);
        if exists|i: int| 0 <= i < panes.len() && (#[trigger] panes[i]).pane_id == pane.pane_id {
            let k = choose|k: int|
                0 <= k < panes.len() && (#[trigger] panes[k]).pane_id == pane.pane_id;
            assert(rest[k - 1].pane_id == pane.pane_id);
            assert forall|i: int| 0 <= i < panes.len() implies {
                let first = panes[i].pane_id == pane.pane_id && forall|j: int|
                    0 <= j < i ==> (#[trigger] panes[j]).pane_id != pane.pane_id;
                #[trigger] next[i] == if first && (pane.revision == 0 || panes[i].revision
                    <= pane.revision) {
                    pane
                } else {
                    panes[i]
                }
            } by {
                if i > 0 {
                    assert(next[i] == inner[i - 1]);
                    assert(rest[i - 1] == panes[i]);
                    let here = forall|j: int|
                        0 <= j < i ==> (#[trigger] panes[j]).pane_id != pane.pane_id;
                    let there = forall|j: int|
                        0 <= j < i - 1 ==> (#[trigger] rest[j]).pane_id != pane.pane_id;
                    if there {
                        assert forall|j: int| 0 <= j < i implies (
                        #[trigger] panes[j]).pane_id != pane.pane_id by {
                            if j > 0 {
                                assert(rest[j - 1] == panes[j]);
                            }
                        }
                    }
                    if here {
                        assert forall|j: int| 0 <= j < i - 1 implies (
                        #[trigger] rest[j]).pane_id != pane.pane_id by {
                            assert(rest[j] == panes[j + 1]);
                        }
                    }
                }
            }
        } else {
            assert forall|j: int| 0 <= j < rest.len() implies (
            #[trigger] rest[j]).pane_id != pane.pane_id by {
                assert(rest[j] == panes[j + 1]);
            }
            assert(next =~= panes.push(pane));
        }
    }
}

/// The panes without those of an identifier, in their order.
pub open spec fn is_without(
    next: Seq<PaneView>,
    panes: Seq<PaneView>,
    pane_id: Seq<char>,
) -> bool {
    &&& forall|i: int| 0 <= i < next.len() ==> (#[trigger] next[i]).pane_id != pane_id
    &&& forall|i: int| 0 <= i < next.len() ==> panes.contains(#[trigger] next[i])
    &&& forall|i: int|
        0 <= i < panes.len() && (#[trigger] panes[i]).pane_id != pane_id ==> next.contains(panes[i])
    &&& forall|i: int, j: int|
        0 <= i < j < next.len() ==> stand_in_order(
            panes,
            #[trigger] next[i],
            #[trigger] next[j],
        )
}

/// One pane stands somewhere before another.
pub open spec fn stand_in_order(panes: Seq<PaneView>, first: PaneView, second: PaneView) -> bool {
    exists|p: int, q: int|
        0 <= p < q < panes.len() && #[trigger] panes[p] == first && #[trigger] panes[q] == second
}

/// A removal leaves exactly the panes with other identifiers, in their order.
pub proof fn law_removal_leaves_the_others(panes: Seq<PaneView>, pane_id: Seq<char>)
    ensures
        is_without(applied(panes, PaneEventView::Remove(pane_id)), panes, pane_id),
{
    let test = |pane: PaneView| pane.pane_id != pane_id;
    lemma_removed(panes, pane_id, test);
    assert(applied(panes, PaneEventView::Remove(pane_id)) == panes.filter(test));
}

proof fn lemma_removed(
    panes: Seq<PaneView>,
    pane_id: Seq<char>,
    test: spec_fn(PaneView) -> bool,
)
    requires
        test == (|pane: PaneView| pane.pane_id != pane_id),
    ensures
        is_without(panes.filter(test), panes, pane_id),
    decreases panes.len(),
{
    reveal(Seq::filter);
    if panes.len() > 0 {
        let rest = panes.drop_last();
        let last = panes.len() - 1;
        let inner = rest.filter(test);
        let next = panes.filter(test);
        lemma_removed(rest, pane_id, test);
        assert forall|i: int| 0 <= i < next.len() implies (
        #[trigger] next[i]).pane_id != pane_id && panes.contains(next[i]) by {
            if i < inner.len() {
                assert(next[i] == inner[i]);
                let k = choose|k: int| 0 <= k < rest.len() && rest[k] == inner[i];
                assert(panes[k] == next[i]);
            } else {
                assert(panes[last] == next[i]);
            }
        }
        assert forall|i: int|
            0 <= i < panes.len() && (#[trigger] panes[i]).pane_id != pane_id implies next.contains(
            panes[i],
        ) by {
            if i < last {
                assert(rest[i] == panes[i]);
                let k = choose|k: int| 0 <= k < inner.len() && inner[k] == rest[i];
                assert(next[k] == panes[i]);
            } else {
                assert(next[next.len() - 1] == panes[i]);
            }
        }
        assert forall|i: int, j: int| 0 <= i < j < next.len() implies stand_in_order(
            panes,
            #[trigger] next[i],
            #[trigger] next[j],
        ) by {
            assert(next[i] == inner[i]);
            if j < inner.len() {
                assert(next[j] == inner[j]);
                assert(stand_in_order(rest, inner[i], inner[j]));
                let (p, q) = choose|p: int, q: int|
                    0 <= p < q < rest.len() && #[trigger] rest[p] == inner[i]
                        && #[trigger] rest[q] == inner[j];
                assert(panes[p] == next[i] && panes[q] == next[j]);
            } else {
                let p = choose|p: int| 0 <= p < rest.len() && rest[p] == inner[i];
                assert(panes[p] == next[i] && panes[last] == next[j]);
            }
        }
    }
}

/// An event that a pane was created or has changed reports the pane that it
/// carries. One that a pane was closed or has exited removes the pane that it
/// names, or else the one that it carries. Any other event means nothing, and
/// one that lacks its pane is refused.
pub proof fn law_event_meaning(
    event_type: Seq<char>,
    pane: Option<PaneView>,
    pane_id: Option<Seq<char>>,
)
    ensures
        ({
            let changed = event_type == "pane_created"@ || event_type == "pane_updated"@;
            let gone = event_type == "pane_closed"@ || event_type == "pane_exited"@;
            match meaning(event_type, pane, pane_id) {
                Ok(Some(PaneEventView::Upsert(report))) => changed && pane == Some(report),
                Ok(Some(PaneEventView::Remove(removed))) => {
                    &&& gone
                    &&& pane_id is Some ==> removed == pane_id->0
                    &&& pane_id is None ==> pane is Some && removed == pane->0.pane_id
                },
                Ok(None) => !changed && !gone,
                Err(_) => pane is None && (changed || gone && pane_id is None),
            }
        }),
{
    reveal_strlit("pane_created");
    reveal_strlit("pane_updated");
    reveal_strlit("pane_closed");
    reveal_strlit("pane_exited");
    assert("pane_created"@.len() == 12 && "pane_updated"@.len() == 12 && "pane_closed"@.len() == 11
        && "pane_exited"@.len() == 11);
}

/// The payload of an event is what it carries as data; else its result; else
/// the event itself.
pub proof fn law_event_payload(
    data: Option<Seq<char>>,
    result: Option<Seq<char>>,
    value: Seq<char>,
)
    ensures
        data is Some ==> payload_of(data, result, value) == data->0,
        data is None && result is Some ==> payload_of(data, result, value) == result->0,
        data is None && result is None ==> payload_of(data, result, value) == value,
{
}

// ---------------------------------------------------------------------------
// Whole requests
// ---------------------------------------------------------------------------

/// A bind request that is granted leaves a saved ledger in which the key is the
/// pane's: the requested key, where one was requested.
pub proof fn law_bind_binds(
    before: World,
    after: World,
    pane_id: Seq<char>,
    key: Option<Seq<char>>,
    reply: ReplyView,
)
    requires
        dispatch_run(before, after, RequestView::Bind { pane_id, key }, Ok(reply)),
        pane_id.len() > 0,
    ensures
        reply is Bound,
        reply->Bound_0.pane_id == pane_id,
        key is Some ==> reply->Bound_0.key == key->0,
        after.store.len() > before.store.len(),
        after.store.last() is Save,
        after.store.last()->Save_1 is Ok,
        after.store.last()->Save_0.bindings.contains(
            BindingView { key: reply->Bound_0.key, pane_id },
        ),
        saves_can_be_loaded(before, after),
{
    law_bind_request(before, after, pane_id, key, Ok(reply->Bound_0));
    let entries = after.store.last()->Save_0.bindings;
    let entry = BindingView { key: reply->Bound_0.key, pane_id };
    if reply->Bound_0.changed {
        assert(entries.contains(entry));
    } else {
        law_unchanged_bind_was_saved(before, after, pane_id, key, reply);
    }
}

/// A bind that changes nothing has still saved the reconciled ledger.
proof fn law_unchanged_bind_was_saved(
    before: World,
    after: World,
    pane_id: Seq<char>,
    key: Option<Seq<char>>,
    reply: ReplyView,
)
    requires
        dispatch_run(before, after, RequestView::Bind { pane_id, key }, Ok(reply)),
        pane_id.len() > 0,
        !reply->Bound_0.changed,
    ensures
        after.store.last() is Save,
        after.store.last()->Save_1 is Ok,
        after.store.len() == before.store.len() + 2,
{
    law_bind_request(before, after, pane_id, key, Ok(reply->Bound_0));
    crate::request_laws::lemma_bind_saves(before, after, pane_id, key, Ok(reply->Bound_0));
}

/// A request to release a pane that is granted leaves a saved ledger without an
/// entry for the pane, and says whether there was one.
pub proof fn law_release_releases(
    before: World,
    after: World,
    pane_id: Seq<char>,
    reply: ReplyView,
)
    requires
        dispatch_run(before, after, RequestView::ReleasePane { pane_id }, Ok(reply)),
    ensures
        reply is ReleasedPane,
        reply->ReleasedPane_pane_id == pane_id,
        after.store.len() > before.store.len() + 1,
        reply->ReleasedPane_changed <==> has_entry(
            after.store[before.store.len() as int + 1]->Save_0.bindings,
            pane_id,
        ),
        !has_entry(after.store.last()->Save_0.bindings, pane_id),
        saves_can_be_loaded(before, after),
{
    law_release_request(before, after, pane_id, Ok(reply->ReleasedPane_changed));
    let next = after.store.last()->Save_0.bindings;
    if reply->ReleasedPane_changed && has_entry(next, pane_id) {
        let i = choose|i: int| 0 <= i < next.len() && (#[trigger] next[i]).pane_id == pane_id;
        assert(next.contains(next[i]));
    }
}

/// A request to release a key that is granted leaves a saved ledger without an
/// entry for the key, and hands back the pane that had it.
pub proof fn law_release_key_releases(
    before: World,
    after: World,
    key: Seq<char>,
    reply: ReplyView,
)
    requires
        dispatch_run(before, after, RequestView::ReleaseKey { key }, Ok(reply)),
    ensures
        reply is ReleasedKey,
        reply->key == key,
        reply->ReleasedKey_changed <==> reply->ReleasedKey_pane_id is Some,
        after.store.len() > before.store.len() + 1,
        reply->ReleasedKey_changed <==> is_taken(
            after.store[before.store.len() as int + 1]->Save_0.bindings,
            key,
        ),
        !is_taken(after.store.last()->Save_0.bindings, key),
        saves_can_be_loaded(before, after),
{
    law_release_key_request(before, after, key, Ok(reply->ReleasedKey_pane_id));
    let first = before.store.len() as int;
    let entries = after.store[first + 1]->Save_0.bindings;
    let next = after.store.last()->Save_0.bindings;
    crate::request_laws::lemma_release_key_saves(
        before,
        after,
        key,
        Ok(reply->ReleasedKey_pane_id),
    );
    if let Some(pane_id) = reply->ReleasedKey_pane_id {
        let entry = BindingView { key, pane_id };
        let k = choose|k: int| 0 <= k < entries.len() && entries[k] == entry;
        assert(entries[k].key == key);
        if is_taken(next, key) {
            let i = choose|i: int| 0 <= i < next.len() && (#[trigger] next[i]).key == key;
            assert(next.contains(next[i]));
            let j = choose|j: int| 0 <= j < entries.len() && entries[j] == next[i];
            assert(entries[j].key == entries[k].key);
            assert(j == k);
        }
    }
}

/// The answer to a status request: the rows of the ledger that was just saved,
/// and after that every live pane, presented under the ledger as it was loaded
/// then.
pub proof fn law_status_shows_bindings_and_panes(before: World, after: World, reply: ReplyView)
    requires
        dispatch_run(before, after, RequestView::Status, Ok(reply)),
    ensures
        reply is Status,
        exists|middle: World| #[trigger]
            status_run(before, middle, Ok(reply->bindings)) && presentation_run(
                middle,
                after,
                Ok(reply->panes),
            ),
        forall|r: int|
            0 <= r < reply->bindings.len() ==> (#[trigger] reply->bindings[r]).pane.pane_id
                == reply->bindings[r].binding.pane_id,
        after.panes.last() is Panes,
        after.panes.last()->Panes_0 is Ok,
        reply->panes.len() == after.panes.last()->Panes_0->Ok_0.len(),
        forall|i: int|
            0 <= i < reply->panes.len() ==> (#[trigger] reply->panes[i]).pane_id
                == after.panes.last()->Panes_0->Ok_0[i].pane_id,
{
    let (middle, rows) = choose|middle: World, rows: Result<Seq<RowView>, BindingFault>|
        {
            &&& #[trigger] status_run(before, middle, rows)
            &&& match rows {
                Err(fault) => after == middle && Ok::<ReplyView, BindingFault>(reply) == Err::<
                    ReplyView,
                    BindingFault,
                >(fault),
                Ok(bindings) => {
                    &&& reply is Status
                    &&& reply->bindings == bindings
                    &&& presentation_run(middle, after, Ok(reply->panes))
                },
            }
        };
    assert(rows == Ok::<Seq<RowView>, BindingFault>(reply->bindings));
    law_status_report(before, middle, reply->bindings);
    law_presentation(middle, after, reply->panes);
}

/// A command is about the pane that was named, or else the one that it runs in.
/// A release of a key is about no pane, so none may be named with it.
pub proof fn law_release_command(
    key: Option<Seq<char>>,
    explicit: Option<Seq<char>>,
    current: Option<Seq<char>>,
)
    ensures
        match wanted_release(key, explicit, current) {
            Ok(RequestView::ReleaseKey { key: wanted }) => key == Some(wanted) && explicit is None,
            Ok(RequestView::ReleasePane { pane_id }) => key is None && (explicit == Some(pane_id)
                || explicit is None && current == Some(pane_id)),
            Ok(_) => false,
            Err(_) => key is Some && explicit is Some || key is None && explicit is None
                && current is None,
        },
{
}

// ---------------------------------------------------------------------------
// Display plugins
// ---------------------------------------------------------------------------

/// The latest snapshot that a series of events brought.
pub open spec fn is_latest_snapshot(events: Seq<EventView>, at: int, sequence: u64) -> bool {
    &&& 0 <= at < events.len()
    &&& events[at] == EventView::Snapshot(sequence)
    &&& forall|later: int| at < later < events.len() ==> !((#[trigger] events[later]) is Snapshot)
}

proof fn lemma_pending(executable: Seq<char>, events: Seq<EventView>)
    ensures
        after_events(executable, events).executable == executable,
        (exists|at: int| #[trigger]
            is_latest_snapshot(events, at, after_events(executable, events).pending)) || (forall|
            i: int,
        |
            0 <= i < events.len() ==> !((#[trigger] events[i]) is Snapshot)),
    decreases events.len(),
{
    if events.len() > 0 {
        let earlier = events.drop_last();
        let last = events.len() - 1;
        lemma_pending(executable, earlier);
        let pending = after_events(executable, events).pending;
        if events[last] is Snapshot {
            assert(is_latest_snapshot(events, last, pending));
        } else if exists|at: int| #[trigger] is_latest_snapshot(earlier, at, pending) {
            let at = choose|at: int| #[trigger] is_latest_snapshot(earlier, at, pending);
            assert forall|later: int| at < later < events.len() implies !((
            #[trigger] events[later]) is Snapshot) by {
                if later < last {
                    assert(earlier[later] == events[later]);
                }
            }
            assert(events[at] == earlier[at]);
            assert(is_latest_snapshot(events, at, pending));
        } else {
            assert forall|i: int| 0 <= i < events.len() implies !((
            #[trigger] events[i]) is Snapshot) by {
                if i < last {
                    assert(earlier[i] == events[i]);
                }
            }
        }
    }
}

/// What a worker does in any orderly series of events. A child is started only
/// for a snapshot, greeted once it was started, and sent a snapshot once it was
/// greeted or a newer one came. A delivery is reported exactly when a snapshot
/// was written. A failure is reported with its cause, and stops a child that it
/// finds running. The daemon's end closes a running child and ends a worker
/// that has none.
pub proof fn law_worker_steps(supervisor: SupervisorView, event: EventView)
    requires
        expected(supervisor.stage, event),
    ensures
        ({
            let action = asked(supervisor, event);
            let next = advanced(supervisor, event).stage;
            &&& action is Spawn <==> supervisor.stage is Idle && event is Snapshot
            &&& action is Greet <==> supervisor.stage is Spawning && event is Done
            &&& action is Send <==> (supervisor.stage is Greeting && event is Done
                || supervisor.stage is Watching && event is Snapshot)
            &&& action == (ActionView::Watch { delivered: true }) <==> supervisor.stage is Sending
                && event is Done
            &&& action is Rest <==> event is Failed || event is Exited
            &&& action is Close <==> supervisor.stage is Watching && event is MailboxClosed
            &&& action is Finish <==> (event is MailboxClosed && (supervisor.stage is Idle
                || supervisor.stage is Resting) || supervisor.stage is Closing)
            &&& action is AwaitSnapshot <==> supervisor.stage is Resting && event is Done
            &&& action is Rest ==> (action->stop <==> supervisor.stage is Greeting
                || supervisor.stage is Sending)
            &&& action is Spawn <==> next is Spawning
            &&& action is Greet <==> next is Greeting
            &&& action is Send <==> next is Sending
            &&& action is Watch <==> next is Watching
            &&& action is Rest <==> next is Resting
            &&& action is Close <==> next is Closing
            &&& action is Finish <==> next is Ended
            &&& action is AwaitSnapshot <==> next is Idle
        }),
        event is Failed ==> ends_with(asked(supervisor, event)->message, event->Failed_0),
        event is Exited ==> ends_with(asked(supervisor, event)->message, event->Exited_0),
{
    match event {
        EventView::Failed(cause) => {
            let message = asked(supervisor, event)->message;
            let start = message.len() - cause.len();
            assert(message.skip(start) =~= cause);
        },
        EventView::Exited(status) => {
            let message = asked(supervisor, event)->message;
            let start = message.len() - status.len();
            assert(message.skip(start) =~= status);
        },
        _ => {},
    }
}

/// A text ends with another one.
pub open spec fn ends_with(text: Seq<char>, end: Seq<char>) -> bool {
    text.len() >= end.len() && text.skip(text.len() - end.len()) == end
}

/// The snapshot that a worker writes, and names where that fails, is the latest
/// that came.
pub proof fn law_worker_sends_the_latest_snapshot(
    executable: Seq<char>,
    events: Seq<EventView>,
    sequence: u64,
)
    requires
        orderly(executable, events),
        after_events(executable, events).stage == Stage::Sending(sequence),
    ensures
        exists|at: int| #[trigger] is_latest_snapshot(events, at, sequence),
    decreases events.len(),
{
    let earlier = events.drop_last();
    let last = events.len() - 1;
    let before = after_events(executable, earlier);
    assert(events.take(last) =~= earlier);
    assert(expected(before.stage, events[last]));
    lemma_pending(executable, events);
    lemma_pending(executable, earlier);
    assert forall|i: int| 0 <= i < earlier.len() implies expected(
        after_events(executable, #[trigger] earlier.take(i)).stage,
        earlier[i],
    ) by {
        assert(earlier.take(i) =~= events.take(i));
    }
    lemma_sessions_have_snapshots(executable, earlier);
    if before.stage is Greeting {
        assert(before.pending == sequence);
        let at = choose|at: int| #[trigger] is_latest_snapshot(earlier, at, sequence);
        assert forall|later: int| at < later < events.len() implies !((
        #[trigger] events[later]) is Snapshot) by {
            if later < last {
                assert(earlier[later] == events[later]);
            }
        }
        assert(events[at] == earlier[at]);
        assert(is_latest_snapshot(events, at, sequence));
    } else {
        assert(is_latest_snapshot(events, last, sequence));
    }
}

/// A session was opened for a snapshot.
proof fn lemma_sessions_have_snapshots(executable: Seq<char>, events: Seq<EventView>)
    requires
        forall|i: int|
            0 <= i < events.len() ==> expected(
                after_events(executable, #[trigger] events.take(i)).stage,
                events[i],
            ),
    ensures
        !(after_events(executable, events).stage is Idle) && !(after_events(
            executable,
            events,
        ).stage is Ended) && !(after_events(executable, events).stage is Resting) ==> exists|i: int|
            0 <= i < events.len() && (#[trigger] events[i]) is Snapshot,
    decreases events.len(),
{
    if events.len() > 0 {
        let earlier = events.drop_last();
        let last = events.len() - 1;
        assert forall|i: int| 0 <= i < earlier.len() implies expected(
            after_events(executable, #[trigger] earlier.take(i)).stage,
            earlier[i],
        ) by {
            assert(earlier.take(i) =~= events.take(i));
        }
        lemma_sessions_have_snapshots(executable, earlier);
        assert(events.take(last) =~= earlier);
        assert(expected(after_events(executable, earlier).stage, events[last]));
        if exists|i: int| 0 <= i < earlier.len() && (#[trigger] earlier[i]) is Snapshot {
            let i = choose|i: int| 0 <= i < earlier.len() && (#[trigger] earlier[i]) is Snapshot;
            assert(events[i] == earlier[i]);
        }
    }
}

// ---------------------------------------------------------------------------
// The keyboard's endpoint
// ---------------------------------------------------------------------------

/// A device is the Glove80's status interface.
pub open spec fn is_glove80_status(device: Device) -> bool {
    &&& device.endpoint.vendor_id == 0x16C0
    &&& device.endpoint.product_id == 0x27DB
    &&& device.usage_page == 0xFF60
    &&& device.usage == 0x61
}

/// The positions of the status endpoints are ascending, and are those of the
/// Glove80's status interfaces among the devices.
pub proof fn law_status_endpoints(devices: Seq<Device>)
    ensures
        forall|k: int|
            0 <= k < status_positions(devices).len() ==> 0 <= #[trigger] status_positions(
                devices,
            )[k] < devices.len() && is_glove80_status(devices[status_positions(devices)[k]]),
        forall|i: int|
            0 <= i < devices.len() && is_glove80_status(#[trigger] devices[i])
                ==> status_positions(devices).contains(i),
        forall|k: int, l: int|
            0 <= k < l < status_positions(devices).len() ==> #[trigger] status_positions(
                devices,
            )[k] < #[trigger] status_positions(devices)[l],
    decreases devices.len(),
{
    if devices.len() > 0 {
        let rest = devices.drop_last();
        let last = devices.len() - 1;
        let earlier = status_positions(rest);
        let all = status_positions(devices);
        law_status_endpoints(rest);
        assert(devices.last() == devices[last]);
        assert forall|k: int| 0 <= k < all.len() implies 0 <= #[trigger] all[k] < devices.len()
            && is_glove80_status(devices[all[k]]) by {
            if k < earlier.len() {
                assert(all[k] == earlier[k]);
                assert(rest[earlier[k]] == devices[all[k]]);
            }
        }
        assert forall|i: int|
            0 <= i < devices.len() && is_glove80_status(
                #[trigger] devices[i],
            ) implies all.contains(i) by {
            if i < last {
                assert(rest[i] == devices[i]);
                let k = choose|k: int| 0 <= k < earlier.len() && earlier[k] == i;
                assert(all[k] == i);
            } else {
                assert(all[all.len() - 1] == i);
            }
        }
        assert forall|k: int, l: int| 0 <= k < l < all.len() implies #[trigger] all[k]
            < #[trigger] all[l] by {
            assert(all[k] == earlier[k]);
            if l < earlier.len() {
                assert(all[l] == earlier[l]);
            }
        }
    }
}

// ---------------------------------------------------------------------------
// Displays
// ---------------------------------------------------------------------------

/// The keyboard's display has updated exactly when a snapshot was written, and
/// fails exactly where a write failed for another reason than that no keyboard
/// is attached.
pub proof fn law_keyboard_outcome(result: Result<bool, WriteFault>)
    ensures
        display_outcome(result) == Ok::<PublishOutcome, Seq<char>>(PublishOutcome::Updated)
            <==> result == Ok::<bool, WriteFault>(true),
        display_outcome(result) == Ok::<PublishOutcome, Seq<char>>(PublishOutcome::Unchanged)
            <==> result == Ok::<bool, WriteFault>(false),
        display_outcome(result) == Ok::<PublishOutcome, Seq<char>>(PublishOutcome::Unavailable)
            <==> result == Err::<bool, WriteFault>(WriteFault::Unavailable),
        forall|message: Seq<char>| #[trigger]
            is_failure(display_outcome(result), message) <==> result == Err::<bool, WriteFault>(
                WriteFault::Failed(message),
            ),
{
}

/// An answer is a failure with the message.
pub open spec fn is_failure(
    answer: Result<PublishOutcome, Seq<char>>,
    message: Seq<char>,
) -> bool {
    answer == Err::<PublishOutcome, Seq<char>>(message)
}

/// The last report of a worker since the last offer counts: a delivery is an
/// update, a failure a failure with its message, and no report no change.
pub proof fn law_plugin_outcome(statuses: Seq<WorkerStatus>)
    ensures
        reported_outcome(statuses) == Ok::<PublishOutcome, Seq<char>>(PublishOutcome::Unchanged)
            <==> statuses.len() == 0,
        reported_outcome(statuses) == Ok::<PublishOutcome, Seq<char>>(PublishOutcome::Updated)
            <==> statuses.len() > 0 && statuses.last() is Delivered,
        statuses.len() > 0 && statuses.last() is Failed ==> is_failure(
            reported_outcome(statuses),
            (statuses.last()->Failed_0)@,
        ),
{
}

/// A publication of the sidebar tokens that comes to its end has every live
/// pane's tokens show what the presentation has for the pane, where no pane is
/// listed twice.
pub proof fn law_sync_publishes_the_ledger(
    published: Map<Seq<char>, Seq<char>>,
    before: World,
    published_after: Map<Seq<char>, Seq<char>>,
    after: World,
    changed: bool,
)
    requires
        sync_run(published, before, published_after, after, Ok(changed)),
    ensures
        exists|middle: World, rows: Seq<PresentationView>|
            {
                &&& #[trigger] presentation_run(before, middle, Ok(rows))
                &&& middle.panes.len() == before.panes.len() + 1
                &&& after.store == middle.store
                &&& (forall|i: int, j: int|
                    0 <= i < j < rows.len() ==> (#[trigger] rows[i]).pane_id != (
                    #[trigger] rows[j]).pane_id) ==> forall|i: int|
                    0 <= i < rows.len() ==> published_after.contains_key(
                        (#[trigger] rows[i]).pane_id,
                    ) && published_after[rows[i].pane_id] == rows[i].binding
            },
{
    let (middle, seen) = choose|
        middle: World,
        seen: Result<Seq<PresentationView>, BindingFault>,
    |
        {
            &&& #[trigger] presentation_run(before, middle, seen)
            &&& match seen {
                Err(fault) => {
                    &&& published_after == published
                    &&& after == middle
                    &&& Ok::<bool, BindingFault>(changed) == Err::<bool, BindingFault>(fault)
                },
                Ok(rows) => {
                    &&& after.store == middle.store
                    &&& publish_run(
                        published,
                        middle.panes,
                        published_after,
                        after.panes,
                        rows,
                        Ok(changed),
                    )
                },
            }
        };
    let rows = seen->Ok_0;
    law_presentation(before, middle, rows);
    if forall|i: int, j: int|
        0 <= i < j < rows.len() ==> (#[trigger] rows[i]).pane_id != (#[trigger] rows[j]).pane_id {
        lemma_publication_covers(
            still_published(published, rows),
            middle.panes,
            rows,
            after.panes,
        );
        assert forall|i: int| 0 <= i < rows.len() implies published_after.contains_key(
            (#[trigger] rows[i]).pane_id,
        ) && published_after[rows[i].pane_id] == rows[i].binding by {}
    }
    assert(presentation_run(before, middle, Ok(rows)));
}

/// The failure of one display in a pass over a set.
pub open spec fn failed_with(before: SetView, after: SetView, display: int) -> Option<FailureView> {
    failure_of(
        before.offers[display],
        before.errors[display],
        after.offers[display],
        after.names[display],
    )
}

/// A pass reports the failures of its displays, one for each display that has
/// one, in the order of the displays.
pub proof fn law_reports_are_the_failures(before: SetView, after: SetView, count: nat)
    ensures
        forall|k: int|
            0 <= k < reports(before, after, count).len() ==> exists|d: int|
                0 <= d < count && #[trigger] failed_with(before, after, d) == Some(
                    #[trigger] reports(before, after, count)[k],
                ),
        forall|d: int|
            0 <= d < count && (#[trigger] failed_with(before, after, d)) is Some ==> reports(
                before,
                after,
                count,
            ).contains(failed_with(before, after, d)->0),
        forall|k: int, l: int|
            0 <= k < l < reports(before, after, count).len() ==> report_in_order(
                before,
                after,
                count,
                #[trigger] reports(before, after, count)[k],
                #[trigger] reports(before, after, count)[l],
            ),
    decreases count,
{
    if count > 0 {
        let last = count - 1;
        let earlier = reports(before, after, last as nat);
        let all = reports(before, after, count);
        law_reports_are_the_failures(before, after, last as nat);
        assert forall|k: int| 0 <= k < all.len() implies exists|d: int|
            0 <= d < count && #[trigger] failed_with(before, after, d) == Some(
                #[trigger] all[k],
            ) by {
            if k < earlier.len() {
                assert(all[k] == earlier[k]);
                let d = choose|d: int|
                    0 <= d < last && #[trigger] failed_with(before, after, d) == Some(earlier[k]);
                assert(failed_with(before, after, d) == Some(all[k]));
            } else {
                assert(failed_with(before, after, last) == Some(all[k]));
            }
        }
        assert forall|d: int|
            0 <= d < count && (#[trigger] failed_with(before, after, d)) is Some implies all.contains(
            failed_with(before, after, d)->0,
        ) by {
            let failure = failed_with(before, after, d)->0;
            if d < last {
                let k = choose|k: int| 0 <= k < earlier.len() && earlier[k] == failure;
                assert(all[k] == failure);
            } else {
                assert(all[all.len() - 1] == failure);
            }
        }
        assert forall|k: int, l: int| 0 <= k < l < all.len() implies report_in_order(
            before,
            after,
            count,
            #[trigger] all[k],
            #[trigger] all[l],
        ) by {
            assert(all[k] == earlier[k]);
            if l < earlier.len() {
                assert(all[l] == earlier[l]);
                assert(report_in_order(before, after, last as nat, earlier[k], earlier[l]));
                let (d, e) = choose|d: int, e: int|
                    0 <= d < e < last && #[trigger] failed_with(before, after, d) == Some(
                        earlier[k],
                    ) && #[trigger] failed_with(before, after, e) == Some(earlier[l]);
                assert(failed_with(before, after, d) == Some(all[k]) && failed_with(
                    before,
                    after,
                    e,
                ) == Some(all[l]));
            } else {
                let d = choose|d: int|
                    0 <= d < last && #[trigger] failed_with(before, after, d) == Some(earlier[k]);
                assert(failed_with(before, after, d) == Some(all[k]) && failed_with(
                    before,
                    after,
                    last,
                ) == Some(all[l]));
            }
        }
    }
}

/// Two reports are of two displays, the first of the earlier one.
pub open spec fn report_in_order(
    before: SetView,
    after: SetView,
    count: nat,
    first: FailureView,
    second: FailureView,
) -> bool {
    exists|d: int, e: int|
        0 <= d < e < count && #[trigger] failed_with(before, after, d) == Some(first)
            && #[trigger] failed_with(before, after, e) == Some(second)
}

} // verus!
