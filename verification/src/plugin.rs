//! Supervised out-of-process display plugins.
//!
//! A plugin's worker owns the child process. The daemon only replaces the
//! worker's latest snapshot and collects what the worker reports, so process
//! start-up and I/O stay off the hotkey event loop. [`PluginFeed`] is the
//! daemon's side; [`Supervisor`] decides what the worker does next.

use vstd::prelude::*;

use crate::display::{publish_answer, PublishOutcome};
use crate::display_protocol::{DisplayMessage, MessageView};
use crate::render::{same_plan, PlanView, RenderPlan};
use crate::text::{decimal, decimal_of, quote, quoted};

verus! {

/// How long a message may take to be written, in milliseconds.
pub const WRITE_TIMEOUT_MS: u64 = 1000;

/// How long a failed session rests, in milliseconds.
pub const RESTART_DELAY_MS: u64 = 1000;

/// How often a running plugin is looked at, in milliseconds.
pub const EXIT_POLL_INTERVAL_MS: u64 = 1000;

/// How long a plugin has to exit by itself, in milliseconds.
pub const SHUTDOWN_GRACE_MS: u64 = 500;

// ---------------------------------------------------------------------------
// The daemon's side
// ---------------------------------------------------------------------------

/// The mailbox that leads to a worker, as the daemon sees it.
#[derive(Clone, Copy, Debug, PartialEq, Eq, Structural)]
pub enum Mailbox {
    Open,
    /// The daemon gave it up.
    ShutDown,
    /// The worker is gone.
    Closed,
}

/// What a worker reports.
#[derive(Debug, PartialEq, Eq)]
pub enum WorkerStatus {
    Delivered,
    Failed(String),
}

/// What was last handed to a worker.
#[derive(Debug)]
pub struct PluginFeed {
    last_plan: Option<RenderPlan>,
    next_sequence: u64,
}

#[verifier::ext_equal]
pub struct FeedView {
    pub last_plan: Option<PlanView>,
    pub next_sequence: u64,
}

impl View for PluginFeed {
    type V = FeedView;

    closed spec fn view(&self) -> FeedView {
        FeedView {
            last_plan: match self.last_plan {
                Some(plan) => Some(plan@),
                None => None,
            },
            next_sequence: self.next_sequence,
        }
    }
}

/// Nothing was handed over yet.
pub open spec fn new_feed() -> FeedView {
    FeedView { last_plan: None, next_sequence: 1 }
}

/// Whether a plan is news: it differs from the one handed over last.
pub open spec fn is_news(feed: FeedView, plan: PlanView) -> bool {
    match feed.last_plan {
        Some(last) => !same_plan(last, plan),
        None => true,
    }
}

/// The feed after a plan was handed over.
pub open spec fn handed(feed: FeedView, plan: PlanView) -> FeedView {
    FeedView {
        last_plan: Some(plan),
        next_sequence: if feed.next_sequence < u64::MAX {
            (feed.next_sequence + 1) as u64
        } else {
            u64::MAX
        },
    }
}

/// What a mailbox that takes nothing is reported as.
pub open spec fn mailbox_fault(mailbox: Mailbox) -> Option<Seq<char>> {
    match mailbox {
        Mailbox::Open => None,
        Mailbox::ShutDown => Some("display plugin worker is shutting down"@),
        Mailbox::Closed => Some("display plugin worker stopped unexpectedly"@),
    }
}

/// A numbered snapshot that waits for a worker.
#[derive(Debug)]
pub struct QueuedPlan {
    pub sequence: u64,
    pub plan: RenderPlan,
}

#[verifier::ext_equal]
pub struct QueuedView {
    pub sequence: u64,
    pub plan: PlanView,
}

impl View for QueuedPlan {
    type V = QueuedView;

    open spec fn view(&self) -> QueuedView {
        QueuedView { sequence: self.sequence, plan: self.plan@ }
    }
}

impl Clone for QueuedPlan {
    fn clone(&self) -> (copy: Self)
        ensures
            copy@ == self@,
    {
        QueuedPlan { sequence: self.sequence, plan: self.plan.clone() }
    }
}

impl QueuedPlan {
    /// The message that hands the snapshot to the plugin.
    pub fn message(&self) -> (message: DisplayMessage<'_>)
        ensures
            message@ == (MessageView::Render {
                protocol: "beckon.display"@,
                version: 1,
                sequence: self@.sequence,
                plan: self@.plan,
            }),
    {
        DisplayMessage::render(self.sequence, &self.plan)
    }
}

/// The view of what a mailbox holds.
pub open spec fn queued_view(held: Option<QueuedPlan>) -> Option<QueuedView> {
    match held {
        Some(queued) => Some(queued@),
        None => None,
    }
}

/// The view of the result of an offer.
pub open spec fn queue_result(result: Result<bool, String>) -> Result<bool, Seq<char>> {
    match result {
        Ok(replaced) => Ok(replaced),
        Err(message) => Err(message@),
    }
}

/// One offer of a plan: a plan that is no news changes nothing; another one
/// takes the place of what the mailbox holds, where the mailbox is open.
pub open spec fn queue_run(
    feed: FeedView,
    held: Option<QueuedView>,
    feed_after: FeedView,
    held_after: Option<QueuedView>,
    plan: PlanView,
    mailbox: Mailbox,
    result: Result<bool, Seq<char>>,
) -> bool {
    if !is_news(feed, plan) {
        &&& feed_after == feed
        &&& held_after == held
        &&& result == Ok::<bool, Seq<char>>(false)
    } else {
        match mailbox_fault(mailbox) {
            Some(message) => {
                &&& feed_after == feed
                &&& held_after == held
                &&& result == Err::<bool, Seq<char>>(message)
            },
            None => {
                &&& feed_after == handed(feed, plan)
                &&& held_after == Some(QueuedView { sequence: feed.next_sequence, plan })
                &&& result == Ok::<bool, Seq<char>>(true)
            },
        }
    }
}

impl PluginFeed {
    /// Nothing was handed over yet.
    pub fn new() -> (feed: Self)
        ensures
            feed@ == new_feed(),
    {
        PluginFeed { last_plan: None, next_sequence: 1 }
    }

    /// Puts a plan that is news into the worker's mailbox, in place of what it
    /// holds. Returns whether the mailbox holds a new snapshot.
    pub fn queue(
        &mut self,
        plan: &RenderPlan,
        mailbox: Mailbox,
        held: &mut Option<QueuedPlan>,
    ) -> (result: Result<bool, String>)
        ensures
            queue_run(
                old(self)@,
                queued_view(*old(held)),
                final(self)@,
                queued_view(*final(held)),
                plan@,
                mailbox,
                queue_result(result),
            ),
    {
        if let Some(last) = &self.last_plan {
            if *last == *plan {
                return Ok(false);
            }
        }
        match mailbox {
            Mailbox::Open => {
                *held = Some(QueuedPlan { sequence: self.next_sequence, plan: plan.clone() });
                self.last_plan = Some(plan.clone());
                self.next_sequence = self.next_sequence.saturating_add(1);
                Ok(true)
            },
            Mailbox::ShutDown => Err("display plugin worker is shutting down".to_owned()),
            Mailbox::Closed => Err("display plugin worker stopped unexpectedly".to_owned()),
        }
    }
}

/// What the reports that came in since the last offer amount to: the last one
/// counts.
pub open spec fn reported_outcome(statuses: Seq<WorkerStatus>) -> Result<PublishOutcome, Seq<char>> {
    if statuses.len() == 0 {
        Ok(PublishOutcome::Unchanged)
    } else {
        match statuses.last() {
            WorkerStatus::Delivered => Ok(PublishOutcome::Updated),
            WorkerStatus::Failed(message) => Err(message@),
        }
    }
}

/// What the reports that came in since the last offer amount to.
pub fn outcome_of(statuses: &Vec<WorkerStatus>) -> (result: Result<PublishOutcome, String>)
    ensures
        publish_answer(result) == reported_outcome(statuses@),
{
    if statuses.len() == 0 {
        return Ok(PublishOutcome::Unchanged);
    }
    match &statuses[statuses.len() - 1] {
        WorkerStatus::Delivered => Ok(PublishOutcome::Updated),
        WorkerStatus::Failed(message) => Err(message.clone()),
    }
}

/// A plan that was handed over is no news, unless it holds a brightness that
/// is no number; its sequence number is not used again until the last one.
pub proof fn law_plan_is_handed_over_once(feed: FeedView, plan: PlanView)
    requires
        same_plan(plan, plan),
    ensures
        !is_news(handed(feed, plan), plan),
        feed.next_sequence < u64::MAX ==> handed(feed, plan).next_sequence > feed.next_sequence,
{
}

// ---------------------------------------------------------------------------
// The worker's side
// ---------------------------------------------------------------------------

/// Where a worker stands.
#[derive(Clone, Copy, Debug, PartialEq, Eq, Structural)]
pub enum Stage {
    /// No session; a snapshot is awaited.
    Idle,
    /// The child is being started.
    Spawning,
    /// The hello message is being written.
    Greeting,
    /// A snapshot is being written.
    Sending(u64),
    /// The child runs; a new snapshot or its exit is awaited.
    Watching,
    /// A session failed; the delay or a change is awaited.
    Resting,
    /// The child is being stopped because the daemon is done.
    Closing,
    Ended,
}

/// What became of the action that was asked for.
#[derive(Debug)]
pub enum Event {
    /// The mailbox holds a snapshot with this sequence number.
    Snapshot(u64),
    /// The mailbox changed and holds nothing.
    Empty,
    /// The daemon gave the mailbox up.
    MailboxClosed,
    /// The step succeeded.
    Done,
    /// The step failed, with its cause.
    Failed(String),
    /// The child still runs.
    Alive,
    /// The child exited, with its status.
    Exited(String),
}

/// What the worker does next.
#[derive(Debug, PartialEq, Eq)]
pub enum Action {
    /// Wait until the mailbox holds a snapshot.
    AwaitSnapshot,
    /// Start the child with its stdin piped and its stdout discarded.
    Spawn,
    /// Write the hello message.
    Greet,
    /// Write the snapshot that the mailbox holds.
    Send,
    /// Wait for the mailbox to change or for the next look at the child; where
    /// `delivered`, report a delivery first.
    Watch { delivered: bool },
    /// Stop the child where `stop`, report the failure, and wait for the delay
    /// or for the mailbox to change.
    Rest { stop: bool, message: String },
    /// Close the child's stdin and let it exit, or stop it after a while.
    Close,
    /// Return.
    Finish,
}

pub enum EventView {
    Snapshot(u64),
    Empty,
    MailboxClosed,
    Done,
    Failed(Seq<char>),
    Alive,
    Exited(Seq<char>),
}

pub enum ActionView {
    AwaitSnapshot,
    Spawn,
    Greet,
    Send,
    Watch { delivered: bool },
    Rest { stop: bool, message: Seq<char> },
    Close,
    Finish,
}

impl View for Event {
    type V = EventView;

    open spec fn view(&self) -> EventView {
        match *self {
            Event::Snapshot(sequence) => EventView::Snapshot(sequence),
            Event::Empty => EventView::Empty,
            Event::MailboxClosed => EventView::MailboxClosed,
            Event::Done => EventView::Done,
            Event::Failed(cause) => EventView::Failed(cause@),
            Event::Alive => EventView::Alive,
            Event::Exited(status) => EventView::Exited(status@),
        }
    }
}

impl View for Action {
    type V = ActionView;

    open spec fn view(&self) -> ActionView {
        match *self {
            Action::AwaitSnapshot => ActionView::AwaitSnapshot,
            Action::Spawn => ActionView::Spawn,
            Action::Greet => ActionView::Greet,
            Action::Send => ActionView::Send,
            Action::Watch { delivered } => ActionView::Watch { delivered },
            Action::Rest { stop, message } => ActionView::Rest { stop, message: message@ },
            Action::Close => ActionView::Close,
            Action::Finish => ActionView::Finish,
        }
    }
}

/// The events that answer the action of a stage.
pub open spec fn expected(stage: Stage, event: EventView) -> bool {
    match stage {
        Stage::Idle => event is Snapshot || event is MailboxClosed,
        Stage::Spawning | Stage::Greeting | Stage::Sending(_) => event is Done || event is Failed,
        Stage::Watching => !(event is Done),
        Stage::Resting => event is Done || event is MailboxClosed,
        Stage::Closing => event is Done,
        Stage::Ended => false,
    }
}

/// The failure of a session, after which it rests.
pub open spec fn failure(stop: bool, message: Seq<char>) -> (Stage, ActionView) {
    (Stage::Resting, ActionView::Rest { stop, message })
}

/// What follows an event. `pending` is the sequence number of the snapshot
/// that a session is opened for; `executable` is the program of the plugin.
pub open spec fn stepped(
    stage: Stage,
    pending: u64,
    executable: Seq<char>,
    event: EventView,
) -> (Stage, ActionView) {
    match stage {
        Stage::Idle => match event {
            EventView::Snapshot(_) => (Stage::Spawning, ActionView::Spawn),
            _ => (Stage::Ended, ActionView::Finish),
        },
        Stage::Spawning => match event {
            EventView::Failed(cause) => failure(
                false,
                "spawn executable "@ + quoted(executable) + ": "@ + cause,
            ),
            _ => (Stage::Greeting, ActionView::Greet),
        },
        Stage::Greeting => match event {
            EventView::Failed(cause) => failure(true, "write protocol hello: "@ + cause),
            _ => (Stage::Sending(pending), ActionView::Send),
        },
        Stage::Sending(sequence) => match event {
            EventView::Failed(cause) => failure(
                true,
                "write render sequence "@ + decimal_of(sequence as nat) + ": "@ + cause,
            ),
            _ => (Stage::Watching, ActionView::Watch { delivered: true }),
        },
        Stage::Watching => match event {
            EventView::Snapshot(sequence) => (Stage::Sending(sequence), ActionView::Send),
            EventView::MailboxClosed => (Stage::Closing, ActionView::Close),
            EventView::Exited(status) => failure(false, "plugin process exited with "@ + status),
            EventView::Failed(cause) => failure(false, "poll plugin process: "@ + cause),
            _ => (Stage::Watching, ActionView::Watch { delivered: false }),
        },
        Stage::Resting => match event {
            EventView::MailboxClosed => (Stage::Ended, ActionView::Finish),
            _ => (Stage::Idle, ActionView::AwaitSnapshot),
        },
        Stage::Closing | Stage::Ended => (Stage::Ended, ActionView::Finish),
    }
}

/// Decides what a worker does next.
#[derive(Debug)]
pub struct Supervisor {
    executable: String,
    stage: Stage,
    pending: u64,
}

/// What a supervisor knows.
#[verifier::ext_equal]
pub struct SupervisorView {
    pub executable: Seq<char>,
    pub stage: Stage,
    pub pending: u64,
}

impl View for Supervisor {
    type V = SupervisorView;

    closed spec fn view(&self) -> SupervisorView {
        SupervisorView { executable: self.executable@, stage: self.stage, pending: self.pending }
    }
}

/// What a supervisor knows after an event.
pub open spec fn advanced(supervisor: SupervisorView, event: EventView) -> SupervisorView {
    SupervisorView {
        executable: supervisor.executable,
        stage: stepped(supervisor.stage, supervisor.pending, supervisor.executable, event).0,
        pending: match event {
            EventView::Snapshot(sequence) => sequence,
            _ => supervisor.pending,
        },
    }
}

/// What a supervisor asks for after an event.
pub open spec fn asked(supervisor: SupervisorView, event: EventView) -> ActionView {
    stepped(supervisor.stage, supervisor.pending, supervisor.executable, event).1
}

impl Supervisor {
    /// A worker for a plugin whose program is `executable`. Its first action
    /// is [`Action::AwaitSnapshot`].
    pub fn new(executable: &str) -> (supervisor: Self)
        ensures
            supervisor@ == (SupervisorView {
                executable: executable@,
                stage: Stage::Idle,
                pending: 0,
            }),
    {
        Supervisor { executable: executable.to_owned(), stage: Stage::Idle, pending: 0 }
    }

    /// Where the worker stands.
    pub fn stage(&self) -> (stage: Stage)
        ensures
            stage == self@.stage,
    {
        self.stage
    }

    /// Takes what became of the last action and gives the next one.
    pub fn next(&mut self, event: Event) -> (action: Action)
        requires
            expected(old(self)@.stage, event@),
        ensures
            final(self)@ == advanced(old(self)@, event@),
            action@ == asked(old(self)@, event@),
    {
        match self.stage {
            Stage::Idle => match event {
                Event::Snapshot(sequence) => {
                    self.pending = sequence;
                    self.stage = Stage::Spawning;
                    Action::Spawn
                },
                _ => {
                    self.stage = Stage::Ended;
                    Action::Finish
                },
            },
            Stage::Spawning => match event {
                Event::Failed(cause) => {
                    let message = "spawn executable ".to_owned().concat(
                        quote(self.executable.as_str()).as_str(),
                    ).concat(": ").concat(cause.as_str());
                    self.stage = Stage::Resting;
                    Action::Rest { stop: false, message }
                },
                _ => {
                    self.stage = Stage::Greeting;
                    Action::Greet
                },
            },
            Stage::Greeting => match event {
                Event::Failed(cause) => {
                    self.stage = Stage::Resting;
                    Action::Rest {
                        stop: true,
                        message: "write protocol hello: ".to_owned().concat(cause.as_str()),
                    }
                },
                _ => {
                    self.stage = Stage::Sending(self.pending);
                    Action::Send
                },
            },
            Stage::Sending(sequence) => match event {
                Event::Failed(cause) => {
                    self.stage = Stage::Resting;
                    Action::Rest {
                        stop: true,
                        message: "write render sequence ".to_owned().concat(
                            decimal(sequence as u128).as_str(),
                        ).concat(": ").concat(cause.as_str()),
                    }
                },
                _ => {
                    self.stage = Stage::Watching;
                    Action::Watch { delivered: true }
                },
            },
            Stage::Watching => match event {
                Event::Snapshot(sequence) => {
                    self.pending = sequence;
                    self.stage = Stage::Sending(sequence);
                    Action::Send
                },
                Event::MailboxClosed => {
                    self.stage = Stage::Closing;
                    Action::Close
                },
                Event::Exited(status) => {
                    self.stage = Stage::Resting;
                    Action::Rest {
                        stop: false,
                        message: "plugin process exited with ".to_owned().concat(status.as_str()),
                    }
                },
                Event::Failed(cause) => {
                    self.stage = Stage::Resting;
                    Action::Rest {
                        stop: false,
                        message: "poll plugin process: ".to_owned().concat(cause.as_str()),
                    }
                },
                _ => Action::Watch { delivered: false },
            },
            Stage::Resting => match event {
                Event::MailboxClosed => {
                    self.stage = Stage::Ended;
                    Action::Finish
                },
                _ => {
                    self.stage = Stage::Idle;
                    Action::AwaitSnapshot
                },
            },
            Stage::Closing | Stage::Ended => {
                self.stage = Stage::Ended;
                Action::Finish
            },
        }
    }
}

// ---------------------------------------------------------------------------
// Laws
// ---------------------------------------------------------------------------

/// A supervisor as it is made.
pub open spec fn fresh(executable: Seq<char>) -> SupervisorView {
    SupervisorView { executable, stage: Stage::Idle, pending: 0 }
}

/// What a supervisor knows after a series of events.
pub open spec fn after_events(executable: Seq<char>, events: Seq<EventView>) -> SupervisorView
    decreases events.len(),
{
    if events.len() == 0 {
        fresh(executable)
    } else {
        advanced(after_events(executable, events.drop_last()), events.last())
    }
}

/// The action that follows event `index` of a series.
pub open spec fn action_at(
    executable: Seq<char>,
    events: Seq<EventView>,
    index: int,
) -> ActionView {
    asked(after_events(executable, events.take(index)), events[index])
}

/// Every event of a series answers the action before it.
pub open spec fn orderly(executable: Seq<char>, events: Seq<EventView>) -> bool {
    forall|i: int|
        0 <= i < events.len() ==> expected(
            after_events(executable, #[trigger] events.take(i)).stage,
            events[i],
        )
}

/// The hello message was asked for at `index` and written, and no child was
/// started since.
pub open spec fn greeted_at(executable: Seq<char>, events: Seq<EventView>, index: int) -> bool {
    &&& 0 <= index < events.len() - 1
    &&& action_at(executable, events, index) is Greet
    &&& events[index + 1] is Done
    &&& forall|i: int|
        index < i < events.len() ==> !(#[trigger] action_at(executable, events, i) is Spawn)
}

proof fn lemma_step(executable: Seq<char>, events: Seq<EventView>)
    requires
        events.len() > 0,
    ensures
        forall|i: int|
            0 <= i < events.len() - 1 ==> #[trigger] action_at(executable, events, i) == action_at(
                executable,
                events.drop_last(),
                i,
            ),
        action_at(executable, events, events.len() - 1) == asked(
            after_events(executable, events.drop_last()),
            events.last(),
        ),
{
    assert forall|i: int| 0 <= i < events.len() - 1 implies #[trigger] action_at(
        executable,
        events,
        i,
    ) == action_at(executable, events.drop_last(), i) by {
        assert(events.take(i) =~= events.drop_last().take(i));
    }
    assert(events.take(events.len() - 1) =~= events.drop_last());
}

proof fn lemma_orderly_prefix(executable: Seq<char>, events: Seq<EventView>)
    requires
        events.len() > 0,
        orderly(executable, events),
    ensures
        orderly(executable, events.drop_last()),
        expected(after_events(executable, events.drop_last()).stage, events.last()),
{
    let earlier = events.drop_last();
    assert forall|i: int| 0 <= i < earlier.len() implies expected(
        after_events(executable, #[trigger] earlier.take(i)).stage,
        earlier[i],
    ) by {
        assert(earlier.take(i) =~= events.take(i));
    }
    assert(events.take(events.len() - 1) =~= earlier);
}

proof fn lemma_greeting(executable: Seq<char>, events: Seq<EventView>)
    requires
        orderly(executable, events),
    ensures
        ({
            let stage = after_events(executable, events).stage;
            &&& stage is Greeting ==> events.len() > 0 && action_at(
                executable,
                events,
                events.len() - 1,
            ) is Greet
            &&& stage is Sending || stage is Watching ==> exists|index: int|
                greeted_at(executable, events, index)
        }),
    decreases events.len(),
{
    if events.len() > 0 {
        let earlier = events.drop_last();
        lemma_orderly_prefix(executable, events);
        lemma_greeting(executable, earlier);
        lemma_step(executable, events);
        let before = after_events(executable, earlier).stage;
        let stage = after_events(executable, events).stage;
        if stage is Sending || stage is Watching {
            if before is Greeting {
                let index = earlier.len() - 1;
                assert(action_at(executable, events, index) == action_at(
                    executable,
                    earlier,
                    index,
                ));
                assert(greeted_at(executable, events, index));
            } else {
                let index = choose|index: int| greeted_at(executable, earlier, index);
                assert(greeted_at(executable, events, index)) by {
                    assert(action_at(executable, events, index) == action_at(
                        executable,
                        earlier,
                        index,
                    ));
                }
            }
        }
    }
}

/// A snapshot is only ever written to a child that was sent the hello message
/// since it was started.
pub proof fn law_hello_comes_first(executable: Seq<char>, events: Seq<EventView>)
    requires
        orderly(executable, events),
        events.len() > 0,
        action_at(executable, events, events.len() - 1) is Send,
    ensures
        exists|index: int| greeted_at(executable, events, index),
{
    lemma_step(executable, events);
    lemma_orderly_prefix(executable, events);
    lemma_greeting(executable, events);
}

/// The hello message is written directly after a child was started, and at no
/// other time: every child gets it once.
pub proof fn law_one_hello_per_child(executable: Seq<char>, events: Seq<EventView>, index: int)
    requires
        orderly(executable, events),
        0 <= index < events.len(),
        action_at(executable, events, index) is Greet,
    ensures
        index > 0,
        action_at(executable, events, index - 1) is Spawn,
        events[index] is Done,
{
    let earlier = events.take(index);
    assert(expected(after_events(executable, earlier).stage, events[index]));
    assert(after_events(executable, earlier).stage is Spawning);
    assert(earlier.drop_last() =~= events.take(index - 1));
    assert(earlier.last() == events[index - 1]);
    assert(expected(after_events(executable, events.take(index - 1)).stage, events[index - 1]));
}

/// A worker ends only when the daemon gave the mailbox up: no failure of a
/// plugin ends it.
pub proof fn law_only_the_daemon_ends_a_worker(executable: Seq<char>, events: Seq<EventView>)
    requires
        orderly(executable, events),
        after_events(executable, events).stage is Ended || after_events(executable, events).stage
            is Closing,
    ensures
        events.contains(EventView::MailboxClosed),
    decreases events.len(),
{
    let earlier = events.drop_last();
    lemma_orderly_prefix(executable, events);
    let before = after_events(executable, earlier).stage;
    if before is Closing {
        law_only_the_daemon_ends_a_worker(executable, earlier);
        let i = choose|i: int| 0 <= i < earlier.len() && earlier[i] == EventView::MailboxClosed;
        assert(events[i] == EventView::MailboxClosed);
    } else {
        assert(events[events.len() - 1] == EventView::MailboxClosed);
    }
}

/// A failure of a session is reported, and after the rest the worker waits for
/// a snapshot again.
pub proof fn law_failed_session_is_retried(
    supervisor: SupervisorView,
    cause: Seq<char>,
    rested: EventView,
)
    requires
        expected(supervisor.stage, EventView::Failed(cause)),
        rested is Done,
    ensures
        asked(supervisor, EventView::Failed(cause)) is Rest,
        asked(advanced(supervisor, EventView::Failed(cause)), rested) is AwaitSnapshot,
{
}

} // verus!
