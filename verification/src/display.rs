//! Hardware-neutral display fan-out and the keyboard's own display.

use vstd::prelude::*;

use crate::config::{adapter_name, OutputAdapter};
use crate::hid::{
    new_sink, sink_result, sink_run, RenderSink, SinkView, StatusWriter, WriteError, WriteFault,
    WriterCall, DISCONNECTED_RETRY_DELAY,
};
use crate::render::{PlanView, RenderPlan};
use crate::text::{option_view, same_text};

verus! {

/// Result of offering the current render plan to one display integration.
#[derive(Clone, Copy, Debug, PartialEq, Eq, Structural)]
pub enum PublishOutcome {
    /// The adapter sent a new state to its device or service.
    Updated,
    /// Nothing was sent because the state is unchanged or retry is deferred.
    Unchanged,
    /// The optional target is not currently attached or available.
    Unavailable,
}

/// An offer of a plan to a display, with its answer.
pub struct DisplayCall {
    pub plan: PlanView,
    pub now: u128,
    pub answer: Result<PublishOutcome, Seq<char>>,
}

/// The view of an offer's answer.
pub open spec fn publish_answer(answer: Result<PublishOutcome, String>) -> Result<
    PublishOutcome,
    Seq<char>,
> {
    match answer {
        Ok(outcome) => Ok(outcome),
        Err(message) => Err(message@),
    }
}

/// One independently managed consumer of Beckon's hardware-neutral state.
pub trait DisplaySink {
    /// The offers made so far, oldest first, each with its answer. It is ghost:
    /// a display that is not itself verified has nothing to define.
    open spec fn made(&self) -> Seq<DisplayCall> {
        arbitrary()
    }

    /// The name that the display goes by now. It is ghost as well.
    open spec fn name(&self) -> Seq<char> {
        arbitrary()
    }

    /// The name of the display.
    fn id(&self) -> (id: &str)
        ensures
            id@ == self.name(),
    ;

    /// Offers a plan at the moment `now`, in nanoseconds on a monotonic clock.
    fn publish(&mut self, plan: &RenderPlan, now: u128) -> (answer: Result<PublishOutcome, String>)
        requires
            now + DISCONNECTED_RETRY_DELAY <= u128::MAX,
        ensures
            final(self).made() == old(self).made().push(
                DisplayCall { plan: plan@, now, answer: publish_answer(answer) },
            ),
    ;
}

/// What a pass of the keyboard's sink means for a display: a missing endpoint
/// is an expected condition.
pub open spec fn display_outcome(result: Result<bool, WriteFault>) -> Result<
    PublishOutcome,
    Seq<char>,
> {
    match result {
        Ok(true) => Ok(PublishOutcome::Updated),
        Ok(false) => Ok(PublishOutcome::Unchanged),
        Err(WriteFault::Unavailable) => Ok(PublishOutcome::Unavailable),
        Err(WriteFault::Failed(message)) => Err(message),
    }
}

/// The Glove80's optional wired USB status display.
pub struct Glove80UsbDisplay<W> {
    sink: RenderSink<W>,
    offers: Ghost<Seq<DisplayCall>>,
}

impl<W: StatusWriter> Glove80UsbDisplay<W> {
    /// What the sink behind the display remembers.
    pub closed spec fn state(&self) -> SinkView {
        self.sink.state()
    }

    /// Every write so far, oldest first.
    pub closed spec fn calls(&self) -> Seq<WriterCall> {
        self.sink.calls()
    }

    /// A display that has shown nothing yet.
    pub fn new(writer: W) -> (display: Self)
        ensures
            display.state() == new_sink(),
            display.calls() == writer.made(),
            display.made() == Seq::<DisplayCall>::empty(),
    {
        Glove80UsbDisplay { sink: RenderSink::new(writer), offers: Ghost(Seq::empty()) }
    }
}

impl<W: StatusWriter> DisplaySink for Glove80UsbDisplay<W> {
    closed spec fn made(&self) -> Seq<DisplayCall> {
        self.offers@
    }

    open spec fn name(&self) -> Seq<char> {
        adapter_name(OutputAdapter::Glove80Usb)
    }

    fn id(&self) -> (id: &str) {
        OutputAdapter::Glove80Usb.name()
    }

    fn publish(&mut self, plan: &RenderPlan, now: u128) -> (answer: Result<PublishOutcome, String>)
        ensures
            exists|result: Result<bool, WriteFault>|
                {
                    &&& #[trigger] display_outcome(result) == publish_answer(answer)
                    &&& sink_run(
                        old(self).state(),
                        old(self).calls(),
                        final(self).state(),
                        final(self).calls(),
                        plan@,
                        now,
                        result,
                    )
                },
    {
        let result = self.sink.publish(plan, now);
        let ghost passed = sink_result(result);
        let answer = match result {
            Ok(true) => Ok(PublishOutcome::Updated),
            Ok(false) => Ok(PublishOutcome::Unchanged),
            Err(WriteError::Unavailable) => Ok(PublishOutcome::Unavailable),
            Err(WriteError::Failed(message)) => Err(message),
        };
        assert(display_outcome(passed) == publish_answer(answer));
        proof {
            self.offers@ = self.offers@.push(
                DisplayCall { plan: plan@, now, answer: publish_answer(answer) },
            );
        }
        answer
    }
}

/// A newly reportable failure from one display integration.
#[derive(Debug, PartialEq, Eq)]
pub struct DisplayFailure {
    pub adapter: String,
    pub message: String,
}

#[verifier::ext_equal]
pub struct FailureView {
    pub adapter: Seq<char>,
    pub message: Seq<char>,
}

impl View for DisplayFailure {
    type V = FailureView;

    open spec fn view(&self) -> FailureView {
        FailureView { adapter: self.adapter@, message: self.message@ }
    }
}

/// The views of a sequence of failures.
pub open spec fn failure_views(failures: Seq<DisplayFailure>) -> Seq<FailureView> {
    failures.map_values(|failure: DisplayFailure| failure@)
}

/// The view of a failure that may be absent.
pub open spec fn failure_view(failure: Option<DisplayFailure>) -> Option<FailureView> {
    match failure {
        Some(failure) => Some(failure@),
        None => None,
    }
}

/// The error that is remembered of a display after an answer. Only a new state
/// that was sent counts as recovery.
pub open spec fn remembered(
    last: Option<Seq<char>>,
    answer: Result<PublishOutcome, Seq<char>>,
) -> Option<Seq<char>> {
    match answer {
        Ok(PublishOutcome::Updated) => None,
        Ok(_) => last,
        Err(message) => Some(message),
    }
}

/// Whether an answer is reported: it is an error that differs from the one
/// remembered.
pub open spec fn reportable(
    last: Option<Seq<char>>,
    answer: Result<PublishOutcome, Seq<char>>,
) -> bool {
    answer is Err && last != Some(answer->Err_0)
}

/// What a display's answer leads to: the error to remember of it from now on,
/// and the message to report, if there is one.
pub fn take_answer(last: Option<String>, answer: Result<PublishOutcome, String>) -> (taken: (
    Option<String>,
    Option<String>,
))
    ensures
        option_view(taken.0) == remembered(option_view(last), publish_answer(answer)),
        taken.1 is Some <==> reportable(option_view(last), publish_answer(answer)),
        taken.1 is Some ==> Err::<PublishOutcome, Seq<char>>(taken.1->0@) == publish_answer(answer),
{
    match answer {
        Ok(PublishOutcome::Updated) => (None, None),
        Ok(_) => (last, None),
        Err(message) => {
            let known = match &last {
                Some(known) => same_text(known.as_str(), message.as_str()),
                None => false,
            };
            if known {
                (last, None)
            } else {
                (Some(message.clone()), Some(message))
            }
        },
    }
}

/// What a display answered when a plan was offered, given the offers before
/// and after.
pub open spec fn answer_given(before: Seq<DisplayCall>, after: Seq<DisplayCall>) -> Result<
    PublishOutcome,
    Seq<char>,
> {
    after[before.len() as int].answer
}

/// The failure that a pass reports of a display: the message that it answered
/// with, under the name that it goes by after the offer.
pub open spec fn failure_of(
    before: Seq<DisplayCall>,
    last: Option<Seq<char>>,
    after: Seq<DisplayCall>,
    name: Seq<char>,
) -> Option<FailureView> {
    let answer = answer_given(before, after);
    if reportable(last, answer) {
        Some(FailureView { adapter: name, message: answer->Err_0 })
    } else {
        None
    }
}

/// A pass over a display: it is offered the plan once, and its answer decides
/// what is remembered of it.
pub open spec fn pass_run(
    before: Seq<DisplayCall>,
    last: Option<Seq<char>>,
    after: Seq<DisplayCall>,
    last_after: Option<Seq<char>>,
    plan: PlanView,
    now: u128,
) -> bool {
    let answer = answer_given(before, after);
    &&& after == before.push(DisplayCall { plan, now, answer })
    &&& last_after == remembered(last, answer)
}

struct ManagedSink<S> {
    sink: S,
    last_error: Option<String>,
}

impl<S: DisplaySink> ManagedSink<S> {
    /// Offers the plan to the display.
    fn publish(&mut self, plan: &RenderPlan, now: u128) -> (failure: Option<DisplayFailure>)
        requires
            now + DISCONNECTED_RETRY_DELAY <= u128::MAX,
        ensures
            pass_run(
                old(self).sink.made(),
                option_view(old(self).last_error),
                final(self).sink.made(),
                option_view(final(self).last_error),
                plan@,
                now,
            ),
            failure_view(failure) == failure_of(
                old(self).sink.made(),
                option_view(old(self).last_error),
                final(self).sink.made(),
                final(self).sink.name(),
            ),
    {
        let answer = self.sink.publish(plan, now);
        let (last_error, report) = take_answer(self.last_error.take(), answer);
        self.last_error = last_error;
        match report {
            Some(message) => Some(DisplayFailure { adapter: self.sink.id().to_owned(), message }),
            None => None,
        }
    }
}

/// Fans one render plan out to zero or more independent display integrations.
///
/// Adapter absence and failures never block input or pane navigation. Errors
/// are reported once per adapter and retried by the adapter on later ticks.
pub struct DisplaySet<S> {
    sinks: Vec<ManagedSink<S>>,
}

/// What a set of displays is, as far as passes go: the offers made to each of
/// them, the error remembered of each, and the name that each goes by.
#[verifier::ext_equal]
pub struct SetView {
    pub offers: Seq<Seq<DisplayCall>>,
    pub errors: Seq<Option<Seq<char>>>,
    pub names: Seq<Seq<char>>,
}

/// The failures that a pass over the first `count` displays reports, in their
/// order.
pub open spec fn reports(before: SetView, after: SetView, count: nat) -> Seq<FailureView>
    decreases count,
{
    if count == 0 {
        Seq::empty()
    } else {
        let index = count - 1;
        let earlier = reports(before, after, index as nat);
        match failure_of(
            before.offers[index],
            before.errors[index],
            after.offers[index],
            after.names[index],
        ) {
            Some(failure) => earlier.push(failure),
            None => earlier,
        }
    }
}

/// A pass over one display of a set.
pub open spec fn is_pass_over(
    before: SetView,
    after: SetView,
    display: int,
    plan: PlanView,
    now: u128,
) -> bool {
    pass_run(
        before.offers[display],
        before.errors[display],
        after.offers[display],
        after.errors[display],
        plan,
        now,
    )
}

/// A pass over all displays: each is offered the plan once, whatever the
/// others answer.
pub open spec fn set_run(before: SetView, after: SetView, plan: PlanView, now: u128) -> bool {
    &&& after.offers.len() == before.offers.len()
    &&& after.errors.len() == before.offers.len()
    &&& after.names.len() == before.offers.len()
    &&& forall|display: int|
        0 <= display < before.offers.len() ==> #[trigger] is_pass_over(
            before,
            after,
            display,
            plan,
            now,
        )
}

impl<S> DisplaySet<S> {
    /// The displays.
    pub closed spec fn displays(&self) -> Seq<S> {
        self.sinks@.map_values(|managed: ManagedSink<S>| managed.sink)
    }

    /// The error remembered of each display.
    pub closed spec fn errors(&self) -> Seq<Option<Seq<char>>> {
        self.sinks@.map_values(|managed: ManagedSink<S>| option_view(managed.last_error))
    }
}

impl<S: DisplaySink> View for DisplaySet<S> {
    type V = SetView;

    open spec fn view(&self) -> SetView {
        SetView {
            offers: self.displays().map_values(|display: S| display.made()),
            errors: self.errors(),
            names: self.displays().map_values(|display: S| display.name()),
        }
    }
}

impl<S> Default for DisplaySet<S> {
    fn default() -> (set: Self)
        ensures
            set.displays() == Seq::<S>::empty(),
            set.errors() == Seq::<Option<Seq<char>>>::empty(),
    {
        let set = DisplaySet { sinks: Vec::new() };
        assert(set.displays() =~= Seq::<S>::empty());
        assert(set.errors() =~= Seq::<Option<Seq<char>>>::empty());
        set
    }
}

impl<S: DisplaySink> DisplaySet<S> {
    /// A set of these displays, in this order, with no error remembered.
    pub fn new(sinks: Vec<S>) -> (set: Self)
        ensures
            set.displays() == sinks@,
            set.errors() == Seq::new(sinks@.len(), |i: int| None::<Seq<char>>),
    {
        let ghost given = sinks@;
        let mut managed: Vec<ManagedSink<S>> = Vec::new();
        let mut rest = sinks;
        while rest.len() > 0
            invariant
                managed.len() + rest.len() == given.len(),
                rest@ == given.skip(managed.len() as int),
                forall|i: int|
                    0 <= i < managed.len() ==> (#[trigger] managed@[i]).last_error is None
                        && managed@[i].sink == given[i],
            decreases rest.len(),
        {
            let sink = rest.remove(0);
            managed.push(ManagedSink { sink, last_error: None });
        }
        let set = DisplaySet { sinks: managed };
        assert(set.displays() =~= given);
        assert(set.errors() =~= Seq::new(given.len(), |i: int| None::<Seq<char>>));
        set
    }

    /// Offers the plan to every display and returns the failures that are new.
    pub fn publish(&mut self, plan: &RenderPlan, now: u128) -> (failures: Vec<DisplayFailure>)
        requires
            now + DISCONNECTED_RETRY_DELAY <= u128::MAX,
        ensures
            set_run(old(self)@, final(self)@, plan@, now),
            failure_views(failures@) == reports(
                old(self)@,
                final(self)@,
                old(self).displays().len(),
            ),
    {
        let mut failures: Vec<DisplayFailure> = Vec::new();
        let count = self.sinks.len();
        let ghost before = *self;
        for i in 0..count
            invariant
                count == self.sinks.len(),
                count == before.sinks.len(),
                now + DISCONNECTED_RETRY_DELAY <= u128::MAX,
                forall|j: int| i <= j < count ==> #[trigger] self.sinks@[j] == before.sinks@[j],
                forall|j: int|
                    0 <= j < i ==> #[trigger] is_pass_over(before@, self@, j, plan@, now),
                failure_views(failures@) == reports(before@, self@, i as nat),
        {
            let ghost reported = failures@;
            let ghost passed = *self;
            let failure = self.sinks[i].publish(plan, now);
            proof {
                assert forall|j: int| 0 <= j < i implies #[trigger] self@.offers[j]
                    == passed@.offers[j] && self@.errors[j] == passed@.errors[j] && self@.names[j]
                    == passed@.names[j] by {
                    assert(self.sinks@[j] == passed.sinks@[j]);
                }
                assert forall|j: int| 0 <= j < i + 1 implies #[trigger] is_pass_over(
                    before@,
                    self@,
                    j,
                    plan@,
                    now,
                ) by {
                    if j < i {
                        assert(is_pass_over(before@, passed@, j, plan@, now));
                        assert(self@.offers[j] == passed@.offers[j]);
                    }
                }
                lemma_same_reports(before@, passed@, self@, i as nat);
            }
            match failure {
                Some(failure) => {
                    failures.push(failure);
                    assert(failure_views(failures@) =~= failure_views(reported).push(failure@));
                },
                None => {},
            }
        }
        failures
    }
}

/// What is reported of the first displays rests on these alone.
proof fn lemma_same_reports(before: SetView, after: SetView, other: SetView, count: nat)
    requires
        forall|j: int|
            0 <= j < count ==> #[trigger] other.offers[j] == after.offers[j] && other.names[j]
                == after.names[j],
    ensures
        reports(before, after, count) == reports(before, other, count),
    decreases count,
{
    if count > 0 {
        lemma_same_reports(before, after, other, (count - 1) as nat);
        assert(other.offers[count - 1] == after.offers[count - 1]);
    }
}

/// A display's part in a history of passes since its set was made: the offers
/// made to it and the error remembered of it, before each pass and after the
/// last, and the name that it went by after each pass.
pub struct DisplayHistory {
    pub offers: Seq<Seq<DisplayCall>>,
    pub errors: Seq<Option<Seq<char>>>,
    pub names: Seq<Seq<char>>,
    pub plans: Seq<PlanView>,
    pub moments: Seq<u128>,
}

impl DisplayHistory {
    /// The number of passes.
    pub open spec fn passes(self) -> nat {
        self.plans.len()
    }

    /// What the display answered in a pass.
    pub open spec fn answer(self, pass: int) -> Result<PublishOutcome, Seq<char>> {
        answer_given(self.offers[pass], self.offers[pass + 1])
    }

    /// The failure that a pass reported of the display.
    pub open spec fn failure(self, pass: int) -> Option<FailureView> {
        failure_of(
            self.offers[pass],
            self.errors[pass],
            self.offers[pass + 1],
            self.names[pass],
        )
    }

    /// A step of the history is a pass over the display.
    pub open spec fn is_pass(self, pass: int) -> bool {
        pass_run(
            self.offers[pass],
            self.errors[pass],
            self.offers[pass + 1],
            self.errors[pass + 1],
            self.plans[pass],
            self.moments[pass],
        )
    }

    /// No error is remembered at first, and every step is a pass.
    pub open spec fn wf(self) -> bool {
        &&& self.offers.len() == self.passes() + 1
        &&& self.errors.len() == self.passes() + 1
        &&& self.names.len() == self.passes()
        &&& self.moments.len() == self.passes()
        &&& self.errors[0] is None
        &&& forall|pass: int| 0 <= pass < self.passes() ==> #[trigger] self.is_pass(pass)
    }

    /// A pass failed with the message, and none between it and `end` failed or
    /// sent a new state.
    pub open spec fn still_failed(self, pass: int, message: Seq<char>, end: int) -> bool {
        &&& 0 <= pass < end
        &&& self.answer(pass) == Err::<PublishOutcome, Seq<char>>(message)
        &&& forall|later: int|
            pass < later < end ==> (#[trigger] self.answer(later)) is Ok && self.answer(later)->Ok_0
                != PublishOutcome::Updated
    }
}

/// The error remembered before a pass is the message of the latest failure
/// after which no new state was sent.
proof fn lemma_error_remembered(history: DisplayHistory, end: int, message: Seq<char>)
    requires
        history.wf(),
        0 <= end <= history.passes(),
    ensures
        history.errors[end] == Some(message) <==> exists|pass: int|
            #[trigger] history.still_failed(pass, message, end),
    decreases end,
{
    if end > 0 {
        let latest = end - 1;
        lemma_error_remembered(history, latest, message);
        assert(history.is_pass(latest));
        if history.errors[end] == Some(message) {
            if history.answer(latest) is Err {
                assert(history.still_failed(latest, message, end));
            } else {
                let pass = choose|pass: int| #[trigger] history.still_failed(pass, message, latest);
                assert(history.still_failed(pass, message, end));
            }
        }
        if exists|pass: int| #[trigger] history.still_failed(pass, message, end) {
            let pass = choose|pass: int| #[trigger] history.still_failed(pass, message, end);
            if pass < latest {
                assert(history.answer(latest) is Ok);
                assert(history.still_failed(pass, message, latest));
            }
        }
    }
}

/// In any history, a pass reports a display exactly when it fails with an
/// error other than the one it last failed with, or a new state was sent since.
/// The report holds that error, under the name that the display goes by.
pub proof fn law_failure_is_reported_once(history: DisplayHistory, pass: int)
    requires
        history.wf(),
        0 <= pass < history.passes(),
    ensures
        history.failure(pass) == match history.answer(pass) {
            Ok(_) => None,
            Err(message) => if exists|earlier: int|
                #[trigger] history.still_failed(earlier, message, pass) {
                None
            } else {
                Some(FailureView { adapter: history.names[pass], message })
            },
        },
{
    if history.answer(pass) is Err {
        lemma_error_remembered(history, pass, history.answer(pass)->Err_0);
    }
}

/// A pass over a set is a pass over each of its displays, whatever the others
/// answer, and reports each one's failure.
pub proof fn law_displays_are_independent(
    before: SetView,
    after: SetView,
    plan: PlanView,
    now: u128,
    display: int,
)
    requires
        set_run(before, after, plan, now),
        0 <= display < before.offers.len(),
    ensures
        is_pass_over(before, after, display, plan, now),
        after.offers[display].len() == before.offers[display].len() + 1,
        after.offers[display].drop_last() == before.offers[display],
        after.offers[display].last().plan == plan,
        after.offers[display].last().now == now,
        match failure_of(
            before.offers[display],
            before.errors[display],
            after.offers[display],
            after.names[display],
        ) {
            Some(failure) => reports(before, after, before.offers.len()).contains(failure),
            None => true,
        },
{
    lemma_reports_hold(before, after, before.offers.len(), display);
    assert(is_pass_over(before, after, display, plan, now));
    assert(after.offers[display].drop_last() =~= before.offers[display]);
}

/// A display's failure is among what is reported.
proof fn lemma_reports_hold(before: SetView, after: SetView, count: nat, display: int)
    requires
        0 <= display < count,
    ensures
        match failure_of(
            before.offers[display],
            before.errors[display],
            after.offers[display],
            after.names[display],
        ) {
            Some(failure) => reports(before, after, count).contains(failure),
            None => true,
        },
    decreases count,
{
    let index = count - 1;
    let earlier = reports(before, after, index as nat);
    let all = reports(before, after, count);
    let failed = failure_of(
        before.offers[display],
        before.errors[display],
        after.offers[display],
        after.names[display],
    );
    if display == index {
        if let Some(failure) = failed {
            assert(all.last() == failure);
            assert(all.contains(failure));
        }
    } else {
        lemma_reports_hold(before, after, index as nat, display);
        if let Some(failure) = failed {
            let place = choose|place: int| 0 <= place < earlier.len() && earlier[place] == failure;
            assert(all[place] == failure);
        }
    }
}

/// Remembers the last error of a repeated activity, so that it is shown once.
#[derive(Debug)]
pub struct ErrorLatch {
    last: Option<String>,
}

impl View for ErrorLatch {
    type V = Option<Seq<char>>;

    closed spec fn view(&self) -> Option<Seq<char>> {
        option_view(self.last)
    }
}

impl ErrorLatch {
    /// Remembers no error.
    pub fn new() -> (latch: Self)
        ensures
            latch@ is None,
    {
        ErrorLatch { last: None }
    }

    /// The activity succeeded.
    pub fn clear(&mut self)
        ensures
            final(self)@ is None,
    {
        self.last = None;
    }

    /// The activity failed. Returns whether the error is to be shown.
    pub fn report(&mut self, message: &str) -> (new: bool)
        ensures
            new == (old(self)@ != Some(message@)),
            final(self)@ == Some(message@),
    {
        let known = match &self.last {
            Some(last) => same_text(last.as_str(), message),
            None => false,
        };
        if !known {
            self.last = Some(message.to_owned());
        }
        !known
    }
}

} // verus!
