use std::{cell::RefCell, collections::VecDeque, rc::Rc};

use beckon::config::ProcessOutputPlugin;
use beckon::display::{
    take_answer, DisplayFailure, DisplaySet, DisplaySink, ErrorLatch, Glove80UsbDisplay,
    PublishOutcome,
};
use beckon::display_protocol::{to_ndjson, DisplayMessage, PROTOCOL_NAME, PROTOCOL_VERSION};
use beckon::hid::{StatusSnapshot, StatusWriter, WriteError};
use beckon::plugin::{
    outcome_of, Action, Event, Mailbox, PluginFeed, Stage, Supervisor, WorkerStatus,
};
use beckon::render::{render, DisplayConfig, RenderPlan};

struct FakeSink {
    id: &'static str,
    outcomes: VecDeque<Result<PublishOutcome, String>>,
    calls: Rc<RefCell<usize>>,
}

impl DisplaySink for FakeSink {
    fn id(&self) -> &str {
        self.id
    }

    fn publish(&mut self, _plan: &RenderPlan, _now: u128) -> Result<PublishOutcome, String> {
        *self.calls.borrow_mut() += 1;
        self.outcomes.pop_front().unwrap_or(Ok(PublishOutcome::Unchanged))
    }
}

fn plan() -> RenderPlan {
    render(&DisplayConfig::default(), &[]).unwrap()
}

fn failed() -> Result<PublishOutcome, String> {
    Err("transport failed".into())
}

#[test]
fn empty_display_set_is_valid() {
    assert!(DisplaySet::<FakeSink>::default().publish(&plan(), 0).is_empty());
}

#[test]
fn unavailable_sink_is_an_expected_condition() {
    let calls = Rc::new(RefCell::new(0));
    let sink = FakeSink {
        id: "optional",
        outcomes: [Ok(PublishOutcome::Unavailable)].into(),
        calls: calls.clone(),
    };
    let mut displays = DisplaySet::new(vec![sink]);

    assert!(displays.publish(&plan(), 0).is_empty());
    assert_eq!(*calls.borrow(), 1);
}

struct UnavailableWriter;

impl StatusWriter for UnavailableWriter {
    fn write_snapshot(&mut self, _snapshot: StatusSnapshot) -> Result<(), WriteError> {
        Err(WriteError::Unavailable)
    }
}

#[test]
fn glove80_adapter_maps_a_missing_endpoint_to_unavailable() {
    let mut display = Glove80UsbDisplay::new(UnavailableWriter);

    assert_eq!(display.publish(&plan(), 0).unwrap(), PublishOutcome::Unavailable);
}

#[test]
fn isolates_and_deduplicates_sink_failures() {
    let failed_calls = Rc::new(RefCell::new(0));
    let healthy_calls = Rc::new(RefCell::new(0));
    let failing = FakeSink {
        id: "failed",
        outcomes: [failed(), failed(), Ok(PublishOutcome::Updated), failed()].into(),
        calls: failed_calls.clone(),
    };
    let healthy = FakeSink {
        id: "healthy",
        outcomes: [
            Ok(PublishOutcome::Updated),
            Ok(PublishOutcome::Updated),
            Ok(PublishOutcome::Updated),
            Ok(PublishOutcome::Updated),
        ]
        .into(),
        calls: healthy_calls.clone(),
    };
    let mut displays = DisplaySet::new(vec![failing, healthy]);

    let reported = displays.publish(&plan(), 0);
    assert_eq!(reported.len(), 1);
    assert_eq!(
        reported[0],
        DisplayFailure { adapter: "failed".into(), message: "transport failed".into() }
    );
    assert!(displays.publish(&plan(), 1).is_empty());
    assert!(displays.publish(&plan(), 2).is_empty());
    assert_eq!(displays.publish(&plan(), 3).len(), 1);
    assert_eq!(*failed_calls.borrow(), 4);
    assert_eq!(*healthy_calls.borrow(), 4);
}

#[test]
fn unchanged_does_not_claim_recovery_from_an_error() {
    let calls = Rc::new(RefCell::new(0));
    let sink = FakeSink {
        id: "backing-off",
        outcomes: [failed(), Ok(PublishOutcome::Unchanged), failed()].into(),
        calls,
    };
    let mut displays = DisplaySet::new(vec![sink]);

    assert_eq!(displays.publish(&plan(), 0).len(), 1);
    assert!(displays.publish(&plan(), 1).is_empty());
    assert!(displays.publish(&plan(), 2).is_empty());
}

#[test]
fn another_error_is_reported_too() {
    let sink = FakeSink {
        id: "moody",
        outcomes: [failed(), Err("other".into()), failed()].into(),
        calls: Rc::new(RefCell::new(0)),
    };
    let mut displays = DisplaySet::new(vec![sink]);
    let messages: Vec<String> =
        (0..3).flat_map(|now| displays.publish(&plan(), now)).map(|f| f.message).collect();
    assert_eq!(messages, ["transport failed", "other", "transport failed"]);
}

struct Recorder(Rc<RefCell<Vec<StatusSnapshot>>>, VecDeque<Result<(), WriteError>>);

impl StatusWriter for Recorder {
    fn write_snapshot(&mut self, snapshot: StatusSnapshot) -> Result<(), WriteError> {
        self.0.borrow_mut().push(snapshot);
        self.1.pop_front().unwrap_or(Ok(()))
    }
}

#[test]
fn the_keyboard_display_reports_updates_and_failures() {
    let writes = Rc::new(RefCell::new(Vec::new()));
    let answers = [Err(WriteError::Failed("pipe".into()))].into();
    let mut display = Glove80UsbDisplay::new(Recorder(writes.clone(), answers));
    assert_eq!(display.id(), "glove80-usb");
    assert_eq!(display.publish(&plan(), 0), Err("pipe".into()));
    assert_eq!(display.publish(&plan(), 1), Ok(PublishOutcome::Unchanged));
    assert_eq!(display.publish(&plan(), 2_000_000_000), Ok(PublishOutcome::Updated));
    assert_eq!(display.publish(&plan(), 2_000_000_001), Ok(PublishOutcome::Unchanged));
    assert_eq!(writes.borrow().len(), 2);
}

#[test]
fn an_error_latch_shows_an_error_once() {
    let mut latch = ErrorLatch::new();
    assert!(latch.report("a"));
    assert!(!latch.report("a"));
    assert!(latch.report("b"));
    latch.clear();
    assert!(latch.report("b"));
}

#[test]
fn hello_identifies_protocol_version_and_plugin() {
    match DisplayMessage::hello("status-log") {
        DisplayMessage::Hello { protocol, version, plugin_id } => {
            assert_eq!((protocol, version, plugin_id), ("beckon.display", 1, "status-log"));
        }
        other => panic!("{other:?}"),
    }
    assert_eq!((PROTOCOL_NAME, PROTOCOL_VERSION), ("beckon.display", 1));
}

#[test]
fn render_is_a_complete_self_describing_snapshot() {
    let plan = render(&DisplayConfig::default(), &[]).unwrap();
    match DisplayMessage::render(7, &plan) {
        DisplayMessage::Render { protocol, version, sequence, plan } => {
            assert_eq!((protocol, version, sequence), ("beckon.display", 1, 7));
            assert_eq!(plan.keys.len(), 10);
            assert_eq!(plan.keys[0].key, "f1");
            assert!(plan.treatments == DisplayConfig::default().selected_theme().unwrap());
        }
        other => panic!("{other:?}"),
    }
}

#[test]
fn ndjson_messages_end_in_exactly_one_newline() {
    let value = serde_json::from_str::<serde_json::Value>(
        "{\"type\":\"hello\",\"plugin_id\":\"status-log\\n\"}",
    )
    .unwrap();
    let bytes = to_ndjson(serde_json::to_vec(&value).unwrap());

    assert!(bytes.ends_with(b"\n"));
    assert!(!bytes.ends_with(b"\n\n"));
    assert_eq!(bytes.iter().filter(|byte| **byte == b'\n').count(), 1);
    serde_json::from_slice::<serde_json::Value>(&bytes).unwrap();
}

#[test]
fn a_plan_is_handed_to_a_plugin_once() {
    let mut feed = PluginFeed::new();
    let mut held = None;
    let shown = plan();
    assert_eq!(
        feed.queue(&shown, Mailbox::Closed, &mut held),
        Err("display plugin worker stopped unexpectedly".into())
    );
    assert_eq!(
        feed.queue(&shown, Mailbox::ShutDown, &mut held),
        Err("display plugin worker is shutting down".into())
    );
    assert!(held.is_none());
    assert_eq!(feed.queue(&shown, Mailbox::Open, &mut held), Ok(true));
    assert_eq!(held.as_ref().unwrap().sequence, 1);
    assert_eq!(feed.queue(&shown, Mailbox::Open, &mut held), Ok(false));
    assert_eq!(feed.queue(&shown, Mailbox::Closed, &mut held), Ok(false));
    assert_eq!(held.as_ref().unwrap().sequence, 1);
}

#[test]
fn the_mailbox_of_a_plugin_holds_the_latest_plan_alone() {
    let mut feed = PluginFeed::new();
    let mut held = None;
    let mut shown = plan();
    for (sequence, name) in [(1, "a"), (2, "b"), (3, "a")] {
        shown.keys[0].key = name.into();
        assert_eq!(feed.queue(&shown, Mailbox::Open, &mut held), Ok(true));
        let queued = held.clone().unwrap();
        assert_eq!(queued.sequence, sequence);
        assert!(queued.plan == shown);
        match queued.message() {
            DisplayMessage::Render { sequence: sent, plan, .. } => {
                assert_eq!(sent, sequence);
                assert_eq!(plan.keys[0].key, name);
            }
            other => panic!("{other:?}"),
        }
    }
}

struct Renamed {
    ids: VecDeque<&'static str>,
    answers: VecDeque<Result<PublishOutcome, String>>,
}

impl DisplaySink for Renamed {
    fn id(&self) -> &str {
        self.ids.front().copied().unwrap_or("nameless")
    }

    fn publish(&mut self, _plan: &RenderPlan, _now: u128) -> Result<PublishOutcome, String> {
        self.ids.pop_front();
        self.answers.pop_front().unwrap_or(Ok(PublishOutcome::Unchanged))
    }
}

#[test]
fn a_failure_is_reported_under_the_name_of_the_moment() {
    let sink = Renamed {
        ids: ["made", "first", "second"].into(),
        answers: [failed(), Err("other".into())].into(),
    };
    let other = Renamed { ids: ["x", "y", "z"].into(), answers: [failed(), failed()].into() };
    let mut displays = DisplaySet::new(vec![sink, other]);
    let names = |failures: Vec<DisplayFailure>| {
        failures.into_iter().map(|failure| failure.adapter).collect::<Vec<_>>()
    };
    assert_eq!(names(displays.publish(&plan(), 0)), ["first", "y"]);
    assert_eq!(names(displays.publish(&plan(), 1)), ["second"]);
}

#[test]
fn an_answer_leads_to_what_is_remembered_and_reported() {
    let error = || Some("transport failed".to_string());
    assert_eq!(take_answer(None, failed()), (error(), error()));
    assert_eq!(take_answer(error(), failed()), (error(), None));
    assert_eq!(take_answer(error(), Err("b".into())), (Some("b".into()), Some("b".into())));
    assert_eq!(take_answer(error(), Ok(PublishOutcome::Updated)), (None, None));
    assert_eq!(take_answer(error(), Ok(PublishOutcome::Unchanged)), (error(), None));
    assert_eq!(take_answer(error(), Ok(PublishOutcome::Unavailable)), (error(), None));
}

#[test]
fn the_last_report_of_a_worker_counts() {
    assert_eq!(outcome_of(&vec![]), Ok(PublishOutcome::Unchanged));
    assert_eq!(
        outcome_of(&vec![WorkerStatus::Failed("x".into()), WorkerStatus::Delivered]),
        Ok(PublishOutcome::Updated)
    );
    assert_eq!(
        outcome_of(&vec![WorkerStatus::Delivered, WorkerStatus::Failed("x".into())]),
        Err("x".into())
    );
}

#[test]
fn a_session_greets_before_it_renders_and_ends_with_the_daemon() {
    let mut supervisor = Supervisor::new("tee");
    assert_eq!(supervisor.next(Event::Snapshot(1)), Action::Spawn);
    assert_eq!(supervisor.next(Event::Done), Action::Greet);
    assert_eq!(supervisor.next(Event::Done), Action::Send);
    assert_eq!(supervisor.stage(), Stage::Sending(1));
    assert_eq!(supervisor.next(Event::Done), Action::Watch { delivered: true });
    assert_eq!(supervisor.next(Event::Alive), Action::Watch { delivered: false });
    assert_eq!(supervisor.next(Event::Empty), Action::Watch { delivered: false });
    assert_eq!(supervisor.next(Event::Snapshot(5)), Action::Send);
    assert_eq!(supervisor.next(Event::Done), Action::Watch { delivered: true });
    assert_eq!(supervisor.next(Event::MailboxClosed), Action::Close);
    assert_eq!(supervisor.next(Event::Done), Action::Finish);
    assert_eq!(supervisor.stage(), Stage::Ended);
}

#[test]
fn a_failed_session_is_reported_and_retried() {
    let plugin = ProcessOutputPlugin {
        id: "missing".into(),
        command: vec!["/path/that/does/not/exist/beckon-plugin".into()],
    };
    let mut supervisor = Supervisor::new(&plugin.command[0]);
    supervisor.next(Event::Snapshot(1));
    assert_eq!(
        supervisor.next(Event::Failed("not found".into())),
        Action::Rest {
            stop: false,
            message:
                "spawn executable \"/path/that/does/not/exist/beckon-plugin\": not found".into(),
        }
    );
    assert_eq!(supervisor.next(Event::Done), Action::AwaitSnapshot);
    supervisor.next(Event::Snapshot(2));
    supervisor.next(Event::Done);
    assert_eq!(
        supervisor.next(Event::Failed("broken pipe".into())),
        Action::Rest { stop: true, message: "write protocol hello: broken pipe".into() }
    );
    supervisor.next(Event::Done);
    supervisor.next(Event::Snapshot(3));
    supervisor.next(Event::Done);
    supervisor.next(Event::Done);
    assert_eq!(
        supervisor.next(Event::Failed("timed out".into())),
        Action::Rest { stop: true, message: "write render sequence 3: timed out".into() }
    );
    assert_eq!(supervisor.next(Event::MailboxClosed), Action::Finish);
}

#[test]
fn an_exit_and_a_failed_poll_are_reported() {
    for (event, text) in [
        (Event::Exited("exit status: 1".into()), "plugin process exited with exit status: 1"),
        (Event::Failed("no child".into()), "poll plugin process: no child"),
    ] {
        let mut supervisor = Supervisor::new("p");
        supervisor.next(Event::Snapshot(1));
        supervisor.next(Event::Done);
        supervisor.next(Event::Done);
        supervisor.next(Event::Done);
        assert_eq!(
            supervisor.next(event),
            Action::Rest { stop: false, message: text.into() }
        );
    }
}
