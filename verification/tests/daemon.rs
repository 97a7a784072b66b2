use std::cell::RefCell;

use beckon::action::RepeatPressConfirm;
use beckon::binding::{Binding, BindingError, BindingState, Pane, STATE_VERSION};
use beckon::config::ConfirmConfig;
use beckon::focus::FocusAdapter;
use beckon::herdr::{
    choose_payload, command_failure, event_payload, fkey_args, focus_args, pane_event,
    pane_list_args, presentation_args, presentation_result, response_line, send_keys_args,
    HerdrEvent, PANE_EVENTS_REQUEST, PANE_LIST_REQUEST,
};
use beckon::name_map::NameMap;
use beckon::navigation::{
    activate, activation_name, focus_result_line, key_event_line, pane_is_focused, Activation,
};
use beckon::pane_cache::PaneEvent;
use beckon::presentation::{current_plan, PresentationPublisher, TickError};
use beckon::render::{AgentState, DisplayConfig};
use beckon::service::{
    BindingService, BindingStore, PaneDirectory, PresentationTokenWrite,
};
use beckon::status::PanePresentation;

#[derive(Default)]
struct RecordingDirectory {
    panes: RefCell<Vec<Pane>>,
    writes: RefCell<Vec<(String, String)>>,
    log: RefCell<Vec<String>>,
    pane_gone: bool,
    broken: bool,
}

impl PaneDirectory for &RecordingDirectory {
    fn panes(&mut self) -> Result<Vec<Pane>, String> {
        self.log.borrow_mut().push("list".into());
        if self.broken {
            return Err("no socket".into());
        }
        Ok(self.panes.borrow().clone())
    }

    fn write_fkey(&mut self, pane_id: &str, key: Option<&str>) -> Result<(), String> {
        self.log.borrow_mut().push(format!("fkey {pane_id} {key:?}"));
        Ok(())
    }

    fn write_presentation_tokens(
        &mut self,
        pane_id: &str,
        binding: &str,
    ) -> Result<PresentationTokenWrite, String> {
        if self.broken {
            return Err("no socket".into());
        }
        self.writes.borrow_mut().push((pane_id.into(), binding.into()));
        Ok(if self.pane_gone {
            PresentationTokenWrite::PaneGone
        } else {
            PresentationTokenWrite::Written
        })
    }

    fn focus_pane(&mut self, pane_id: &str) -> Result<(), String> {
        self.log.borrow_mut().push(format!("focus {pane_id}"));
        Ok(())
    }

    fn send_keys(&mut self, pane_id: &str, keys: &Vec<String>) -> Result<(), String> {
        self.log.borrow_mut().push(format!("send {pane_id} {keys:?}"));
        Ok(())
    }
}

#[derive(Default)]
struct Ledger(RefCell<Option<BindingState>>);

impl BindingStore for &Ledger {
    fn load(&mut self) -> Result<Option<BindingState>, String> {
        Ok(self.0.borrow().clone())
    }

    fn save(&mut self, state: &BindingState) -> Result<(), String> {
        *self.0.borrow_mut() = Some(state.clone());
        Ok(())
    }
}

fn ledger(bindings: &[(&str, &str)]) -> Ledger {
    Ledger(RefCell::new(Some(BindingState {
        state_version: STATE_VERSION,
        bindings: bindings
            .iter()
            .map(|(key, pane_id)| Binding { key: key.to_string(), pane_id: pane_id.to_string() })
            .collect(),
    })))
}

#[derive(Default)]
struct Terminal {
    raised: RefCell<usize>,
    broken: bool,
}

impl FocusAdapter for &Terminal {
    fn focus_terminal(&mut self) -> Result<(), String> {
        *self.raised.borrow_mut() += 1;
        if self.broken {
            Err("no terminal".into())
        } else {
            Ok(())
        }
    }
}

fn pane(id: &str, status: &str, focused: bool, fkey: Option<&str>) -> Pane {
    let mut tokens = NameMap::new();
    if let Some(key) = fkey {
        tokens.insert("fkey".into(), key.into());
    }
    Pane {
        pane_id: id.into(),
        revision: 0,
        agent_status: status.into(),
        agent: None,
        label: None,
        cwd: None,
        terminal_title: None,
        terminal_title_stripped: None,
        focused,
        tokens,
    }
}

#[test]
fn presentation_tokens_publish_once_and_on_binding_change() {
    let directory = RecordingDirectory::default();
    let mut publisher = PresentationPublisher::default();
    let pane = |binding: &str| PanePresentation {
        pane_id: "w:p1".into(),
        title: "task".into(),
        binding: binding.into(),
        agent_status: "idle".into(),
        focused: false,
    };
    let mut panes = &directory;

    assert!(publisher.publish(&mut panes, &vec![pane("unbound")]).unwrap());
    assert!(!publisher.publish(&mut panes, &vec![pane("unbound")]).unwrap());
    assert!(publisher.publish(&mut panes, &vec![pane("F4")]).unwrap());
    assert_eq!(
        *directory.writes.borrow(),
        vec![("w:p1".into(), "unbound".into()), ("w:p1".into(), "F4".into()),]
    );
}

#[test]
fn presentation_token_pane_gone_is_an_expected_close_race() {
    let directory = RecordingDirectory { pane_gone: true, ..Default::default() };
    let mut publisher = PresentationPublisher::default();
    let pane = PanePresentation {
        pane_id: "w:p1".into(),
        title: "closing task".into(),
        binding: "F2".into(),
        agent_status: "working".into(),
        focused: false,
    };
    let mut panes = &directory;

    assert!(!publisher.publish(&mut panes, &vec![pane.clone()]).unwrap());
    assert!(!publisher.publish(&mut panes, &vec![pane]).unwrap());
    assert_eq!(*directory.writes.borrow(), vec![("w:p1".into(), "F2".into())]);
}

#[test]
fn a_pane_that_comes_back_is_published_again() {
    let directory = RecordingDirectory::default();
    directory.panes.borrow_mut().push(pane("p1", "idle", false, None));
    let store = ledger(&[("f3", "p1")]);
    let mut service = BindingService::new(&store, &directory);
    let mut publisher = PresentationPublisher::default();
    assert!(publisher.sync(&mut service).unwrap());
    assert!(!publisher.sync(&mut service).unwrap());
    let gone = directory.panes.borrow_mut().pop().unwrap();
    assert!(!publisher.sync(&mut service).unwrap());
    directory.panes.borrow_mut().push(gone);
    assert!(publisher.sync(&mut service).unwrap());
    assert_eq!(directory.writes.borrow().len(), 2);
    assert_eq!(directory.writes.borrow()[0], ("p1".to_string(), "F3".to_string()));
}

#[test]
fn a_publication_writes_the_panes_that_are_due_in_order() {
    let directory = RecordingDirectory::default();
    let mut publisher = PresentationPublisher::default();
    let mut panes = &directory;
    let rows = |shown: &[(&str, &str)]| -> Vec<PanePresentation> {
        shown
            .iter()
            .map(|(pane_id, binding)| PanePresentation {
                pane_id: pane_id.to_string(),
                title: "task".into(),
                binding: binding.to_string(),
                agent_status: "idle".into(),
                focused: false,
            })
            .collect()
    };
    let mut publish = |shown: &[(&str, &str)]| {
        let changed = publisher.publish(&mut panes, &rows(shown)).unwrap();
        let writes: Vec<String> =
            directory.writes.borrow_mut().drain(..).map(|(id, to)| format!("{id}={to}")).collect();
        assert_eq!(changed, !writes.is_empty());
        writes
    };
    assert_eq!(publish(&[("a", "F1"), ("b", "F2"), ("c", "F3")]), ["a=F1", "b=F2", "c=F3"]);
    assert_eq!(publish(&[("c", "F3"), ("a", "F4"), ("d", "F5")]), ["a=F4", "d=F5"]);
    assert_eq!(publish(&[("b", "F2"), ("c", "F3")]), ["b=F2"]);
    assert!(publish(&[("c", "F3"), ("b", "F2")]).is_empty());
    assert_eq!(publish(&[("a", "F4")]), ["a=F4"]);
}

#[test]
fn a_failed_publication_is_reported() {
    let directory = RecordingDirectory { broken: true, ..Default::default() };
    let store = ledger(&[]);
    let mut service = BindingService::new(&store, &directory);
    let mut publisher = PresentationPublisher::default();
    assert!(matches!(
        publisher.sync(&mut service),
        Err(BindingError::Directory(message)) if message == "no socket"
    ));
}

#[test]
fn the_plan_of_the_moment_shows_bound_live_panes_and_changes_nothing() {
    let directory = RecordingDirectory::default();
    directory.panes.borrow_mut().push(pane("p1", "working", false, None));
    let store = ledger(&[("f2", "p1"), ("f3", "gone")]);
    let mut service = BindingService::new(&store, &directory);
    let plan = current_plan(&mut service, &DisplayConfig::default()).unwrap();
    assert_eq!(plan.keys[1].state, Some(AgentState::Working));
    assert_eq!(plan.keys[2].state, None);
    assert_eq!(*directory.log.borrow(), ["list"]);
    assert_eq!(store.0.borrow().as_ref().unwrap().bindings.len(), 2);

    let mut display = DisplayConfig::default();
    display.keys.pop();
    let error = current_plan(&mut service, &display).unwrap_err();
    assert_eq!(error.message(), "display.keys must configure exactly ten Beckon keys");

    let broken = RecordingDirectory { broken: true, ..Default::default() };
    let mut service = BindingService::new(&store, &broken);
    assert!(matches!(
        current_plan(&mut service, &DisplayConfig::default()),
        Err(TickError::Directory(message)) if message == "no socket"
    ));
}

const MS: u128 = 1_000_000;

fn confirm(enabled: bool) -> ConfirmConfig {
    ConfirmConfig { enabled, repeat_press_ms: 750, keys: vec!["enter".into()] }
}

#[test]
fn a_press_focuses_and_never_sends_by_default() {
    let directory = RecordingDirectory::default();
    directory.panes.borrow_mut().push(pane("p1", "idle", true, Some("f1")));
    let store = ledger(&[("f1", "p1")]);
    let terminal = Terminal::default();
    let mut service = BindingService::new(&store, &directory);
    let mut focus = &terminal;
    let mut pending = RepeatPressConfirm::default();
    for now in [0, MS] {
        let pressed =
            activate("f1", &mut service, &mut focus, &mut pending, &confirm(false), now);
        assert_eq!(pressed, Activation::Focused);
    }
    assert_eq!(*terminal.raised.borrow(), 2);
    assert_eq!(
        *directory.log.borrow(),
        ["list", "list", "focus p1", "list", "list", "focus p1"]
    );
}

#[test]
fn a_repeated_press_confirms_once_where_it_is_enabled() {
    let directory = RecordingDirectory::default();
    directory.panes.borrow_mut().push(pane("p1", "idle", true, Some("f1")));
    let store = ledger(&[("f1", "p1")]);
    let terminal = Terminal::default();
    let mut service = BindingService::new(&store, &directory);
    let mut focus = &terminal;
    let mut pending = RepeatPressConfirm::default();
    let mut press =
        |now| activate("f1", &mut service, &mut focus, &mut pending, &confirm(true), now);
    assert_eq!(press(0), Activation::Focused);
    assert_eq!(press(750 * MS), Activation::Confirmed);
    assert_eq!(press(751 * MS), Activation::Focused);
    assert_eq!(press(751 * MS + 750 * MS + 1), Activation::Focused);
    let sent: Vec<String> =
        directory.log.borrow().iter().filter(|call| call.starts_with("send")).cloned().collect();
    assert_eq!(sent, ["send p1 [\"enter\"]"]);
    assert_eq!(*terminal.raised.borrow(), 3);
}

#[test]
fn only_the_latest_focus_press_can_be_confirmed() {
    let directory = RecordingDirectory::default();
    directory.panes.borrow_mut().push(pane("p1", "idle", true, Some("f1")));
    directory.panes.borrow_mut().push(pane("p2", "idle", true, Some("f2")));
    let store = ledger(&[("f1", "p1"), ("f2", "p2")]);
    let terminal = Terminal::default();
    let mut service = BindingService::new(&store, &directory);
    let mut focus = &terminal;
    let mut pending = RepeatPressConfirm::default();
    let mut press = |key: &str, now| {
        activate(key, &mut service, &mut focus, &mut pending, &confirm(true), now)
    };
    assert_eq!(press("f1", 0), Activation::Focused);
    assert_eq!(press("f2", 1), Activation::Focused);
    assert_eq!(press("f1", 2), Activation::Focused);
    assert!(matches!(press("f3", 3), Activation::FocusFailed(_)));
    assert_eq!(press("f1", 4), Activation::Confirmed);
    assert_eq!(press("f1", 5), Activation::Focused);
    let sent: Vec<String> =
        directory.log.borrow().iter().filter(|call| call.starts_with("send")).cloned().collect();
    assert_eq!(sent, ["send p1 [\"enter\"]"]);
}

#[test]
fn a_pane_that_lost_the_focus_is_focused_again() {
    let directory = RecordingDirectory::default();
    directory.panes.borrow_mut().push(pane("p1", "idle", false, Some("f1")));
    let store = ledger(&[("f1", "p1")]);
    let terminal = Terminal::default();
    let mut service = BindingService::new(&store, &directory);
    let mut focus = &terminal;
    let mut pending = RepeatPressConfirm::default();
    for now in [0, 1] {
        let pressed = activate("f1", &mut service, &mut focus, &mut pending, &confirm(true), now);
        assert_eq!(pressed, Activation::Focused);
    }
    assert!(!directory.log.borrow().iter().any(|call| call.starts_with("send")));
    assert!(!pane_is_focused(&mut &directory, "p1"));
}

#[test]
fn an_unbound_key_and_a_missing_terminal_are_reported() {
    let directory = RecordingDirectory::default();
    directory.panes.borrow_mut().push(pane("p1", "idle", true, Some("f1")));
    let store = ledger(&[("f1", "p1")]);
    let terminal = Terminal { broken: true, ..Default::default() };
    let mut service = BindingService::new(&store, &directory);
    let mut focus = &terminal;
    let mut pending = RepeatPressConfirm::default();
    let mut press = |key: &str| {
        activate(key, &mut service, &mut focus, &mut pending, &confirm(true), 0)
    };
    let unbound = BindingError::NotBound { key: "f2".into() }.message();
    assert_eq!(press("f2"), Activation::FocusFailed(unbound));
    assert_eq!(press("f1"), Activation::FocusFailed("no terminal".into()));
    assert_eq!(press("f1"), Activation::FocusFailed("no terminal".into()));
    assert_eq!(*terminal.raised.borrow(), 2);
    assert!(!directory.log.borrow().iter().any(|call| call.starts_with("focus")));
}

#[test]
fn presses_are_logged_with_their_result() {
    assert_eq!(
        key_event_line("f1", "Shift+F16", "daemon", 1_700_000_000_123),
        "1700000000123\tf1\tShift+F16\tdaemon\n"
    );
    assert_eq!(focus_result_line("f2", "ok", 0), "0\tf2\tfocus-ok\tdaemon\n");
    let names: Vec<&str> = [
        Activation::Confirmed,
        Activation::ConfirmFailed("x".into()),
        Activation::Focused,
        Activation::FocusFailed("x".into()),
    ]
    .iter()
    .map(activation_name)
    .collect();
    assert_eq!(names, ["confirm-ok", "confirm-error", "ok", "error"]);
}

fn text(value: &serde_json::Value, name: &str) -> Option<String> {
    value.get(name).and_then(|member| member.as_str()).map(str::to_owned)
}

fn decode_pane_event(line: &str) -> Result<Option<PaneEvent>, String> {
    let payload = event_payload(line)?;
    let value: serde_json::Value = serde_json::from_str(&payload).map_err(|e| e.to_string())?;
    pane_event(HerdrEvent {
        event_type: text(&value, "type").ok_or("missing type")?,
        pane: value.get("pane").map(|member| {
            pane(
                &text(member, "pane_id").unwrap(),
                &text(member, "agent_status").unwrap(),
                false,
                None,
            )
        }),
        pane_id: text(&value, "pane_id"),
    })
}

#[test]
fn decodes_updated_event_with_full_pane() {
    let event = decode_pane_event(
        r#"{"event":"pane_updated","data":{"type":"pane_updated","pane":{"pane_id":"w:p","agent_status":"working"}}}"#,
    )
    .unwrap();
    assert!(
        matches!(event, Some(PaneEvent::Upsert(Pane { pane_id, agent_status, .. })) if pane_id == "w:p" && agent_status == "working")
    );
}

#[test]
fn decodes_wrapped_closed_event() {
    let event = decode_pane_event(
        r#"{"event":"pane_closed","data":{"type":"pane_closed","pane_id":"w:p"}}"#,
    )
    .unwrap();
    assert_eq!(event, Some(PaneEvent::Remove("w:p".into())));
}

#[test]
fn ignores_non_pane_events() {
    assert_eq!(
        decode_pane_event(r#"{"id":"subscription","result":{"type":"subscription_started"}}"#)
            .unwrap(),
        None
    );
}

#[test]
fn a_payload_is_the_data_or_the_result_or_the_line() {
    assert_eq!(event_payload(r#"{"data": {"a": 1}, "result": 2}"#), Ok(r#"{"a":1}"#.into()));
    assert_eq!(event_payload(r#"{"result": [1, 2]}"#), Ok("[1,2]".into()));
    assert_eq!(event_payload(r#"{ "type": "x" }"#), Ok(r#"{"type":"x"}"#.into()));
    assert_eq!(
        event_payload(r#"{"type":"pane_closed","pane_id":"a","pane_id":"b"}"#),
        Ok(r#"{"pane_id":"b","type":"pane_closed"}"#.into())
    );
    assert_eq!(event_payload("[1]"), Ok("[1]".into()));
    assert_eq!(event_payload(r#"{"data":null,"result":2}"#), Ok("null".into()));
    assert!(event_payload("{").is_err());
    assert_eq!(choose_payload(None, Some("r".into()), "l".into()), "r");
    assert_eq!(choose_payload(None, None, "l".into()), "l");
}

#[test]
fn pane_events_without_their_pane_are_refused() {
    let event = |event_type: &str, listed: Option<Pane>| HerdrEvent {
        event_type: event_type.into(),
        pane: listed,
        pane_id: None,
    };
    assert_eq!(pane_event(event("pane_created", None)), Err("pane event omitted pane".into()));
    assert_eq!(
        pane_event(event("pane_exited", None)),
        Err("pane removal event omitted pane_id".into())
    );
    let named = pane("p7", "idle", false, None);
    assert_eq!(
        pane_event(event("pane_exited", Some(named))),
        Ok(Some(PaneEvent::Remove("p7".into())))
    );
}

#[test]
fn herdr_commands_have_their_arguments() {
    assert_eq!(pane_list_args(), ["pane", "list"]);
    assert_eq!(
        fkey_args("w:p", Some("f3")),
        ["pane", "report-metadata", "w:p", "--source", "beckond", "--token", "fkey=f3"]
    );
    assert_eq!(
        fkey_args("w:p", None),
        ["pane", "report-metadata", "w:p", "--source", "beckond", "--clear-token", "fkey"]
    );
    assert_eq!(focus_args("w:p"), ["agent", "focus", "w:p"]);
    assert_eq!(
        presentation_args("w:p", "F3"),
        [
            "pane", "report-metadata", "w:p", "--source", "beckond", "--token", "pane=w:p",
            "--token", "binding=F3",
        ]
    );
    assert_eq!(
        send_keys_args("w:p", &vec!["y".into(), "enter".into()]),
        ["pane", "send-keys", "w:p", "y", "enter"]
    );
    assert_eq!(send_keys_args("w:p", &vec![]), ["pane", "send-keys", "w:p"]);
    assert_eq!(
        command_failure("herdr pane list", " no server \n"),
        "herdr pane list failed: no server"
    );
}

#[test]
fn a_pane_that_is_gone_is_no_failed_publication() {
    let written = Ok(PresentationTokenWrite::Written);
    let gone = Ok(PresentationTokenWrite::PaneGone);
    assert_eq!(presentation_result(true, ""), written);
    assert_eq!(presentation_result(true, "pane_not_found"), written);
    assert_eq!(presentation_result(false, "error: pane_not_found: w:p\n"), gone);
    assert_eq!(presentation_result(false, "pane not found"), gone);
    for stderr in [" no server\n", "pane not foun", "pane  not found", "Pane not found", ""] {
        assert_eq!(
            presentation_result(false, stderr),
            Err(format!("presentation token update failed: {}", stderr.trim()))
        );
    }
}

#[test]
fn requests_to_herdr_are_json_lines() {
    let request: serde_json::Value = serde_json::from_str(PANE_LIST_REQUEST).unwrap();
    assert_eq!(request["method"], "pane.list");
    assert_eq!(request["params"], serde_json::Value::Object(serde_json::Map::new()));
    let request: serde_json::Value = serde_json::from_str(PANE_EVENTS_REQUEST).unwrap();
    assert_eq!(request["method"], "events.subscribe");
    assert_eq!(request["params"]["subscriptions"][3]["type"], "pane.exited");
    assert_eq!(response_line("{}\n"), Ok(()));
    assert_eq!(
        response_line(" \n"),
        Err("Herdr closed request stream without a response".into())
    );
}
