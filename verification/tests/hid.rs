use std::collections::VecDeque;

use beckon::binding::KEY_IDS;
use beckon::brightness::Brightness;
use beckon::hid::{
    check_written, is_status_endpoint, list_lines, malformed_report, only_endpoint, probe_line,
    selection_error, sent_line, slots_from_states, status_endpoints, Device, Endpoint, RenderSink, SelectError, Status,
    StatusSnapshot, StatusWriter, WriteError, DISCONNECTED_RETRY_DELAY, GLOVE80_PRODUCT_ID,
    GLOVE80_VENDOR_ID, REPORT_SIZE, SLOT_COUNT, STATUS_USAGE, VENDOR_USAGE_PAGE,
};
use beckon::render::{herdr_theme, AgentState, DisplayConfig, KeyRender, Motion, RenderPlan, Rgb};

#[test]
fn encodes_complete_snapshot_with_zeroed_reserved_bytes() {
    let report = StatusSnapshot::for_manual_send(
        42,
        [
            Status::Unbound,
            Status::Idle,
            Status::Working,
            Status::Blocked,
            Status::Done,
            Status::Unknown,
            Status::Unbound,
            Status::Unbound,
            Status::Unbound,
            Status::Unbound,
        ],
    )
    .encode();

    assert_eq!(report.len(), REPORT_SIZE);
    assert_eq!(&report[..4], &[2, 1, 42, 0]);
    assert_eq!(&report[4..8], &[0b10001000, 0b11000110, 0b00000010, 0]);
    assert_eq!(&report[8..11], &[59, 160, 255]);
    assert_eq!(&report[23..28], &[51, 153, 204, 204, 77]);
    assert_eq!(&report[28..30], &[0b10001000, 0b00110000]);
    assert!(report[30..].iter().all(|byte| *byte == 0));
}

#[test]
fn parses_only_protocol_status_names() {
    assert_eq!("working".parse::<Status>(), Ok(Status::Working));
    assert!("paused".parse::<Status>().is_err());
}

#[derive(Default)]
struct RecordingWriter {
    writes: Vec<StatusSnapshot>,
    failures: VecDeque<bool>,
}

impl StatusWriter for RecordingWriter {
    fn write_snapshot(&mut self, snapshot: StatusSnapshot) -> Result<(), WriteError> {
        if self.failures.pop_front().unwrap_or(false) {
            return Err(WriteError::Failed("simulated disconnected keyboard".into()));
        }
        self.writes.push(snapshot);
        Ok(())
    }
}

fn plan(states: [Option<AgentState>; SLOT_COUNT]) -> RenderPlan {
    RenderPlan {
        keys: KEY_IDS
            .into_iter()
            .zip(states)
            .map(|(key, state)| KeyRender {
                key: key.into(),
                state,
                color: "#000000".parse::<Rgb>().unwrap(),
                brightness: Brightness { bits: 0.0_f32.to_bits() },
                motion: Motion::Steady,
            })
            .collect(),
        treatments: DisplayConfig::default().selected_theme().unwrap(),
    }
}

fn first(state: AgentState) -> RenderPlan {
    plan([Some(state), None, None, None, None, None, None, None, None, None])
}

#[test]
fn render_sink_translates_and_deduplicates_meaningful_states() {
    let mut sink = RenderSink::new(RecordingWriter::default());
    let working = first(AgentState::Working);

    assert!(sink.publish(&working, 0).unwrap());
    assert!(!sink.publish(&working, 1).unwrap());

    let writer = sink.into_inner();
    assert_eq!(writer.writes.len(), 1);
    assert_eq!(writer.writes[0].sequence, 0);
    assert_eq!(writer.writes[0].slots[0], Status::Working);
    assert!(writer.writes[0].slots[1..].iter().all(|status| *status == Status::Unbound));
}

#[test]
fn render_sink_retries_a_snapshot_after_a_disconnect() {
    let writer =
        RecordingWriter { failures: VecDeque::from([true, false]), ..Default::default() };
    let mut sink = RenderSink::new(writer);
    let idle = first(AgentState::Idle);

    let now: u128 = 77;
    assert!(sink.publish(&idle, now).is_err());
    assert!(!sink.publish(&idle, now + DISCONNECTED_RETRY_DELAY - 1_000_000).unwrap());
    assert!(sink.publish(&idle, now + DISCONNECTED_RETRY_DELAY).unwrap());

    let writer = sink.into_inner();
    assert_eq!(writer.writes.len(), 1);
    assert_eq!(writer.writes[0].sequence, 0);
}

#[test]
fn the_sequence_counts_written_snapshots_and_wraps() {
    let mut sink = RenderSink::new(RecordingWriter::default());
    let states = [AgentState::Idle, AgentState::Done];
    for step in 0..257_usize {
        assert!(sink.publish(&first(states[step % 2]), step as u128).unwrap());
    }
    let writer = sink.into_inner();
    assert_eq!(writer.writes[255].sequence, 255);
    assert_eq!(writer.writes[256].sequence, 0);
}

#[test]
fn a_failed_write_uses_up_no_sequence_number() {
    let failures = VecDeque::from([false, true, false]);
    let mut sink = RenderSink::new(RecordingWriter { failures, ..Default::default() });
    let (idle, done) = (first(AgentState::Idle), first(AgentState::Done));
    assert_eq!(sink.publish(&idle, 0), Ok(true));
    assert!(sink.publish(&done, 1).is_err());
    assert_eq!(sink.publish(&idle, 2), Ok(false));
    assert_eq!(sink.publish(&done, 1 + DISCONNECTED_RETRY_DELAY - 1), Ok(false));
    assert_eq!(sink.publish(&done, 1 + DISCONNECTED_RETRY_DELAY), Ok(true));
    assert_eq!(sink.publish(&idle, 2 + DISCONNECTED_RETRY_DELAY), Ok(true));
    let sequences: Vec<u8> = sink.into_inner().writes.iter().map(|write| write.sequence).collect();
    assert_eq!(sequences, [0, 1, 2]);
}

#[test]
fn a_changed_theme_is_written_even_where_the_states_stay() {
    let mut sink = RenderSink::new(RecordingWriter::default());
    let mut shown = first(AgentState::Idle);
    assert!(sink.publish(&shown, 0).unwrap());
    shown.treatments.idle.color = Rgb { red: 1, green: 2, blue: 3 };
    assert!(sink.publish(&shown, 0).unwrap());
    let writer = sink.into_inner();
    assert_eq!(writer.writes[1].treatments[0].color, Rgb { red: 1, green: 2, blue: 3 });
    assert_eq!(writer.writes[1].treatments[0].brightness, 51);
    assert_eq!(writer.writes[1].treatments[4].motion, Motion::Flicker);
}

#[test]
fn a_plan_without_the_ten_keys_is_refused() {
    let mut sink = RenderSink::new(RecordingWriter::default());
    let mut short = first(AgentState::Idle);
    short.keys.pop();
    assert_eq!(
        sink.publish(&short, 0),
        Err(WriteError::Failed("render plan must contain exactly 10 Beckon keys".into()))
    );
    let mut twice = first(AgentState::Idle);
    twice.keys[9].key = "f1".into();
    assert_eq!(
        sink.publish(&twice, 0),
        Err(WriteError::Failed("render plan must contain exactly 10 Beckon keys".into()))
    );
    let mut other = first(AgentState::Idle);
    other.keys[2].key = "f11".into();
    assert_eq!(
        sink.publish(&other, 0),
        Err(WriteError::Failed("render plan omitted f3".into()))
    );
    assert_eq!(sink.into_inner().writes.len(), 0);
}

#[test]
fn keys_of_a_plan_may_stand_in_any_order() {
    let mut sink = RenderSink::new(RecordingWriter::default());
    let mut shuffled = first(AgentState::Blocked);
    shuffled.keys.reverse();
    assert!(sink.publish(&shuffled, 0).unwrap());
    let writer = sink.into_inner();
    assert_eq!(writer.writes[0].slots[0], Status::Blocked);
    assert_eq!(writer.writes[0].slots[9], Status::Unbound);
}

#[test]
fn status_names_and_codes() {
    let all = [
        (Status::Unbound, "unbound", 0),
        (Status::Idle, "idle", 1),
        (Status::Working, "working", 2),
        (Status::Blocked, "blocked", 3),
        (Status::Done, "done", 4),
        (Status::Unknown, "unknown", 5),
    ];
    for (status, name, code) in all {
        assert_eq!((status.name(), status.code()), (name, code));
        assert_eq!(Status::parse(&format!(" {} ", name.to_uppercase())), Ok(status));
    }
    assert_eq!(
        Status::parse("pau\"sed"),
        Err("invalid status \"pau\\\"sed\"; expected unbound, idle, working, blocked, done, or unknown".into())
    );
}

#[test]
fn parses_comma_separated_hid_states() {
    let text = "working,unknown,unbound,unbound,unbound,unbound,unbound,unbound,unbound,unbound";
    let states: Vec<Status> = text.split(',').map(|state| state.parse().unwrap()).collect();
    assert_eq!(states.len(), SLOT_COUNT);
    let slots = slots_from_states(&states).unwrap();
    assert_eq!(slots[0], Status::Working);
    assert_eq!(slots[1], Status::Unknown);
    assert_eq!(
        slots_from_states(&states[..3].to_vec()),
        Err("expected 10 states for F1 through F10, received 3".into())
    );
}

#[test]
fn every_field_of_a_report_is_packed() {
    let mut snapshot = StatusSnapshot::for_manual_send(255, [Status::Unknown; 10]);
    for (index, treatment) in snapshot.treatments.iter_mut().enumerate() {
        treatment.color = Rgb { red: index as u8, green: 100 + index as u8, blue: 200 };
        treatment.brightness = 10 * index as u8;
        treatment.motion = Motion::Flicker;
    }
    let report = snapshot.encode();
    let word = u32::from_le_bytes([report[4], report[5], report[6], report[7]]);
    for slot in 0..10 {
        assert_eq!((word >> (3 * slot)) & 7, 5);
    }
    assert_eq!(word >> 30, 0);
    let motions = u16::from_le_bytes([report[28], report[29]]);
    for state in 0..5 {
        assert_eq!((motions >> (3 * state)) & 7, 3);
    }
    assert_eq!(motions >> 15, 0);
    let mut other = snapshot;
    other.slots[7] = Status::Done;
    assert_ne!(other.encode(), report);
    other = snapshot;
    other.treatments[2].motion = Motion::Pulse;
    assert_ne!(other.encode(), report);
    assert_eq!(&report[20..23], &[4, 104, 200]);
    assert_eq!(&report[23..28], &[0, 10, 20, 30, 40]);
}

fn device(product_id: u16, usage: u16, path: &str) -> Device {
    Device {
        endpoint: Endpoint {
            path: path.into(),
            vendor_id: GLOVE80_VENDOR_ID,
            product_id,
            interface_number: 2,
            manufacturer: Some("MoErgo".into()),
            product: None,
            serial_number: None,
        },
        usage_page: VENDOR_USAGE_PAGE,
        usage,
    }
}

#[test]
fn only_the_one_status_endpoint_is_opened() {
    let keyboard = || device(GLOVE80_PRODUCT_ID, 6, "/keyboard");
    let status = |path: &str| device(GLOVE80_PRODUCT_ID, STATUS_USAGE, path);
    assert!(is_status_endpoint(&status("/a")));
    assert!(!is_status_endpoint(&keyboard()));
    assert!(!is_status_endpoint(&device(1, STATUS_USAGE, "/b")));

    assert_eq!(only_endpoint(&vec![keyboard(), status("/a")]), Ok(1));
    assert_eq!(only_endpoint(&vec![keyboard()]), Err(SelectError::Unavailable));
    let several = vec![status("/a"), keyboard(), status("/b")];
    assert_eq!(only_endpoint(&several), Err(SelectError::Several(2)));
    let listed = status_endpoints(&several);
    let paths: Vec<&str> = listed.iter().map(|endpoint| endpoint.path.as_str()).collect();
    assert_eq!(paths, ["/a", "/b"]);
    assert_eq!(listed[0].manufacturer.as_deref(), Some("MoErgo"));
}

#[test]
fn selection_and_write_errors_say_what_is_wrong() {
    assert_eq!(
        selection_error(&SelectError::Several(3), "writing").message(),
        "found 3 Beckon status endpoints; disconnect other matching keyboards before writing"
    );
    let missing = selection_error(&SelectError::Unavailable, "probing");
    assert_eq!(missing, WriteError::Unavailable);
    assert_eq!(
        missing.message(),
        "no Beckon USB status endpoint found (expected 16C0:27DB, usage page 0xFF60, usage 0x0061)"
    );
    assert_eq!(check_written(32, 32), Ok(()));
    assert_eq!(
        check_written(7, 32),
        Err("short Beckon USB status write: wrote 7 of 32 bytes".into())
    );
    assert_eq!(malformed_report(), [2; 31]);
    assert!(herdr_theme() == DisplayConfig::default().selected_theme().unwrap());
}

#[test]
fn endpoints_are_listed_with_their_numbers() {
    let mut endpoint = device(GLOVE80_PRODUCT_ID, STATUS_USAGE, "/dev/hidraw3").endpoint;
    assert_eq!(list_lines(&vec![endpoint.clone()]), ["16C0:27DB\tinterface=2\t/dev/hidraw3"]);
    endpoint.interface_number = -1;
    endpoint.vendor_id = 0x00AF;
    assert_eq!(
        probe_line(&endpoint),
        "Opened Beckon USB status endpoint 00AF:27DB interface -1 at /dev/hidraw3"
    );
    assert_eq!(
        list_lines(&vec![]),
        ["No Beckon USB status endpoints found (expected 16C0:27DB, usage page 0xFF60, usage 0x0061)."]
    );
    assert_eq!(sent_line(7), "Sent valid Beckon status snapshot sequence 7.");
}
