//! What Beckon says to Herdr and how it reads Herdr's pane events.

use vstd::prelude::*;

use crate::binding::{Pane, PaneView};
use crate::pane_cache::{PaneEvent, PaneEventView};
use crate::service::PresentationTokenWrite;
use crate::text::{
    holds, holds_text, is_blank, option_str_view, option_view, same_text, trim_text, trimmed, views,
};

verus! {

broadcast use vstd::string::group_string_axioms;

/// The source under which Beckon reports pane metadata.
pub const SOURCE: &'static str = "beckond";

/// The line that asks for the live panes.
pub const PANE_LIST_REQUEST: &'static str =
    r#"{"id":"beckond:pane-list","method":"pane.list","params":{}}"#;

/// The line that asks for pane events.
pub const PANE_EVENTS_REQUEST: &'static str =
    r#"{"id":"beckond:pane-events","method":"events.subscribe","params":{"subscriptions":[{"type":"pane.created"},{"type":"pane.updated"},{"type":"pane.closed"},{"type":"pane.exited"}]}}"#;

// ---------------------------------------------------------------------------
// Commands
// ---------------------------------------------------------------------------

/// The arguments of the command that lists the panes.
pub fn pane_list_args() -> (args: Vec<String>)
    ensures
        views(args@) == seq!["pane"@, "list"@],
{
    let args = vec!["pane".to_owned(), "list".to_owned()];
    assert(views(args@) =~= seq!["pane"@, "list"@]);
    args
}

/// The arguments that set the visible `fkey` token of a pane, or clear it.
pub open spec fn fkey_command(pane_id: Seq<char>, key: Option<Seq<char>>) -> Seq<Seq<char>> {
    let target = seq!["pane"@, "report-metadata"@, pane_id, "--source"@, "beckond"@];
    match key {
        Some(key) => target + seq!["--token"@, "fkey="@ + key],
        None => target + seq!["--clear-token"@, "fkey"@],
    }
}

/// The arguments of the command that sets or clears the `fkey` token.
pub fn fkey_args(pane_id: &str, key: Option<&str>) -> (args: Vec<String>)
    ensures
        views(args@) == fkey_command(pane_id@, option_str_view(key)),
{
    let mut args = vec![
        "pane".to_owned(),
        "report-metadata".to_owned(),
        pane_id.to_owned(),
        "--source".to_owned(),
        SOURCE.to_owned(),
    ];
    match key {
        Some(key) => {
            args.push("--token".to_owned());
            args.push("fkey=".to_owned().concat(key));
        },
        None => {
            args.push("--clear-token".to_owned());
            args.push("fkey".to_owned());
        },
    }
    assert(views(args@) =~= fkey_command(pane_id@, option_str_view(key)));
    args
}

/// The arguments of the command that focuses the agent in a pane.
pub fn focus_args(pane_id: &str) -> (args: Vec<String>)
    ensures
        views(args@) == seq!["agent"@, "focus"@, pane_id@],
{
    let args = vec!["agent".to_owned(), "focus".to_owned(), pane_id.to_owned()];
    assert(views(args@) =~= seq!["agent"@, "focus"@, pane_id@]);
    args
}

/// The arguments that publish the sidebar tokens of a pane.
pub open spec fn presentation_command(pane_id: Seq<char>, binding: Seq<char>) -> Seq<Seq<char>> {
    seq![
        "pane"@,
        "report-metadata"@,
        pane_id,
        "--source"@,
        "beckond"@,
        "--token"@,
        "pane="@ + pane_id,
        "--token"@,
        "binding="@ + binding,
    ]
}

/// The arguments of the command that publishes the sidebar tokens of a pane.
pub fn presentation_args(pane_id: &str, binding: &str) -> (args: Vec<String>)
    ensures
        views(args@) == presentation_command(pane_id@, binding@),
{
    let args = vec![
        "pane".to_owned(),
        "report-metadata".to_owned(),
        pane_id.to_owned(),
        "--source".to_owned(),
        SOURCE.to_owned(),
        "--token".to_owned(),
        "pane=".to_owned().concat(pane_id),
        "--token".to_owned(),
        "binding=".to_owned().concat(binding),
    ];
    assert(views(args@) =~= presentation_command(pane_id@, binding@));
    args
}

/// The arguments of the command that sends keys to a pane.
pub fn send_keys_args(pane_id: &str, keys: &Vec<String>) -> (args: Vec<String>)
    ensures
        views(args@) == seq!["pane"@, "send-keys"@, pane_id@] + views(keys@),
{
    let mut args = vec!["pane".to_owned(), "send-keys".to_owned(), pane_id.to_owned()];
    let ghost target = seq!["pane"@, "send-keys"@, pane_id@];
    assert(views(args@) =~= target + views(keys@).take(0));
    for i in 0..keys.len()
        invariant
            views(args@) == target + views(keys@).take(i as int),
    {
        let ghost before = args@;
        args.push(keys[i].clone());
        assert(views(args@) =~= views(before).push(keys@[i as int]@));
        assert(views(keys@).take(i + 1) =~= views(keys@).take(i as int).push(keys@[i as int]@));
        assert(views(args@) =~= target + views(keys@).take(i + 1));
    }
    assert(views(keys@).take(keys.len() as int) =~= views(keys@));
    args
}

/// Whether Herdr's error output says that the pane is gone.
pub open spec fn says_gone(stderr: Seq<char>) -> bool {
    holds(stderr, "pane_not_found"@) || holds(stderr, "pane not found"@)
}

/// What became of publishing the sidebar tokens of a pane, given how the
/// command ended. A pane that is gone is no failure.
pub fn presentation_result(success: bool, stderr: &str) -> (result: Result<
    PresentationTokenWrite,
    String,
>)
    ensures
        match result {
            Ok(PresentationTokenWrite::Written) => success,
            Ok(PresentationTokenWrite::PaneGone) => !success && says_gone(stderr@),
            Err(message) => !success && !says_gone(stderr@) && message@
                == "presentation token update failed: "@ + trimmed(stderr@),
        },
{
    if success {
        return Ok(PresentationTokenWrite::Written);
    }
    if holds_text(stderr, "pane_not_found") || holds_text(stderr, "pane not found") {
        return Ok(PresentationTokenWrite::PaneGone);
    }
    Err("presentation token update failed: ".to_owned().concat(trim_text(stderr)))
}

/// The text for a command that exited with a failure.
pub fn command_failure(activity: &str, stderr: &str) -> (text: String)
    ensures
        text@ == activity@ + " failed: "@ + trimmed(stderr@),
{
    activity.to_owned().concat(" failed: ").concat(trim_text(stderr))
}

/// Accepts a line that answers a request: one that is not blank.
pub fn response_line(line: &str) -> (result: Result<(), String>)
    ensures
        match result {
            Ok(()) => trimmed(line@).len() > 0,
            Err(message) => trimmed(line@).len() == 0 && message@
                == "Herdr closed request stream without a response"@,
        },
{
    if is_blank(line) {
        Err("Herdr closed request stream without a response".to_owned())
    } else {
        Ok(())
    }
}

// ---------------------------------------------------------------------------
// Events
// ---------------------------------------------------------------------------

/// The member of a JSON object under a name, as compact JSON: none where the
/// value is no object or has no such member, an error where the text is no
/// JSON.
pub uninterp spec fn json_member(text: Seq<char>, name: Seq<char>) -> Result<
    Option<Seq<char>>,
    Seq<char>,
>;

/// Reads a member of a JSON object with `serde_json::from_str`,
/// `serde_json::Value::get` and `serde_json::Value`'s `to_string`.
///
/// Trusted: the result, the error's text included, is a function of the two
/// texts, [`json_member`]. What JSON is, is left unsaid.
#[verifier::external_body]
fn member_of_json(text: &str, name: &str) -> (result: Result<Option<String>, String>)
    ensures
        match result {
            Ok(member) => json_member(text@, name@) == Ok::<Option<Seq<char>>, Seq<char>>(
                option_view(member),
            ),
            Err(message) => json_member(text@, name@) == Err::<Option<Seq<char>>, Seq<char>>(
                message@,
            ),
        },
{
    match serde_json::from_str::<serde_json::Value>(text) {
        Ok(value) => Ok(value.get(name).map(ToString::to_string)),
        Err(error) => Err(error.to_string()),
    }
}

/// A JSON value as compact JSON, an error where the text is no JSON.
pub uninterp spec fn json_value(text: Seq<char>) -> Result<Seq<char>, Seq<char>>;

/// Reads a JSON value with `serde_json::from_str` and writes it with
/// `serde_json::Value`'s `to_string`.
///
/// Trusted: the result, the error's text included, is a function of the text,
/// [`json_value`]. What JSON is, is left unsaid.
#[verifier::external_body]
fn value_of_json(text: &str) -> (result: Result<String, String>)
    ensures
        match result {
            Ok(value) => json_value(text@) == Ok::<Seq<char>, Seq<char>>(value@),
            Err(message) => json_value(text@) == Err::<Seq<char>, Seq<char>>(message@),
        },
{
    match serde_json::from_str::<serde_json::Value>(text) {
        Ok(value) => Ok(value.to_string()),
        Err(error) => Err(error.to_string()),
    }
}

/// The payload of a value: its `data`, or else its `result`, or else the value
/// itself.
pub open spec fn payload_of(
    data: Option<Seq<char>>,
    result: Option<Seq<char>>,
    value: Seq<char>,
) -> Seq<char> {
    match (data, result) {
        (Some(data), _) => data,
        (None, Some(result)) => result,
        (None, None) => value,
    }
}

/// Chooses the payload of a value.
pub fn choose_payload(data: Option<String>, result: Option<String>, value: String) -> (payload: String)
    ensures
        payload@ == payload_of(option_view(data), option_view(result), value@),
{
    match data {
        Some(data) => data,
        None => match result {
            Some(result) => result,
            None => value,
        },
    }
}

/// The payload of a line of Herdr's event stream, as compact JSON. Both the
/// event itself and the wrapped `result` form used by some responses are
/// accepted.
pub fn event_payload(line: &str) -> (payload: Result<String, String>)
    ensures
        match (json_value(line@), json_member(line@, "data"@), json_member(line@, "result"@)) {
            (Err(message), _, _) => payload is Err && (payload->Err_0)@ == message,
            (Ok(_), Err(message), _) => payload is Err && (payload->Err_0)@ == message,
            (Ok(_), Ok(_), Err(message)) => payload is Err && (payload->Err_0)@ == message,
            (Ok(value), Ok(data), Ok(result)) => payload is Ok && (payload->Ok_0)@ == payload_of(
                data,
                result,
                value,
            ),
        },
{
    let value = match value_of_json(line) {
        Ok(value) => value,
        Err(message) => {
            return Err(message);
        },
    };
    let data = match member_of_json(line, "data") {
        Ok(data) => data,
        Err(message) => {
            return Err(message);
        },
    };
    let result = match member_of_json(line, "result") {
        Ok(result) => result,
        Err(message) => {
            return Err(message);
        },
    };
    Ok(choose_payload(data, result, value))
}

/// The payload of an event, as far as Beckon reads it.
#[derive(Debug)]
pub struct HerdrEvent {
    pub event_type: String,
    pub pane: Option<Pane>,
    pub pane_id: Option<String>,
}

/// What an event means for the panes: nothing for one that is not about panes.
pub open spec fn meaning(
    event_type: Seq<char>,
    pane: Option<PaneView>,
    pane_id: Option<Seq<char>>,
) -> Result<Option<PaneEventView>, Seq<char>> {
    if event_type == "pane_created"@ || event_type == "pane_updated"@ {
        match pane {
            Some(pane) => Ok(Some(PaneEventView::Upsert(pane))),
            None => Err("pane event omitted pane"@),
        }
    } else if event_type == "pane_closed"@ || event_type == "pane_exited"@ {
        match (pane_id, pane) {
            (Some(pane_id), _) => Ok(Some(PaneEventView::Remove(pane_id))),
            (None, Some(pane)) => Ok(Some(PaneEventView::Remove(pane.pane_id))),
            (None, None) => Err("pane removal event omitted pane_id"@),
        }
    } else {
        Ok(None)
    }
}

/// The view of an optional pane.
pub open spec fn optional_pane(pane: Option<Pane>) -> Option<PaneView> {
    match pane {
        Some(pane) => Some(pane@),
        None => None,
    }
}

/// The view of what an event means.
pub open spec fn meaning_answer(result: Result<Option<PaneEvent>, String>) -> Result<
    Option<PaneEventView>,
    Seq<char>,
> {
    match result {
        Ok(Some(event)) => Ok(Some(event@)),
        Ok(None) => Ok(None),
        Err(message) => Err(message@),
    }
}

/// What an event means for the panes.
pub fn pane_event(event: HerdrEvent) -> (result: Result<Option<PaneEvent>, String>)
    ensures
        meaning_answer(result) == meaning(
            event.event_type@,
            optional_pane(event.pane),
            option_view(event.pane_id),
        ),
{
    let event_type = event.event_type.as_str();
    if same_text(event_type, "pane_created") || same_text(event_type, "pane_updated") {
        match event.pane {
            Some(pane) => Ok(Some(PaneEvent::Upsert(pane))),
            None => Err("pane event omitted pane".to_owned()),
        }
    } else if same_text(event_type, "pane_closed") || same_text(event_type, "pane_exited") {
        match event.pane_id {
            Some(pane_id) => Ok(Some(PaneEvent::Remove(pane_id))),
            None => match event.pane {
                Some(pane) => Ok(Some(PaneEvent::Remove(pane.pane_id))),
                None => Err("pane removal event omitted pane_id".to_owned()),
            },
        }
    } else {
        Ok(None)
    }
}

} // verus!
