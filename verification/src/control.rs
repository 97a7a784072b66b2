//! Requests to the daemon and what it answers.

use vstd::prelude::*;

use crate::binding::{Binding, BindingError, BindingFault, Pane};
use crate::service::{
    bind_run, presentation_run, release_key_run, release_run, rows_result, status_run, BindResult,
    BindResultView, BindingService, BindingStore, PaneDirectory, World,
};
use crate::status::{presentation_views, row_views, PanePresentation, PresentationView, RowView};
use crate::text::option_view;

verus! {

broadcast use vstd::string::group_string_axioms;

// ---------------------------------------------------------------------------
// Requests
// ---------------------------------------------------------------------------

/// What a client asks of the daemon.
#[derive(Debug, PartialEq, Eq)]
pub enum Request {
    Bind { pane_id: String, key: Option<String> },
    ReleasePane { pane_id: String },
    ReleaseKey { key: String },
    Status,
}

pub enum RequestView {
    Bind { pane_id: Seq<char>, key: Option<Seq<char>> },
    ReleasePane { pane_id: Seq<char> },
    ReleaseKey { key: Seq<char> },
    Status,
}

impl View for Request {
    type V = RequestView;

    open spec fn view(&self) -> RequestView {
        match *self {
            Request::Bind { pane_id, key } => RequestView::Bind {
                pane_id: pane_id@,
                key: option_view(key),
            },
            Request::ReleasePane { pane_id } => RequestView::ReleasePane { pane_id: pane_id@ },
            Request::ReleaseKey { key } => RequestView::ReleaseKey { key: key@ },
            Request::Status => RequestView::Status,
        }
    }
}

/// The pane that a command is about: the one that was named, or else the one
/// that the command runs in.
pub open spec fn chosen_pane(
    explicit: Option<Seq<char>>,
    current: Option<Seq<char>>,
) -> Option<Seq<char>> {
    match explicit {
        Some(pane_id) => Some(pane_id),
        None => current,
    }
}

/// Chooses the pane that a command is about.
pub fn current_pane(explicit: Option<String>, current: Option<String>) -> (result: Result<
    String,
    String,
>)
    ensures
        match result {
            Ok(pane_id) => chosen_pane(option_view(explicit), option_view(current)) == Some(
                pane_id@,
            ),
            Err(message) => chosen_pane(option_view(explicit), option_view(current)) is None
                && message@
                == "no pane supplied; use --pane <PANE_ID> or run inside a Herdr pane"@,
        },
{
    match explicit {
        Some(pane_id) => Ok(pane_id),
        None => match current {
            Some(pane_id) => Ok(pane_id),
            None => Err(
                "no pane supplied; use --pane <PANE_ID> or run inside a Herdr pane".to_owned(),
            ),
        },
    }
}

/// The request of a release command, or why there is none.
pub open spec fn wanted_release(
    key: Option<Seq<char>>,
    explicit: Option<Seq<char>>,
    current: Option<Seq<char>>,
) -> Result<RequestView, Seq<char>> {
    match key {
        Some(key) => if explicit is Some {
            Err("--key and --pane cannot be used together"@)
        } else {
            Ok(RequestView::ReleaseKey { key })
        },
        None => match chosen_pane(explicit, current) {
            Some(pane_id) => Ok(RequestView::ReleasePane { pane_id }),
            None => Err("no pane supplied; use --pane <PANE_ID> or run inside a Herdr pane"@),
        },
    }
}

/// The request of a release command.
pub fn release_request(
    key: Option<String>,
    explicit: Option<String>,
    current: Option<String>,
) -> (result: Result<Request, String>)
    ensures
        match result {
            Ok(request) => wanted_release(
                option_view(key),
                option_view(explicit),
                option_view(current),
            ) == Ok::<RequestView, Seq<char>>(request@),
            Err(message) => wanted_release(
                option_view(key),
                option_view(explicit),
                option_view(current),
            ) == Err::<RequestView, Seq<char>>(message@),
        },
{
    match key {
        Some(key) => {
            if explicit.is_some() {
                return Err("--key and --pane cannot be used together".to_owned());
            }
            Ok(Request::ReleaseKey { key })
        },
        None => match current_pane(explicit, current) {
            Ok(pane_id) => Ok(Request::ReleasePane { pane_id }),
            Err(message) => Err(message),
        },
    }
}

/// Accepts a deliberately malformed report only where it was confirmed.
pub fn check_confirmed(confirm: bool) -> (result: Result<(), String>)
    ensures
        match result {
            Ok(()) => confirm,
            Err(message) => !confirm && message@
                == "refusing to send a malformed report without --confirm"@,
        },
{
    if confirm {
        Ok(())
    } else {
        Err("refusing to send a malformed report without --confirm".to_owned())
    }
}

// ---------------------------------------------------------------------------
// Dispatch
// ---------------------------------------------------------------------------

/// What the daemon answers.
#[derive(Debug)]
pub enum Reply {
    Bound(BindResult),
    ReleasedPane { pane_id: String, changed: bool },
    ReleasedKey { key: String, pane_id: Option<String>, changed: bool },
    Status { bindings: Vec<(Binding, Pane)>, panes: Vec<PanePresentation> },
}

pub enum ReplyView {
    Bound(BindResultView),
    ReleasedPane { pane_id: Seq<char>, changed: bool },
    ReleasedKey { key: Seq<char>, pane_id: Option<Seq<char>>, changed: bool },
    Status { bindings: Seq<RowView>, panes: Seq<PresentationView> },
}

impl View for Reply {
    type V = ReplyView;

    open spec fn view(&self) -> ReplyView {
        match *self {
            Reply::Bound(granted) => ReplyView::Bound(granted@),
            Reply::ReleasedPane { pane_id, changed } => ReplyView::ReleasedPane {
                pane_id: pane_id@,
                changed,
            },
            Reply::ReleasedKey { key, pane_id, changed } => ReplyView::ReleasedKey {
                key: key@,
                pane_id: option_view(pane_id),
                changed,
            },
            Reply::Status { bindings, panes } => ReplyView::Status {
                bindings: row_views(bindings@),
                panes: presentation_views(panes@),
            },
        }
    }
}

/// The view of a reply or of the reason why there is none.
pub open spec fn reply_result(result: Result<Reply, BindingError>) -> Result<
    ReplyView,
    BindingFault,
> {
    match result {
        Ok(reply) => Ok(reply@),
        Err(error) => Err(error@),
    }
}

/// A status report, and after it a presentation of the panes.
pub open spec fn status_reply_run(
    before: World,
    after: World,
    result: Result<ReplyView, BindingFault>,
) -> bool {
    exists|middle: World, rows: Result<Seq<RowView>, BindingFault>|
        {
            &&& #[trigger] status_run(before, middle, rows)
            &&& match rows {
                Err(fault) => after == middle && result == Err::<ReplyView, BindingFault>(fault),
                Ok(bindings) => match result {
                    Ok(reply) => {
                        &&& reply is Status
                        &&& reply->bindings == bindings
                        &&& presentation_run(middle, after, Ok(reply->panes))
                    },
                    Err(fault) => presentation_run(middle, after, Err(fault)),
                },
            }
        }
}

/// A whole request.
pub open spec fn dispatch_run(
    before: World,
    after: World,
    request: RequestView,
    result: Result<ReplyView, BindingFault>,
) -> bool {
    match request {
        RequestView::Bind { pane_id, key } => match result {
            Ok(reply) => reply is Bound && bind_run(before, after, pane_id, key, Ok(reply->Bound_0)),
            Err(fault) => bind_run(before, after, pane_id, key, Err(fault)),
        },
        RequestView::ReleasePane { pane_id } => match result {
            Ok(reply) => {
                &&& reply is ReleasedPane
                &&& reply->ReleasedPane_pane_id == pane_id
                &&& release_run(before, after, pane_id, Ok(reply->ReleasedPane_changed))
            },
            Err(fault) => release_run(before, after, pane_id, Err(fault)),
        },
        RequestView::ReleaseKey { key } => match result {
            Ok(reply) => {
                &&& reply is ReleasedKey
                &&& reply->key == key
                &&& reply->ReleasedKey_changed == (reply->ReleasedKey_pane_id is Some)
                &&& release_key_run(before, after, key, Ok(reply->ReleasedKey_pane_id))
            },
            Err(fault) => release_key_run(before, after, key, Err(fault)),
        },
        RequestView::Status => status_reply_run(before, after, result),
    }
}

/// Carries out a request.
pub fn dispatch<S: BindingStore, P: PaneDirectory>(
    request: Request,
    service: &mut BindingService<S, P>,
) -> (result: Result<Reply, BindingError>)
    ensures
        dispatch_run(old(service).world(), final(service).world(), request@, reply_result(result)),
{
    match request {
        Request::Bind { pane_id, key } => {
            let requested: Option<&str> = match &key {
                Some(key) => Some(key.as_str()),
                None => None,
            };
            match service.bind(pane_id.as_str(), requested) {
                Ok(granted) => Ok(Reply::Bound(granted)),
                Err(error) => Err(error),
            }
        },
        Request::ReleasePane { pane_id } => match service.release(pane_id.as_str()) {
            Ok(changed) => Ok(Reply::ReleasedPane { pane_id, changed }),
            Err(error) => Err(error),
        },
        Request::ReleaseKey { key } => match service.release_key(key.as_str()) {
            Ok(pane_id) => {
                let changed = pane_id.is_some();
                Ok(Reply::ReleasedKey { key, pane_id, changed })
            },
            Err(error) => Err(error),
        },
        Request::Status => {
            let ghost before = service.world();
            let reported = service.status();
            let ghost middle = service.world();
            let ghost rows = rows_result(reported);
            assert(status_run(before, middle, rows));
            let bindings = match reported {
                Ok(bindings) => bindings,
                Err(error) => {
                    return Err(error);
                },
            };
            match service.panes() {
                Ok(panes) => Ok(Reply::Status { bindings, panes }),
                Err(error) => Err(error),
            }
        },
    }
}

/// The text for a request that cannot be read.
pub fn invalid_request(cause: &str) -> (text: String)
    ensures
        text@ == "invalid request: "@ + cause@,
{
    "invalid request: ".to_owned().concat(cause)
}

// ---------------------------------------------------------------------------
// The socket
// ---------------------------------------------------------------------------

/// What lies where the daemon's socket goes.
#[derive(Debug)]
pub enum SocketProbe {
    Missing,
    /// A daemon answers there.
    Answered,
    /// A socket that nobody listens on.
    Refused,
    /// A connection failed otherwise, with its cause.
    Failed(String),
}

/// What the daemon does before it binds its socket.
#[derive(Clone, Copy, Debug, PartialEq, Eq, Structural)]
pub enum SocketClaim {
    Bind,
    /// Remove the stale socket first.
    Replace,
}

/// Decides what the daemon does with its socket: it never takes one that is in
/// use.
pub fn claim_socket(probe: &SocketProbe, path: &str) -> (result: Result<SocketClaim, String>)
    ensures
        match *probe {
            SocketProbe::Missing => result == Ok::<SocketClaim, String>(SocketClaim::Bind),
            SocketProbe::Refused => result == Ok::<SocketClaim, String>(SocketClaim::Replace),
            SocketProbe::Answered => result is Err && (result->Err_0)@
                == "beckond is already listening on "@ + path@,
            SocketProbe::Failed(cause) => result is Err && (result->Err_0)@ == "connect to "@
                + path@ + ": "@ + cause@,
        },
{
    match probe {
        SocketProbe::Missing => Ok(SocketClaim::Bind),
        SocketProbe::Refused => Ok(SocketClaim::Replace),
        SocketProbe::Answered => Err("beckond is already listening on ".to_owned().concat(path)),
        SocketProbe::Failed(cause) => Err(
            "connect to ".to_owned().concat(path).concat(": ").concat(cause.as_str()),
        ),
    }
}

} // verus!
