use std::cell::RefCell;

use beckon::binding::{
    first_free_key, valid_key, validate_bindings, Binding, BindingError, BindingState, Pane,
    STATE_VERSION,
};
use beckon::control::{
    check_confirmed, claim_socket, current_pane, dispatch, invalid_request, release_request, Reply,
    Request, SocketClaim, SocketProbe,
};
use beckon::name_map::NameMap;
use beckon::service::{BindingService, BindingStore, PaneDirectory, PresentationTokenWrite};
use beckon::state::{accept_stored, base_directory, BaseDirectory};

#[derive(Default)]
struct MemoryStore {
    state: RefCell<Option<BindingState>>,
    saves: RefCell<usize>,
    broken: bool,
}

impl BindingStore for &MemoryStore {
    fn load(&mut self) -> Result<Option<BindingState>, String> {
        if self.broken {
            return Err("unreadable".into());
        }
        Ok(self.state.borrow().clone())
    }

    fn save(&mut self, state: &BindingState) -> Result<(), String> {
        *self.saves.borrow_mut() += 1;
        *self.state.borrow_mut() = Some(state.clone());
        Ok(())
    }
}

struct FakePanes(RefCell<Vec<Pane>>);

impl PaneDirectory for &FakePanes {
    fn panes(&mut self) -> Result<Vec<Pane>, String> {
        Ok(self.0.borrow().clone())
    }

    fn write_fkey(&mut self, pane_id: &str, key: Option<&str>) -> Result<(), String> {
        let mut panes = self.0.borrow_mut();
        let pane = panes
            .iter_mut()
            .find(|pane| pane.pane_id == pane_id)
            .ok_or_else(|| "unknown pane".to_string())?;
        match key {
            Some(key) => pane.tokens.insert("fkey".into(), key.into()),
            None => pane.tokens.keep_only(&Vec::new()),
        };
        Ok(())
    }

    fn write_presentation_tokens(
        &mut self,
        _pane_id: &str,
        _binding: &str,
    ) -> Result<PresentationTokenWrite, String> {
        Ok(PresentationTokenWrite::Written)
    }

    fn focus_pane(&mut self, _pane_id: &str) -> Result<(), String> {
        Ok(())
    }

    fn send_keys(&mut self, _pane_id: &str, _keys: &Vec<String>) -> Result<(), String> {
        Ok(())
    }
}

fn pane(id: &str) -> Pane {
    Pane {
        pane_id: id.into(),
        revision: 0,
        agent_status: "idle".into(),
        agent: None,
        label: None,
        cwd: None,
        terminal_title: None,
        terminal_title_stripped: None,
        focused: false,
        tokens: NameMap::new(),
    }
}

fn binding(key: &str, pane_id: &str) -> Binding {
    Binding { key: key.into(), pane_id: pane_id.into() }
}

fn ledger(bindings: Vec<Binding>) -> BindingState {
    BindingState { state_version: STATE_VERSION, bindings }
}

fn panes(ids: &[&str]) -> FakePanes {
    FakePanes(RefCell::new(ids.iter().map(|id| pane(id)).collect()))
}

fn fkeys(panes: &FakePanes) -> Vec<Option<String>> {
    panes.0.borrow().iter().map(|pane| pane.fkey().map(str::to_owned)).collect()
}

#[test]
fn assigns_the_first_free_key_and_mirrors_it() {
    let store = MemoryStore::default();
    let panes = FakePanes(RefCell::new(vec![pane("p1")]));
    let mut service = BindingService::new(&store, &panes);
    let result = service.bind("p1", None).unwrap();
    assert_eq!(result.key, "f1");
    assert_eq!((&panes).panes().unwrap()[0].fkey(), Some("f1"));
}

#[test]
fn rejects_duplicate_binding_keys() {
    let bindings = vec![
        Binding { key: "f1".into(), pane_id: "p1".into() },
        Binding { key: "f1".into(), pane_id: "p2".into() },
    ];
    assert!(validate_bindings(&bindings).is_err());
}

#[test]
fn only_the_ten_logical_keys_are_keys() {
    assert!(valid_key("f10").is_ok());
    assert!(valid_key("f11").is_err());
    assert!(valid_key("F1").is_err());
    assert!(valid_key("").is_err());
}

#[test]
fn the_first_free_key_skips_used_ones_until_none_is_left() {
    let mut bindings = Vec::new();
    assert_eq!(first_free_key(&bindings), Some("f1"));
    bindings.push(binding("f1", "p1"));
    bindings.push(binding("f3", "p3"));
    assert_eq!(first_free_key(&bindings), Some("f2"));
    for (index, key) in ["f2", "f4", "f5", "f6", "f7", "f8", "f9", "f10"].iter().enumerate() {
        bindings.push(binding(key, &format!("q{index}")));
    }
    assert_eq!(first_free_key(&bindings), None);
}

#[test]
fn a_ledger_is_refused_for_an_unknown_key_an_empty_pane_or_a_repeated_pane() {
    assert!(validate_bindings(&[binding("f1", "p1"), binding("f2", "p2")]).is_ok());
    assert!(validate_bindings(&[binding("f11", "p1")]).is_err());
    assert!(validate_bindings(&[binding("f1", "")]).is_err());
    assert!(validate_bindings(&[binding("f1", "p1"), binding("f2", "p1")]).is_err());
}

#[test]
fn binding_again_without_a_key_keeps_the_key() {
    let store = MemoryStore::default();
    let panes = panes(&["p1", "p2"]);
    let mut service = BindingService::new(&store, &panes);
    assert_eq!(service.bind("p1", Some("f7")).unwrap().key, "f7");
    let again = service.bind("p1", None).unwrap();
    assert_eq!(again.key, "f7");
    assert!(!again.changed);
    assert_eq!(service.bind("p2", None).unwrap().key, "f1");
    assert_eq!(fkeys(&panes), vec![Some("f7".into()), Some("f1".into())]);
}

#[test]
fn binding_refuses_a_taken_key_an_unknown_key_and_a_closed_pane() {
    let store = MemoryStore::default();
    let panes = panes(&["p1", "p2"]);
    let mut service = BindingService::new(&store, &panes);
    service.bind("p1", Some("f2")).unwrap();
    assert!(matches!(
        service.bind("p2", Some("f2")),
        Err(BindingError::KeyTaken { key, owner }) if key == "f2" && owner == "p1"
    ));
    assert!(matches!(service.bind("p2", Some("f0")), Err(BindingError::UnknownKey)));
    assert!(matches!(service.bind("p9", None), Err(BindingError::PaneGone)));
    assert_eq!(store.state.borrow().as_ref().unwrap().bindings, vec![binding("f2", "p1")]);
}

#[test]
fn a_pane_moves_to_another_key() {
    let store = MemoryStore::default();
    let panes = panes(&["p1"]);
    let mut service = BindingService::new(&store, &panes);
    service.bind("p1", Some("f2")).unwrap();
    let moved = service.bind("p1", Some("f3")).unwrap();
    assert!(moved.changed);
    assert_eq!(store.state.borrow().as_ref().unwrap().bindings, vec![binding("f3", "p1")]);
    assert_eq!(fkeys(&panes), vec![Some("f3".into())]);
}

#[test]
fn an_eleventh_pane_finds_no_free_key() {
    let store = MemoryStore::default();
    let ids = ["a", "b", "c", "d", "e", "f", "g", "h", "i", "j", "k"];
    let panes = panes(&ids);
    let mut service = BindingService::new(&store, &panes);
    for id in &ids[..10] {
        service.bind(id, None).unwrap();
    }
    assert!(matches!(service.bind("k", None), Err(BindingError::NoFreeKey)));
}

#[test]
fn releasing_undoes_binding() {
    let store = MemoryStore::default();
    let panes = panes(&["p1"]);
    let mut service = BindingService::new(&store, &panes);
    assert!(!service.release("p1").unwrap());
    service.bind("p1", None).unwrap();
    assert!(service.release("p1").unwrap());
    assert_eq!(store.state.borrow().as_ref().unwrap().bindings, vec![]);
    assert_eq!(fkeys(&panes), vec![None]);
}

#[test]
fn a_key_is_released_from_anywhere() {
    let store = MemoryStore::default();
    let panes = panes(&["p1", "p2"]);
    let mut service = BindingService::new(&store, &panes);
    service.bind("p2", Some("f2")).unwrap();
    assert_eq!(service.release_key("f1").unwrap(), None);
    assert_eq!(service.release_key("f2").unwrap(), Some("p2".into()));
    assert_eq!(fkeys(&panes), vec![None, None]);
    assert!(matches!(service.release_key("x"), Err(BindingError::UnknownKey)));
}

#[test]
fn a_closed_pane_loses_its_binding_and_stale_tokens_are_cleared() {
    let store = MemoryStore::default();
    *store.state.borrow_mut() = Some(ledger(vec![binding("f1", "gone"), binding("f2", "p2")]));
    let panes = panes(&["p1", "p2"]);
    panes.0.borrow_mut()[0].tokens.insert("fkey".into(), "f9".into());
    let mut service = BindingService::new(&store, &panes);
    assert_eq!(service.pane_for_key("f2").unwrap(), "p2");
    assert!(matches!(service.pane_for_key("f1"), Err(BindingError::NotBound { key }) if key == "f1"));
    assert_eq!(store.state.borrow().as_ref().unwrap().bindings, vec![binding("f2", "p2")]);
    assert_eq!(fkeys(&panes), vec![None, Some("f2".into())]);
}

#[test]
fn tokens_seed_the_first_ledger() {
    let store = MemoryStore::default();
    let panes = panes(&["p1", "p2"]);
    panes.0.borrow_mut()[1].tokens.insert("fkey".into(), "f4".into());
    let mut service = BindingService::new(&store, &panes);
    assert_eq!(service.pane_for_key("f4").unwrap(), "p2");
}

#[test]
fn status_lists_the_bindings_in_key_order() {
    let store = MemoryStore::default();
    let panes = panes(&["p1", "p2", "p3"]);
    let mut service = BindingService::new(&store, &panes);
    service.bind("p1", Some("f2")).unwrap();
    service.bind("p2", Some("f10")).unwrap();
    service.bind("p3", Some("f1")).unwrap();
    let keys: Vec<String> =
        service.status().unwrap().into_iter().map(|(binding, _)| binding.key).collect();
    assert_eq!(keys, ["f1", "f10", "f2"]);
}

#[test]
fn presenting_the_panes_changes_nothing() {
    let store = MemoryStore::default();
    *store.state.borrow_mut() = Some(ledger(vec![binding("f3", "p2"), binding("f4", "gone")]));
    let panes = panes(&["p1", "p2"]);
    panes.0.borrow_mut()[0].label = Some("notes".into());
    panes.0.borrow_mut()[1].terminal_title = Some("* vim".into());
    panes.0.borrow_mut()[1].focused = true;
    let mut service = BindingService::new(&store, &panes);
    let rows = service.panes().unwrap();
    assert_eq!(rows.len(), 2);
    assert_eq!((rows[0].title.as_str(), rows[0].binding.as_str()), ("notes", "unbound"));
    assert_eq!((rows[1].title.as_str(), rows[1].binding.as_str()), ("* vim", "F3"));
    assert!(rows[1].focused && !rows[0].focused);
    assert_eq!(*store.saves.borrow(), 0);
    assert_eq!(fkeys(&panes), vec![None, None]);
}

#[test]
fn a_broken_store_refuses_every_request() {
    let store = MemoryStore { broken: true, ..Default::default() };
    let panes = panes(&["p1"]);
    let mut service = BindingService::new(&store, &panes);
    assert!(matches!(service.bind("p1", None), Err(BindingError::Store(message)) if message == "unreadable"));
    assert!(matches!(service.panes(), Err(BindingError::Store(_))));
    assert_eq!(*store.saves.borrow(), 0);
}

#[test]
fn requests_are_dispatched_to_the_service() {
    let store = MemoryStore::default();
    let panes = panes(&["p1"]);
    let mut service = BindingService::new(&store, &panes);
    let request = Request::Bind { pane_id: "p1".into(), key: Some("f5".into()) };
    match dispatch(request, &mut service).unwrap() {
        Reply::Bound(granted) => {
            assert_eq!((granted.key.as_str(), granted.changed), ("f5", true));
        }
        other => panic!("{other:?}"),
    }
    match dispatch(Request::Status, &mut service).unwrap() {
        Reply::Status { bindings, panes } => {
            assert_eq!(bindings.len(), 1);
            assert_eq!(panes[0].binding, "F5");
        }
        other => panic!("{other:?}"),
    }
    match dispatch(Request::ReleaseKey { key: "f5".into() }, &mut service).unwrap() {
        Reply::ReleasedKey { key, pane_id, changed } => {
            assert_eq!((key.as_str(), pane_id.as_deref(), changed), ("f5", Some("p1"), true));
        }
        other => panic!("{other:?}"),
    }
    match dispatch(Request::ReleasePane { pane_id: "p1".into() }, &mut service).unwrap() {
        Reply::ReleasedPane { pane_id, changed } => {
            assert_eq!((pane_id.as_str(), changed), ("p1", false));
        }
        other => panic!("{other:?}"),
    }
    assert!(dispatch(Request::ReleaseKey { key: "f0".into() }, &mut service).is_err());
}

#[test]
fn every_binding_error_has_a_text_of_its_own() {
    let errors = [
        BindingError::PaneGone,
        BindingError::UnknownKey,
        BindingError::NoFreeKey,
        BindingError::KeyTaken { key: "f1".into(), owner: "p1".into() },
        BindingError::NotBound { key: "f1".into() },
        BindingError::EmptyPaneId,
        BindingError::NotUnique,
        BindingError::Store("disk".into()),
        BindingError::Directory("socket".into()),
    ];
    let texts: Vec<String> = errors.iter().map(|error| error.message()).collect();
    assert_eq!(
        texts,
        [
            "pane no longer exists",
            "key must be f1 through f10",
            "no Beckon keys are free",
            "f1 is already bound to p1",
            "f1 is not bound",
            "a binding has an empty pane_id",
            "bindings must have unique keys and pane IDs",
            "disk",
            "socket",
        ]
    );
}

#[test]
fn a_command_is_about_the_named_pane_or_the_current_one() {
    assert_eq!(current_pane(Some("a".into()), Some("b".into())), Ok("a".into()));
    assert_eq!(current_pane(None, Some("b".into())), Ok("b".into()));
    assert_eq!(
        current_pane(None, None),
        Err("no pane supplied; use --pane <PANE_ID> or run inside a Herdr pane".into())
    );
}

#[test]
fn parses_release_by_key_without_a_pane() {
    let request = release_request(Some("f2".into()), None, None).unwrap();
    assert_eq!(request, Request::ReleaseKey { key: "f2".into() });
    assert_eq!(
        release_request(Some("f2".into()), Some("p1".into()), None),
        Err("--key and --pane cannot be used together".into())
    );
    assert_eq!(
        release_request(None, None, Some("p3".into())),
        Ok(Request::ReleasePane { pane_id: "p3".into() })
    );
}

#[test]
fn a_malformed_report_needs_confirmation() {
    assert!(check_confirmed(true).is_ok());
    assert_eq!(
        check_confirmed(false),
        Err("refusing to send a malformed report without --confirm".into())
    );
    assert_eq!(invalid_request("eof"), "invalid request: eof");
}

#[test]
fn a_socket_in_use_is_never_taken() {
    assert_eq!(claim_socket(&SocketProbe::Missing, "/s"), Ok(SocketClaim::Bind));
    assert_eq!(claim_socket(&SocketProbe::Refused, "/s"), Ok(SocketClaim::Replace));
    assert_eq!(
        claim_socket(&SocketProbe::Answered, "/s"),
        Err("beckond is already listening on /s".into())
    );
    assert_eq!(
        claim_socket(&SocketProbe::Failed("denied".into()), "/s"),
        Err("connect to /s: denied".into())
    );
}

#[test]
fn a_stored_ledger_needs_the_version_and_a_valid_ledger() {
    assert!(accept_stored(&ledger(vec![binding("f1", "p1")]), "/b.json").is_ok());
    let other = BindingState { state_version: 7, bindings: Vec::new() };
    assert_eq!(
        accept_stored(&other, "/b.json"),
        Err("/b.json has state_version 7; this Beckon version supports 1".into())
    );
    let twice = ledger(vec![binding("f1", "p1"), binding("f1", "p2")]);
    assert_eq!(accept_stored(&twice, "/b.json"), Err(BindingError::NotUnique.message()));
}

#[test]
fn files_lie_under_the_xdg_directory_or_the_home_directory() {
    assert_eq!(base_directory(true, true), BaseDirectory::Xdg);
    assert_eq!(base_directory(false, true), BaseDirectory::Home);
    assert_eq!(base_directory(false, false), BaseDirectory::Fallback);
}

#[test]
fn reconciling_twice_changes_nothing_more() {
    let store = MemoryStore::default();
    *store.state.borrow_mut() = Some(ledger(vec![binding("f1", "gone"), binding("f2", "p1")]));
    let panes = panes(&["p1"]);
    let mut service = BindingService::new(&store, &panes);
    service.status().unwrap();
    let (ledger_once, tokens_once) = (store.state.borrow().clone(), fkeys(&panes));
    service.status().unwrap();
    assert_eq!(
        store.state.borrow().as_ref().unwrap().bindings,
        ledger_once.unwrap().bindings
    );
    assert_eq!(fkeys(&panes), tokens_once);
}

struct Ordered(RefCell<Vec<String>>);

impl BindingStore for &Ordered {
    fn load(&mut self) -> Result<Option<BindingState>, String> {
        Ok(Some(ledger(Vec::new())))
    }

    fn save(&mut self, state: &BindingState) -> Result<(), String> {
        assert!(validate_bindings(&state.bindings).is_ok());
        self.0.borrow_mut().push(format!("save {}", state.bindings.len()));
        Ok(())
    }
}

impl PaneDirectory for &Ordered {
    fn panes(&mut self) -> Result<Vec<Pane>, String> {
        Ok(vec![pane("p1")])
    }

    fn write_fkey(&mut self, pane_id: &str, key: Option<&str>) -> Result<(), String> {
        self.0.borrow_mut().push(format!("token {pane_id} {key:?}"));
        Err("herdr is gone".into())
    }

    fn write_presentation_tokens(
        &mut self,
        _pane_id: &str,
        _binding: &str,
    ) -> Result<PresentationTokenWrite, String> {
        Ok(PresentationTokenWrite::Written)
    }

    fn focus_pane(&mut self, _pane_id: &str) -> Result<(), String> {
        Ok(())
    }

    fn send_keys(&mut self, _pane_id: &str, _keys: &Vec<String>) -> Result<(), String> {
        Ok(())
    }
}

#[test]
fn a_ledger_is_saved_before_its_tokens_are_written() {
    let log = Ordered(RefCell::new(Vec::new()));
    let mut service = BindingService::new(&log, &log);
    assert!(matches!(
        service.bind("p1", Some("f2")),
        Err(BindingError::Directory(message)) if message == "herdr is gone"
    ));
    assert_eq!(*log.0.borrow(), ["save 0", "save 1", "token p1 Some(\"f2\")"]);
}

#[test]
fn a_default_ledger_is_empty() {
    let state = BindingState::default();
    assert_eq!(state.state_version, 0);
    assert!(state.bindings.is_empty());
}
