use std::sync::{Arc, RwLock};

use beckon::binding::Pane;
use beckon::name_map::NameMap;
use beckon::pane_cache::{PaneCache, PaneEvent};

fn pane(id: &str, revision: u64, status: &str) -> Pane {
    Pane {
        pane_id: id.into(),
        revision,
        agent_status: status.into(),
        agent: None,
        label: None,
        cwd: None,
        terminal_title: None,
        terminal_title_stripped: None,
        focused: false,
        tokens: NameMap::new(),
    }
}

#[test]
fn applies_create_update_and_close_events() {
    let mut cache = PaneCache::new(vec![pane("p1", 1, "idle")]);
    cache.apply(PaneEvent::Upsert(pane("p2", 1, "working")));
    cache.apply(PaneEvent::Upsert(pane("p1", 2, "blocked")));
    cache.apply(PaneEvent::Remove("p2".into()));
    assert_eq!(cache.panes(), vec![pane("p1", 2, "blocked")]);
}

#[test]
fn a_cache_starts_without_panes_and_takes_a_copied_event() {
    let mut cache = PaneCache::default();
    assert!(cache.panes().is_empty());
    let event = PaneEvent::Upsert(pane("p1", 1, "idle"));
    cache.apply(event.clone());
    assert_eq!(cache.panes(), vec![pane("p1", 1, "idle")]);
    let removal = PaneEvent::Remove("p1".into());
    assert_eq!(removal.clone(), removal);
}

#[test]
fn a_failed_refresh_keeps_the_panes() {
    let mut cache = PaneCache::new(vec![pane("p1", 3, "blocked")]);
    assert_eq!(cache.refresh(Err("no socket".into())), Some("no socket".into()));
    assert_eq!(cache.panes(), vec![pane("p1", 3, "blocked")]);
    assert_eq!(cache.refresh(Ok(vec![pane("p2", 1, "idle"), pane("p1", 2, "idle")])), None);
    assert_eq!(cache.panes(), vec![pane("p2", 1, "idle"), pane("p1", 2, "idle")]);
}

#[test]
fn ignores_out_of_order_pane_updates() {
    let mut cache = PaneCache::new(vec![pane("p1", 3, "blocked")]);
    cache.apply(PaneEvent::Upsert(pane("p1", 2, "working")));
    assert_eq!(cache.panes(), vec![pane("p1", 3, "blocked")]);
}

#[test]
fn a_report_without_a_revision_is_taken() {
    let mut cache = PaneCache::new(vec![pane("p1", 3, "blocked")]);
    cache.apply(PaneEvent::Upsert(pane("p1", 0, "working")));
    assert_eq!(cache.panes(), vec![pane("p1", 0, "working")]);
}

#[test]
fn a_snapshot_replaces_everything() {
    let mut cache = PaneCache::new(vec![pane("p1", 9, "blocked"), pane("p2", 9, "idle")]);
    cache.replace(vec![pane("p3", 1, "done")]);
    assert_eq!(cache.panes(), vec![pane("p3", 1, "done")]);
}

#[test]
fn events_keep_the_panes_unique_and_in_order() {
    let mut cache = PaneCache::new(vec![pane("p1", 1, "idle"), pane("p2", 1, "idle")]);
    cache.apply(PaneEvent::Upsert(pane("p1", 2, "done")));
    cache.apply(PaneEvent::Upsert(pane("p3", 1, "idle")));
    cache.apply(PaneEvent::Remove("gone".into()));
    assert_eq!(
        cache.panes(),
        vec![pane("p1", 2, "done"), pane("p2", 1, "idle"), pane("p3", 1, "idle")]
    );
}

#[test]
fn holders_of_a_cache_share_one_snapshot() {
    let cache = Arc::new(RwLock::new(PaneCache::new(vec![pane("p1", 9, "blocked")])));
    let other = cache.clone();
    let replacement = vec![pane("p2", 1, "idle"), pane("p1", 2, "working")];
    cache.write().unwrap().replace(replacement.clone());
    assert_eq!(other.read().unwrap().panes(), replacement);
    assert_eq!(cache.read().unwrap().panes(), replacement);
}
