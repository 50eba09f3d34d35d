use apidesk::collections::{CollectionRequest, RequestId};
use apidesk::commands::tab_bar_update;
use apidesk::ui::TabBarAction;
use apidesk::keys::TabKey;
use apidesk::request::{Method, Request, RequestBody};
use apidesk::state::{AppState, CookieTab, HttpTab, RequestDirtyState, Tab};

fn request(url: &str) -> Request {
    Request {
        method: Method::GET,
        url: url.to_string(),
        headers: vec![],
        body: RequestBody::Empty,
        query_params: vec![],
        path_params: vec![],
        description: String::new(),
    }
}

fn http(name: &str, r: Option<CollectionRequest>) -> Tab {
    Tab::Http(HttpTab::new(name.to_string(), request("/x"), r))
}

fn name_of(state: &AppState) -> Option<String> {
    match state.active_tab() {
        Some(Tab::Http(h)) => Some(h.name.clone()),
        Some(Tab::Cookie(c)) => Some(c.name.clone()),
        Some(Tab::Collection(c)) => Some(c.name.clone()),
        None => None,
    }
}

#[test]
fn open_tab_makes_it_active() {
    let mut state = AppState::new();
    let a = state.open_tab(http("a", None));
    assert_eq!(state.active_tab, Some(a));
    assert_eq!(name_of(&state).as_deref(), Some("a"));
    let b = state.open_tab(http("b", None));
    assert_ne!(a, b);
    assert_eq!(state.active_tab, Some(b));
}

#[test]
fn closing_active_tab_falls_back_to_most_recently_switched() {
    let mut state = AppState::new();
    let a = state.open_tab(http("a", None));
    let b = state.open_tab(http("b", None));
    let c = state.open_tab(http("c", None));
    state.switch_tab(a);
    state.switch_tab(b);
    state.close_tab(b);
    assert_eq!(state.active_tab, Some(a));
    state.close_tab(a);
    assert_eq!(state.active_tab, Some(c));
    state.close_tab(c);
    assert_eq!(state.active_tab, None);
    assert!(state.get_tab(c).is_none());
}

#[test]
fn closing_other_tab_keeps_active_and_skips_stale_history() {
    let mut state = AppState::new();
    let a = state.open_tab(http("a", None));
    let b = state.open_tab(http("b", None));
    let c = state.open_tab(http("c", None));
    state.close_tab(b);
    assert_eq!(state.active_tab, Some(c));
    state.close_tab(c);
    assert_eq!(state.active_tab, Some(a));
}

#[test]
fn stale_handles_are_ignored() {
    let mut state = AppState::new();
    let a = state.open_tab(http("a", None));
    let b = state.open_tab(http("b", None));
    state.close_tab(a);
    assert!(state.get_tab(a).is_none());
    state.switch_tab(a);
    assert_eq!(state.active_tab, Some(b));
    state.close_tab(a);
    assert_eq!(state.active_tab, Some(b));
    state.cancel_tab_tasks(a);
    assert!(state.get_tab_mut(a).is_none());
    let c = state.open_tab(http("c", None));
    assert_ne!(a, c);
    assert!(state.get_tab(a).is_none());
}

#[test]
fn switch_to_tab_finds_the_tab_of_a_persisted_request() {
    let mut state = AppState::new();
    let col = state.collections.create_collection("c".to_string(), std::path::PathBuf::from("/tmp/c"));
    let r1 = CollectionRequest(col, RequestId(1));
    let r2 = CollectionRequest(col, RequestId(2));
    let a = state.open_tab(http("a", Some(r1)));
    let _b = state.open_tab(Tab::Cookie(CookieTab::new()));
    assert!(state.active_tab.is_some());
    assert!(!state.switch_to_tab(r2));
    assert_ne!(state.active_tab, Some(a));
    assert!(state.switch_to_tab(r1));
    assert_eq!(state.active_tab, Some(a));
}

#[test]
fn new_http_tab_is_clean_and_idle() {
    let tab = HttpTab::new("t".to_string(), request("/a"), None);
    assert_eq!(tab.request_dirty_state, RequestDirtyState::Clean);
    assert!(!tab.response.is_executing());
    assert!(tab.tasks.is_empty());
    assert_eq!(tab.request().url, "/a");
}

#[test]
fn open_new_tab_activates_it() {
    let mut state = AppState::new();
    state.open_new_tab(Tab::Cookie(CookieTab::new()));
    assert_eq!(name_of(&state).as_deref(), Some("Cookies"));
    let key: TabKey = state.active_tab.unwrap();
    assert!(state.get_tab(key).is_some());
}

#[test]
fn tab_bar_actions_switch_open_and_close() {
    let mut state = AppState::new();
    let a = state.open_tab(http("a", None));
    let b = state.open_tab(http("b", None));
    tab_bar_update(&mut state, TabBarAction::ChangeTab(a), Tab::Cookie(CookieTab::new()));
    assert_eq!(state.active_tab, Some(a));
    tab_bar_update(&mut state, TabBarAction::NewTab, Tab::Cookie(CookieTab::new()));
    let c = state.active_tab.unwrap();
    assert!(c != a && c != b);
    assert_eq!(name_of(&state).as_deref(), Some("Cookies"));
    tab_bar_update(&mut state, TabBarAction::CloseTab(c), Tab::Cookie(CookieTab::new()));
    assert_eq!(state.active_tab, Some(a));
    tab_bar_update(&mut state, TabBarAction::CloseTab(b), Tab::Cookie(CookieTab::new()));
    assert_eq!(state.active_tab, Some(a));
    assert!(state.get_tab(b).is_none());
}
