use std::path::PathBuf;

use apidesk::commands::{background, check_dirty_requests, save_open_collections, TaskMsg};
use apidesk::persistence::request::encode_request;
use apidesk::reconcile::dirty_verdicts;
use apidesk::request::{KeyValue, Method, Request, RequestBody};
use apidesk::scheduler::BackgroundTask;
use apidesk::state::{AppState, HttpTab, RequestDirtyState, Tab};

fn request(url: &str) -> Request {
    Request {
        method: Method::GET,
        url: url.to_string(),
        headers: vec![],
        body: RequestBody::Empty,
        query_params: vec![],
        path_params: vec![],
        description: String::new(),
    }
}

fn dirty_state(state: &AppState, key: apidesk::keys::TabKey) -> RequestDirtyState {
    match state.get_tab(key) {
        Some(Tab::Http(h)) => h.request_dirty_state,
        _ => panic!("not an open request tab"),
    }
}

#[test]
fn edited_url_is_dirty_until_saved() {
    let mut state = AppState::new();
    let col = state.collections.create_collection("c".to_string(), PathBuf::from("/c"));
    let (cr, path) = state.collections.add_request("a".to_string(), col, None).unwrap();
    let on_disk = encode_request(&request("/a"));
    let key = state.open_tab(Tab::Http(HttpTab::new("a".to_string(), request("/a"), Some(cr))));

    state.edit_request(key, request("/b"));
    assert_eq!(dirty_state(&state, key), RequestDirtyState::MaybeDirty);
    let checks = check_dirty_requests(&mut state, 100);
    assert_eq!(checks.len(), 1);
    assert_eq!(checks[0].key, key);
    assert_eq!(checks[0].path, path);
    let verdicts = dirty_verdicts(&checks, &vec![on_disk]);
    TaskMsg::UpdateDirtyTabs(verdicts).update(&mut state);
    assert_eq!(dirty_state(&state, key), RequestDirtyState::Dirty);

    let saved = match state.get_tab(key) {
        Some(Tab::Http(h)) => encode_request(&h.request),
        _ => panic!("tab closed"),
    };
    state.request_saved(key);
    assert!(check_dirty_requests(&mut state, 101).is_empty());
    let checks = check_dirty_requests(&mut state, 103);
    assert_eq!(checks.len(), 1);
    let verdicts = dirty_verdicts(&checks, &vec![saved]);
    TaskMsg::UpdateDirtyTabs(verdicts).update(&mut state);
    assert_eq!(dirty_state(&state, key), RequestDirtyState::Clean);
}

#[test]
fn unedited_tab_reconciles_clean() {
    let mut state = AppState::new();
    let col = state.collections.create_collection("c".to_string(), PathBuf::from("/c"));
    let (cr, _) = state.collections.add_request("a".to_string(), col, None).unwrap();
    let on_disk = encode_request(&request("/a"));
    let opened = apidesk::persistence::request::decode_request(&on_disk);
    let key = state.open_tab(Tab::Http(HttpTab::new("a".to_string(), opened, Some(cr))));
    state.request_saved(key);
    let checks = check_dirty_requests(&mut state, 0);
    let verdicts = dirty_verdicts(&checks, &vec![on_disk]);
    assert_eq!(verdicts, vec![(key, checks[0].revision, RequestDirtyState::Clean)]);
}

#[test]
fn tab_without_backing_file_is_clean_at_once() {
    let mut state = AppState::new();
    let col = state.collections.create_collection("c".to_string(), PathBuf::from("/c"));
    let (cr, _) = state.collections.add_request("a".to_string(), col, None).unwrap();
    let unsaved = state.open_tab(Tab::Http(HttpTab::new("u".to_string(), request("/u"), None)));
    let linked = state.open_tab(Tab::Http(HttpTab::new("l".to_string(), request("/l"), Some(cr))));
    state.edit_request(unsaved, request("/u2"));
    state.edit_request(linked, request("/l2"));
    state.collections.remove(col);
    assert!(state.collections.get_ref(cr).is_none());
    let checks = check_dirty_requests(&mut state, 0);
    assert!(checks.is_empty());
    assert_eq!(dirty_state(&state, unsaved), RequestDirtyState::Clean);
    assert_eq!(dirty_state(&state, linked), RequestDirtyState::Clean);
}

#[test]
fn verdict_from_before_an_edit_is_ignored() {
    let mut state = AppState::new();
    let col = state.collections.create_collection("c".to_string(), PathBuf::from("/c"));
    let (cr, _) = state.collections.add_request("a".to_string(), col, None).unwrap();
    let key = state.open_tab(Tab::Http(HttpTab::new("a".to_string(), request("/a"), Some(cr))));
    TaskMsg::UpdateDirtyTabs(vec![(key, 0, RequestDirtyState::Dirty)]).update(&mut state);
    assert_eq!(dirty_state(&state, key), RequestDirtyState::Clean);

    state.edit_request(key, request("/b"));
    let checks = check_dirty_requests(&mut state, 0);
    assert_eq!(checks.len(), 1);
    let verdicts = dirty_verdicts(&checks, &vec![encode_request(&request("/a"))]);
    state.edit_request(key, request("/a"));
    TaskMsg::UpdateDirtyTabs(verdicts).update(&mut state);
    assert_eq!(dirty_state(&state, key), RequestDirtyState::MaybeDirty);

    let checks = check_dirty_requests(&mut state, 10);
    let verdicts = dirty_verdicts(&checks, &vec![encode_request(&request("/a"))]);
    TaskMsg::UpdateDirtyTabs(verdicts).update(&mut state);
    assert_eq!(dirty_state(&state, key), RequestDirtyState::Clean);
}

#[test]
fn only_a_waiting_tab_takes_a_verdict() {
    let mut state = AppState::new();
    let key = state.open_tab(Tab::Http(HttpTab::new("a".to_string(), request("/a"), None)));
    state.edit_request(key, request("/b"));
    TaskMsg::UpdateDirtyTabs(vec![(key, 1, RequestDirtyState::Dirty), (key, 1, RequestDirtyState::Clean)])
        .update(&mut state);
    assert_eq!(dirty_state(&state, key), RequestDirtyState::Dirty);
}

#[test]
fn save_job_runs_only_with_dirty_collections() {
    let mut state = AppState::new();
    let col = state.collections.create_collection("c".to_string(), PathBuf::from("/c"));
    assert!(save_open_collections(&mut state, 0).is_empty());
    state.collections.create_folder_in("f".to_string(), col, None).unwrap();
    assert_eq!(save_open_collections(&mut state, 0), vec![col]);
    assert!(save_open_collections(&mut state, 5).is_empty());
    state.collections.mark_saved(col);
    TaskMsg::Completed(BackgroundTask::SaveCollections).update(&mut state);
    assert!(save_open_collections(&mut state, 6).is_empty());
    state.collections.create_folder_in("g".to_string(), col, None).unwrap();
    assert_eq!(save_open_collections(&mut state, 6), vec![col]);
}

#[test]
fn background_tick_hands_out_both_jobs() {
    let mut state = AppState::new();
    let col = state.collections.create_collection("c".to_string(), PathBuf::from("/c"));
    let (cr, _) = state.collections.add_request("a".to_string(), col, None).unwrap();
    let key = state.open_tab(Tab::Http(HttpTab::new("a".to_string(), request("/a"), Some(cr))));
    state.edit_request(key, request("/b"));
    let work = background(&mut state, 10);
    assert_eq!(work.save, vec![col]);
    assert_eq!(work.check.len(), 1);
    let again = background(&mut state, 11);
    assert!(again.save.is_empty());
    assert!(again.check.is_empty());
}

#[test]
fn loaded_collections_open_the_last_one() {
    let mut state = AppState::new();
    let cols = vec![
        apidesk::collections::Collection::new("one".to_string(), PathBuf::from("/1")),
        apidesk::collections::Collection::new("two".to_string(), PathBuf::from("/2")),
    ];
    TaskMsg::CollectionsLoaded(cols).update(&mut state);
    match state.active_tab() {
        Some(Tab::Collection(t)) => assert_eq!(t.name, "two"),
        _ => panic!("expected the collection tab"),
    }
    let mut empty = AppState::new();
    TaskMsg::CollectionsLoaded(vec![]).update(&mut empty);
    assert!(empty.active_tab().is_none());
}

#[test]
fn deleting_the_folder_of_a_tab_request_fails_softly() {
    let mut state = AppState::new();
    let col = state.collections.create_collection("c".to_string(), PathBuf::from("/c"));
    state.collections.create_folder_in("f".to_string(), col, None).unwrap();
    let (cr, _) = state.collections.add_request("a".to_string(), col, Some(apidesk::collections::FolderId(0))).unwrap();
    let key = state.open_tab(Tab::Http(HttpTab::new("a".to_string(), request("/a"), Some(cr))));
    state.edit_request(key, request("/b"));
    assert_eq!(state.collections.delete_folder(col, apidesk::collections::FolderId(0)), Some(PathBuf::from("/c/f")));
    assert!(state.collections.get_ref(cr).is_none());
    assert!(state.switch_to_tab(cr));
    let checks = check_dirty_requests(&mut state, 0);
    assert!(checks.is_empty());
    assert_eq!(dirty_state(&state, key), RequestDirtyState::Clean);
}

#[test]
fn saved_tab_with_body_stays_dirty() {
    let mut state = AppState::new();
    let col = state.collections.create_collection("c".to_string(), PathBuf::from("/c"));
    let (cr, _) = state.collections.add_request("a".to_string(), col, None).unwrap();
    let mut req = request("/a");
    req.headers.push(KeyValue { name: String::new(), value: "x".to_string(), disabled: false });
    let key = state.open_tab(Tab::Http(HttpTab::new("a".to_string(), request("/a"), Some(cr))));
    state.edit_request(key, req.clone());
    state.request_saved(key);
    let checks = check_dirty_requests(&mut state, 0);
    let verdicts = dirty_verdicts(&checks, &vec![encode_request(&req)]);
    assert_eq!(verdicts, vec![(key, checks[0].revision, RequestDirtyState::Clean)]);

    let mut with_body = req.clone();
    with_body.body = RequestBody::Text("x".to_string());
    let verdicts = dirty_verdicts(&checks, &vec![encode_request(&with_body)]);
    assert_eq!(verdicts[0].2, RequestDirtyState::Clean);
    TaskMsg::UpdateDirtyTabs(verdicts).update(&mut state);

    state.edit_request(key, with_body.clone());
    state.request_saved(key);
    let checks = check_dirty_requests(&mut state, 10);
    let verdicts = dirty_verdicts(&checks, &vec![encode_request(&with_body)]);
    assert_eq!(verdicts[0].2, RequestDirtyState::Dirty);
}

#[test]
fn loading_nothing_still_opens_the_last_collection() {
    let mut state = AppState::new();
    state.collections.create_collection("kept".to_string(), PathBuf::from("/k"));
    TaskMsg::CollectionsLoaded(vec![]).update(&mut state);
    match state.active_tab() {
        Some(Tab::Collection(t)) => assert_eq!(t.name, "kept"),
        _ => panic!("expected the collection tab"),
    }
}
