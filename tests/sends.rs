use apidesk::executor::{CancellableTask, TaskResult};
use apidesk::collections::Environment;
use apidesk::commands::response_result;
use apidesk::request::{KeyValue, Method, Request, RequestBody};
use apidesk::response::{ContentType, Response, ResponseBody, ResponseResult, ResponseState};
use apidesk::state::{AppState, HttpTab, RequestDirtyState, Tab};

fn request(url: &str) -> Request {
    Request {
        method: Method::GET,
        url: url.to_string(),
        headers: vec![],
        body: RequestBody::Empty,
        query_params: vec![],
        path_params: vec![],
        description: String::new(),
    }
}

fn response() -> Response {
    Response {
        status: 200,
        headers: vec![("content-type".to_string(), "text/plain".to_string())],
        body: ResponseBody { content_type: ContentType::Text, data: b"hi".to_vec() },
        duration: std::time::Duration::from_millis(12),
    }
}

fn http_tab(state: &AppState, key: apidesk::keys::TabKey) -> &HttpTab {
    match state.get_tab(key) {
        Some(Tab::Http(h)) => h,
        _ => panic!("not an open request tab"),
    }
}

#[test]
fn completion_then_cancel_stays_completed() {
    let mut run: CancellableTask<u32> = CancellableTask::new();
    assert!(run.complete(7));
    assert!(!run.cancel());
    assert!(run.is_settled());
    assert!(matches!(run.into_outcome(), Some(TaskResult::Completed(7))));
}

#[test]
fn cancel_then_completion_stays_cancelled() {
    let mut run: CancellableTask<u32> = CancellableTask::new();
    assert!(!run.is_settled());
    assert!(run.cancel());
    assert!(!run.complete(7));
    assert!(matches!(run.into_outcome(), Some(TaskResult::Cancelled)));
}

#[test]
fn send_enters_executing_and_result_completes() {
    let mut state = AppState::new();
    let key = state.open_tab(Tab::Http(HttpTab::new("t".to_string(), request("/a"), None)));
    let (tx, _rx) = tokio::sync::oneshot::channel::<()>();
    let plan = state.begin_send(key, tx).unwrap();
    assert_eq!(plan.request.url, "/a");
    assert!(plan.env.is_none());
    assert!(http_tab(&state, key).response.is_executing());
    assert_eq!(http_tab(&state, key).tasks.len(), 1);
    state.apply_response(key, ResponseResult::Completed(response()), "hi".to_string());
    match &http_tab(&state, key).response.state {
        ResponseState::Completed(c) => {
            assert_eq!(c.result.status, 200);
            assert_eq!(c.content, "hi");
        }
        other => panic!("unexpected state {:?}", other),
    }
}

#[test]
fn failed_send_shows_the_error() {
    let mut state = AppState::new();
    let key = state.open_tab(Tab::Http(HttpTab::new("t".to_string(), request("/a"), None)));
    let (tx, _rx) = tokio::sync::oneshot::channel::<()>();
    state.begin_send(key, tx);
    state.apply_response(key, ResponseResult::Error("refused".to_string()), String::new());
    assert!(matches!(&http_tab(&state, key).response.state, ResponseState::Failed(e) if e == "refused"));
}

#[test]
fn new_send_cancels_the_previous_one() {
    let mut state = AppState::new();
    let key = state.open_tab(Tab::Http(HttpTab::new("t".to_string(), request("/a"), None)));
    let (tx1, mut rx1) = tokio::sync::oneshot::channel::<()>();
    let (tx2, mut rx2) = tokio::sync::oneshot::channel::<()>();
    state.begin_send(key, tx1);
    state.begin_send(key, tx2);
    assert_eq!(rx1.try_recv(), Ok(()));
    assert!(rx2.try_recv().is_err());
    assert_eq!(http_tab(&state, key).tasks.len(), 1);
}

#[test]
fn closing_tab_during_send_cancels_and_late_result_is_ignored() {
    let mut state = AppState::new();
    let other = state.open_tab(Tab::Http(HttpTab::new("o".to_string(), request("/o"), None)));
    let key = state.open_tab(Tab::Http(HttpTab::new("t".to_string(), request("/a"), None)));
    let (tx, mut rx) = tokio::sync::oneshot::channel::<()>();
    state.begin_send(key, tx);
    let mut run: CancellableTask<Response> = CancellableTask::new();
    state.close_tab(key);
    assert_eq!(rx.try_recv(), Ok(()));
    assert!(run.cancel());
    assert!(!run.complete(response()));
    assert!(matches!(run.into_outcome(), Some(TaskResult::Cancelled)));
    assert!(state.get_tab(key).is_none());
    state.apply_response(key, ResponseResult::Completed(response()), "late".to_string());
    assert!(state.get_tab(key).is_none());
    assert_eq!(state.active_tab, Some(other));
    assert!(!http_tab(&state, other).response.is_executing());
}

#[test]
fn cancel_tab_tasks_returns_to_idle() {
    let mut state = AppState::new();
    let key = state.open_tab(Tab::Http(HttpTab::new("t".to_string(), request("/a"), None)));
    let (tx, mut rx) = tokio::sync::oneshot::channel::<()>();
    state.begin_send(key, tx);
    state.cancel_tab_tasks(key);
    assert_eq!(rx.try_recv(), Ok(()));
    assert!(matches!(http_tab(&state, key).response.state, ResponseState::Idle));
    assert!(http_tab(&state, key).tasks.is_empty());
}

#[test]
fn editing_cancels_send_and_marks_maybe_dirty() {
    let mut state = AppState::new();
    let key = state.open_tab(Tab::Http(HttpTab::new("t".to_string(), request("/a"), None)));
    let (tx, mut rx) = tokio::sync::oneshot::channel::<()>();
    state.begin_send(key, tx);
    state.edit_request(key, request("/b"));
    assert_eq!(rx.try_recv(), Ok(()));
    let tab = http_tab(&state, key);
    assert_eq!(tab.request.url, "/b");
    assert_eq!(tab.request_dirty_state, RequestDirtyState::MaybeDirty);
    assert!(matches!(tab.response.state, ResponseState::Idle));
}

#[test]
fn cancelled_result_returns_to_idle() {
    let mut state = AppState::new();
    let key = state.open_tab(Tab::Http(HttpTab::new("t".to_string(), request("/a"), None)));
    let (tx, _rx) = tokio::sync::oneshot::channel::<()>();
    state.begin_send(key, tx);
    state.apply_response(key, ResponseResult::Cancelled, String::new());
    assert!(matches!(http_tab(&state, key).response.state, ResponseState::Idle));
}

#[test]
fn send_carries_the_active_environment() {
    let mut state = AppState::new();
    let col = state.collections.create_collection("c".to_string(), std::path::PathBuf::from("/c"));
    let (cr, _) = state.collections.add_request("a".to_string(), col, None).unwrap();
    {
        let c = state.collections.get_mut(col).unwrap();
        c.environments.push(Environment {
            name: "dev".to_string(),
            variables: vec![KeyValue { name: "host".to_string(), value: "localhost".to_string(), disabled: false }],
        });
        c.active_environment = Some(0);
    }
    let key = state.open_tab(Tab::Http(HttpTab::new("t".to_string(), request("/a"), Some(cr))));
    let (tx, _rx) = tokio::sync::oneshot::channel::<()>();
    let plan = state.begin_send(key, tx).unwrap();
    let env = plan.env.unwrap();
    assert_eq!(env.name, "dev");
    assert_eq!(env.variables[0].value, "localhost");
}

#[test]
fn run_outcome_maps_to_one_result() {
    assert!(matches!(response_result(TaskResult::Completed(Ok(response()))), ResponseResult::Completed(r) if r.status == 200));
    assert!(matches!(response_result(TaskResult::Completed(Err("boom".to_string()))), ResponseResult::Error(e) if e == "boom"));
    assert!(matches!(response_result(TaskResult::Cancelled), ResponseResult::Cancelled));
}
