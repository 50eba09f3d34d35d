//! Responses and the per-tab response pane state machine:
//! `Idle -> Executing -> {Completed | Failed | Idle after a cancellation}`.
use vstd::prelude::*;

verus! {

/// Which part of a completed response is shown.
#[derive(Debug, Clone, Copy, PartialEq, Eq, Structural, Default)]
pub enum ResponseTabId {
    #[default]
    Body,
    Headers,
}

/// How a response body is classified, by its `content-type` header.
#[derive(Debug, Clone, Copy, PartialEq, Eq, Structural)]
pub enum ContentType {
    Json,
    Text,
    Buffer,
}

#[derive(Debug, Clone)]
pub struct ResponseBody {
    pub content_type: ContentType,
    pub data: Vec<u8>,
}

/// What the HTTP collaborator returns for a send.
#[derive(Debug, Clone)]
pub struct Response {
    pub status: u16,
    pub headers: Vec<(String, String)>,
    pub body: ResponseBody,
    pub duration: std::time::Duration,
}

/// A completed response and the text shown for it.
#[derive(Debug, Clone)]
pub struct CompletedResponse {
    pub result: Response,
    pub content: String,
}

#[derive(Debug)]
pub enum ResponseState {
    Idle,
    Executing,
    Completed(CompletedResponse),
    Failed(String),
}

/// The result message of one send.
#[derive(Debug, Clone)]
pub enum ResponseResult {
    Completed(Response),
    Error(String),
    Cancelled,
}

#[derive(Debug)]
pub struct ResponsePane {
    pub state: ResponseState,
    pub active_tab: ResponseTabId,
}

fn same_str(a: &str, b: &str) -> (r: bool)
    ensures
        r == (a@ == b@),
{
    let x = a.to_owned();
    let y = b.to_owned();
    x == y
}

/// Classifies a body by the value of its `content-type` header.
pub fn content_type_of(header: &str) -> (r: ContentType)
    ensures
        r == (if header@ == "application/json"@ {
            ContentType::Json
        } else if header@ == "text/plain"@ {
            ContentType::Text
        } else {
            ContentType::Buffer
        }),
{
    if same_str(header, "application/json") {
        ContentType::Json
    } else if same_str(header, "text/plain") {
        ContentType::Text
    } else {
        ContentType::Buffer
    }
}

impl ResponsePane {
    /// An idle pane showing the body.
    pub fn new() -> (r: Self)
        ensures
            r.state is Idle,
            r.active_tab == ResponseTabId::Body,
    {
        ResponsePane { state: ResponseState::Idle, active_tab: ResponseTabId::Body }
    }

    pub fn is_executing(&self) -> (r: bool)
        ensures
            r == (self.state is Executing),
    {
        matches!(self.state, ResponseState::Executing)
    }

    /// Enters the terminal state that a send's result message calls for: a
    /// completed response is shown (its body as text), an error is shown,
    /// a cancellation returns to idle.
    pub fn apply_result(&mut self, result: ResponseResult, content: String)
        ensures
            final(self).active_tab == old(self).active_tab,
            match result {
                ResponseResult::Completed(res) => final(self).state == ResponseState::Completed(
                    CompletedResponse { result: res, content },
                ),
                ResponseResult::Error(e) => final(self).state == ResponseState::Failed(e),
                ResponseResult::Cancelled => final(self).state is Idle,
            },
    {
        self.state = match result {
            ResponseResult::Completed(res) => ResponseState::Completed(CompletedResponse { result: res, content }),
            ResponseResult::Error(e) => ResponseState::Failed(e),
            ResponseResult::Cancelled => ResponseState::Idle,
        };
    }
}

impl Default for ResponsePane {
    fn default() -> (r: Self)
        ensures
            r.state is Idle,
            r.active_tab == ResponseTabId::Body,
    {
        Self::new()
    }
}

} // verus!
