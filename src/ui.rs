//! Messages and small values shared with the presentation layer.
use vstd::prelude::*;

use std::borrow::Cow;

verus! {

/// An action on a tab bar.
#[derive(Debug, Clone)]
pub enum TabBarAction<T: Clone> {
    NewTab,
    CloseTab(T),
    ChangeTab(T),
}

/// An entry of a context menu: its label and the message it sends.
#[derive(Debug, Clone)]
pub struct MenuButton<'a, M: Clone + 'a> {
    pub content: &'a str,
    pub message: M,
}

/// A context menu entry labelled `content` that sends `message`.
pub fn menu_item<'a, M: Clone + 'a>(content: &'a str, message: M) -> (r: MenuButton<'a, M>)
    ensures
        r.content == content,
        r.message == message,
{
    MenuButton { content, message }
}

/// Messages of the settings popup.
#[derive(Debug, Clone, Copy, PartialEq, Eq, Structural)]
pub enum Message {
    Done,
}

/// Title of the settings popup.
pub fn title<'a>() -> (r: Cow<'a, str>)
    ensures
        r@ == "Settings"@,
{
    Cow::Borrowed("Settings")
}

/// The message the settings popup's done button sends.
pub fn done() -> (r: Option<Message>)
    ensures
        r == Some(Message::Done),
{
    Some(Message::Done)
}

} // verus!
