use std::time::Duration;

use apidesk::response::{content_type_of, ContentType, ResponsePane, ResponseTabId};
use apidesk::state::CookieTab;
use apidesk::text::{decimal, fmt_duration, fmt_duration_millis};
use apidesk::ui::{done, menu_item, title, Message, TabBarAction};

#[test]
fn duration_label_shows_seconds_and_millis() {
    assert_eq!(fmt_duration(Duration::from_millis(1500)), "Time: 1s 500ms");
    assert_eq!(fmt_duration(Duration::from_millis(2000)), "Time: 2s");
    assert_eq!(fmt_duration(Duration::from_millis(999)), "Time: 999ms");
    assert_eq!(fmt_duration(Duration::from_micros(12_345_678)), "Time: 12s 345ms");
}

#[test]
fn duration_label_edge_cases() {
    assert_eq!(fmt_duration_millis(0), "Time:");
    assert_eq!(fmt_duration_millis(1000), "Time:");
    assert_eq!(fmt_duration_millis(1001), "Time: 1s 1ms");
    assert_eq!(fmt_duration_millis(60_000), "Time: 60s");
}

#[test]
fn content_type_follows_header() {
    assert_eq!(content_type_of("application/json"), ContentType::Json);
    assert_eq!(content_type_of("text/plain"), ContentType::Text);
    assert_eq!(content_type_of("text/html"), ContentType::Buffer);
    assert_eq!(content_type_of(""), ContentType::Buffer);
}

#[test]
fn new_pane_is_idle_on_body() {
    let pane = ResponsePane::new();
    assert!(!pane.is_executing());
    assert_eq!(pane.active_tab, ResponseTabId::Body);
    assert_eq!(ResponsePane::default().active_tab, ResponseTabId::Body);
}

#[test]
fn small_values() {
    assert_eq!(CookieTab::new().name, "Cookies");
    assert_eq!(title(), "Settings");
    assert_eq!(done(), Some(Message::Done));
    let item = menu_item("Delete", 3u8);
    assert_eq!(item.content, "Delete");
    assert_eq!(item.message, 3);
    let action: TabBarAction<u8> = TabBarAction::CloseTab(1);
    assert!(matches!(action, TabBarAction::CloseTab(1)));
}

#[test]
fn decimal_digits_of_numbers() {
    assert_eq!(decimal(0), "0");
    assert_eq!(decimal(7), "7");
    assert_eq!(decimal(10), "10");
    assert_eq!(decimal(90210), "90210");
    assert_eq!(decimal(u128::MAX), u128::MAX.to_string());
}
