//! Application-state core of an HTTP API client: the request model and its
//! persisted form, the collection store, the open-tab registry with its
//! activation history, background job scheduling, cancellable sends and
//! dirty-state reconciliation.
pub mod collections;
pub mod commands;
pub mod executor;
pub mod keys;
pub mod paths;
pub mod persistence;
pub mod reconcile;
pub mod request;
pub mod response;
pub mod scheduler;
pub mod state;
pub mod text;
pub mod ui;
