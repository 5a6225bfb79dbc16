//! One-way contact synchronisation: discovery of a remote address book,
//! planning of the fetched cards, and the reconciliation cache.
pub mod text;
pub mod time;
pub mod local;
pub mod remote;
pub mod cache;
pub mod config;
pub mod codec;
pub mod discovery;
