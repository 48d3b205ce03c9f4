//! A verified store for a personal hierarchy of folders and notes.
//!
//! The store lives in one database file that a long-lived desktop program
//! and any number of short-lived bridge processes share. This library holds
//! the rules of the store as verified code over plain values, and the calls
//! on the database engine that read a store from the file and write it
//! back.
//!
//! - [`model`], [`store`], [`forest`]: folders, notes, and what a store
//!   keeps true of them.
//! - [`folders`], [`cascade`], [`notes`], [`ordering`], [`inbox`],
//!   [`import`], [`reading`], [`search`]: the operations of the store.
//! - [`laws`]: what holds of the operations taken together.
//! - [`ident`], [`text`], [`clock`]: ids, query text, and the time.
//! - [`schema`]: the versioned migrations of the file.
//! - [`bridge`], [`commands`]: the requests of external clients and the
//!   changes that the desktop program asks for.
//! - [`sqlite`], [`rows`], [`changes`], [`db`]: the store on disk.
//! - [`validate`], [`flags`]: checks and helpers.

pub mod bridge;
pub mod cascade;
pub mod changes;
pub mod clock;
pub mod commands;
pub mod db;
pub mod flags;
pub mod folders;
pub mod forest;
pub mod ident;
pub mod import;
pub mod inbox;
pub mod laws;
pub mod model;
pub mod notes;
pub mod ordering;
pub mod reading;
pub mod rows;
pub mod schema;
pub mod search;
pub mod sqlite;
pub mod store;
pub mod text;
pub mod validate;
