//! Core of a desktop mail client's backend: canonical message records, a
//! schema-enforced in-memory store with uniqueness and cascade guarantees,
//! identity resolution for mail addresses, MIME body location, and the
//! fetch-and-persist synchronization cycle.

pub mod commands;
pub mod database;
pub mod email;
pub mod models;
pub mod text;
pub mod sys;
