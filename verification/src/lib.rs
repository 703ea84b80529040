//! The verified core of a WhatsApp chat archive: export parsing, storage keys
//! and paths, paging, calendar arithmetic, settings, and the choices that the
//! HTTP handlers and the mail importer make.
pub mod text;
pub mod storage;
pub mod error;
pub mod datetime;
pub mod pattern;
pub mod parser;
pub mod models;
pub mod response;
pub mod ids;
pub mod config;
pub mod email;
pub mod routes;
