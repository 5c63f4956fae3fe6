//! The rules of a service on which people maintain Anki decks together.
pub mod auth;
pub mod changelog;
pub mod clock;
pub mod deck_import;
pub mod lists;
pub mod media_logger;
pub mod media_manager;
pub mod media_reference_manager;
pub mod note_removal;
pub mod notetypes;
pub mod outside;
pub mod pull;
pub mod push;
pub mod rate_limiter;
pub mod reply;
pub mod server;
pub mod stats;
pub mod structs;
pub mod suggestion;
pub mod text;
