//! Media files: what may be uploaded, where it is stored, and when it is removed.
pub mod check;
pub mod cleanup;
pub mod confirm;
pub mod files;
pub mod manifest;
pub mod svg;
