//! Data model: change descriptions, revisions and addresses of parts of data.
pub mod change;
pub mod data;
pub mod lens;
pub mod update;
