//! Suggestion reconciliation and check-session coordination for a
//! grammar-checking editor.
//!
//! The engine converts model-reported text spans into exact byte ranges over
//! the live document, keeps the suggestion set free of overlaps, decides when
//! a check is issued, discards stale results, and keeps pending suggestion
//! offsets valid as the document is edited.
//!
//! Text is handled as UTF-8 bytes (`Vec<u8>`): every offset and length in a
//! [`suggestion::Suggestion`] is a byte index into the document.

pub mod config;
pub mod draft;
pub mod highlight;
pub mod history;
pub mod mapper;
pub mod normalize;
pub mod reconcile;
pub mod session;
pub mod suggestion;
pub mod text;
