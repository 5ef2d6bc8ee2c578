//! Core of a live-preview template editor.
//!
//! The library covers the logic of the preview pane: resolving raw
//! highlighting attributes against a theme's defaults, merging a fragment
//! stream into a minimal sequence of styled runs, the debounced
//! recompilation state machine of an editing session, the theme catalog
//! with its fallback rule, and the text codecs used for persistence and
//! shareable links.

pub mod catalog;
pub mod codec;
pub mod color;
pub mod compiler;
pub mod highlight;
pub mod merge;
pub mod session;
pub mod style;
mod strutil;
