//! Rewrites grouped "tabs" blocks found in book-chapter text into
//! self-contained semantic tab markup.
//!
//! The whole transformation is a pure function on bytes: the scanner finds
//! each tab-group block, the item parser extracts per-tab metadata and the
//! first fenced code sample, and the emitter produces the replacement
//! markup. Malformed blocks pass through unchanged.
#![verifier::loop_isolation(false)]

pub mod attrs;
pub mod escape;
pub mod fence;
pub mod item;
pub mod num;
pub mod render;
pub mod rewrite;
pub mod sanitize;
pub mod text;
