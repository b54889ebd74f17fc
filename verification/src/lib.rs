//! Renders an already-parsed document tree into an HTML fragment string.
//!
//! The tree is a sequence of nodes, each either a block (a tag with nested
//! content) or a leaf item (text, raw HTML passthrough, or a footnote
//! reference). Rendering walks the tree once, in order, emitting opening and
//! closing markup around each block's content, escaping reserved characters
//! where the rules call for it, and assigning footnote identifiers stable
//! indices in first-seen order.

pub mod context;
pub mod decimal;
pub mod escape;
pub mod render;
pub mod sink;
pub mod tree;
