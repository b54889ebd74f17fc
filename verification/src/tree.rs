//! The document tree: the closed sets of tags, events and nodes that the
//! renderer recognizes.

use vstd::prelude::*;

verus! {

/// A block-level construct. Tags outside the recognized set are represented
/// by `Other`: they emit no markup of their own, but a block carrying one
/// still has its nested content rendered.
#[derive(Debug)]
pub enum Tag {
    Paragraph,
    /// A heading; the level is concatenated into the element name (`h1`...).
    Header(u32),
    /// A fenced code block; the info string is accepted but not rendered.
    CodeBlock(String),
    /// A footnote definition for the given identifier.
    FootnoteDefinition(String),
    /// Any other block construct: renders as a no-op.
    Other,
}

/// A leaf content event. Structural start/end markers never reach this
/// layer: the tree has already grouped them into blocks, so they are not
/// representable here.
#[derive(Debug)]
pub enum Event {
    /// Text, appended verbatim (the producer has already escaped it).
    Text(String),
    /// Raw HTML, appended verbatim.
    Html(String),
    /// A footnote reference for the given identifier.
    FootnoteReference(String),
}

/// A tree node: a block pairing a tag with nested content, or a leaf item.
#[derive(Debug)]
pub enum Node {
    Block(Tag, Content),
    Item(Event),
}

/// A finite sequence of nodes, consumed once, in order.
#[derive(Debug)]
pub struct Content {
    pub nodes: Vec<Node>,
}

} // verus!
