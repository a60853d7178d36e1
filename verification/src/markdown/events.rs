//! Parsed Markdown as a flat stream of events: element starts and ends, with
//! text between them.

use vstd::prelude::*;

verus! {

/// How a table column is aligned.
#[derive(Clone, Copy, Debug, PartialEq, Eq, Structural)]
pub enum Align {
    Unspecified,
    Left,
    Center,
    Right,
}

/// How a code block was written: fenced, with its info string, or indented.
#[derive(Debug, PartialEq, Eq)]
pub enum CodeKind {
    Fenced(String),
    Indented,
}

/// The element an event starts.
#[derive(Debug, PartialEq, Eq)]
pub enum MarkdownTag {
    Paragraph,
    Heading,
    BlockQuote,
    CodeBlock(CodeKind),
    /// A list; ordered lists carry their first number.
    List(Option<u64>),
    Item,
    /// A table, with one alignment per column.
    Table(Vec<Align>),
    TableHead,
    TableRow,
    TableCell,
    Emphasis,
    Strong,
    Strikethrough,
    /// A link, with its destination.
    Link(String),
    Image,
    /// Any element this renderer shows only through its content.
    Other,
}

/// The element an event ends.
#[derive(Clone, Copy, Debug, PartialEq, Eq, Structural)]
pub enum MarkdownTagEnd {
    Paragraph,
    Heading,
    BlockQuote,
    CodeBlock,
    List,
    Item,
    Table,
    TableHead,
    TableRow,
    TableCell,
    Emphasis,
    Strong,
    Strikethrough,
    Link,
    Image,
    Other,
}

/// One parsed Markdown event.
#[derive(Debug, PartialEq, Eq)]
pub enum MarkdownEvent {
    Start(MarkdownTag),
    End(MarkdownTagEnd),
    /// A text node.
    Text(String),
    /// An inline code span.
    Code(String),
    /// Content shown as written: HTML, math, footnote references.
    Literal(String),
    SoftBreak,
    HardBreak,
    /// A thematic break.
    Rule,
    /// A task list item's check box.
    TaskListMarker(bool),
}

} // verus!
