//! Markdown text to events, with pulldown-cmark's CommonMark parser (tables,
//! strikethrough and task lists enabled). The parser's own types are carried
//! through opaque; small wrappers tell their variants apart, and verified
//! code turns them into the library's events.

use pulldown_cmark::{Alignment as MdAlign, CodeBlockKind as MdCode, CowStr, Event as MdEvent, Tag as MdTag, TagEnd as MdEnd};
use vstd::prelude::*;

use super::events::{Align, CodeKind, MarkdownEvent, MarkdownTag, MarkdownTagEnd};
use super::writer::{blocks, blocks_from, blocks_view};
use super::Block;
use super::highlight::SyntaxAssets;
use super::controls::{lemma_blocks_hold_no_controls, lines_clean};

verus! {

#[verifier::external_type_specification]
#[verifier::external_body]
pub struct ExMdEvent<'a>(pulldown_cmark::Event<'a>);

#[verifier::external_type_specification]
#[verifier::external_body]
pub struct ExMdTag<'a>(pulldown_cmark::Tag<'a>);

#[verifier::external_type_specification]
#[verifier::external_body]
pub struct ExMdTagEnd(pulldown_cmark::TagEnd);

#[verifier::external_type_specification]
#[verifier::external_body]
pub struct ExCowStr<'a>(pulldown_cmark::CowStr<'a>);

#[verifier::external_type_specification]
#[verifier::external_body]
pub struct ExMdCode<'a>(pulldown_cmark::CodeBlockKind<'a>);

#[verifier::external_type_specification]
#[verifier::external_body]
pub struct ExMdAlign(pulldown_cmark::Alignment);

/// A parser event with its variant told apart and its payload still the
/// parser's own.
pub enum RawEvent<'a> {
    Start(MdTag<'a>),
    End(MdEnd),
    Text(CowStr<'a>),
    Code(CowStr<'a>),
    InlineMath(CowStr<'a>),
    DisplayMath(CowStr<'a>),
    Html(CowStr<'a>),
    InlineHtml(CowStr<'a>),
    FootnoteReference(CowStr<'a>),
    SoftBreak,
    HardBreak,
    Rule,
    TaskListMarker(bool),
}

/// `pulldown_cmark::Event`'s variants, one arm each.
#[verifier::external_body]
fn raw_event<'a>(e: MdEvent<'a>) -> RawEvent<'a> {
    match e {
        MdEvent::Start(t) => RawEvent::Start(t),
        MdEvent::End(t) => RawEvent::End(t),
        MdEvent::Text(s) => RawEvent::Text(s),
        MdEvent::Code(s) => RawEvent::Code(s),
        MdEvent::InlineMath(s) => RawEvent::InlineMath(s),
        MdEvent::DisplayMath(s) => RawEvent::DisplayMath(s),
        MdEvent::Html(s) => RawEvent::Html(s),
        MdEvent::InlineHtml(s) => RawEvent::InlineHtml(s),
        MdEvent::FootnoteReference(s) => RawEvent::FootnoteReference(s),
        MdEvent::SoftBreak => RawEvent::SoftBreak,
        MdEvent::HardBreak => RawEvent::HardBreak,
        MdEvent::Rule => RawEvent::Rule,
        MdEvent::TaskListMarker(b) => RawEvent::TaskListMarker(b),
    }
}

/// A parser tag with its variant told apart; tags the library does not
/// show differently are `Other`.
pub enum RawTag<'a> {
    Paragraph,
    Heading,
    BlockQuote,
    CodeBlock(MdCode<'a>),
    List(Option<u64>),
    Item,
    Table(Vec<MdAlign>),
    TableHead,
    TableRow,
    TableCell,
    Emphasis,
    Strong,
    Strikethrough,
    Link(CowStr<'a>),
    Image,
    Other,
}

/// `pulldown_cmark::Tag`'s variants, one arm each, keeping only the code
/// block kind, list start, column alignments and link destination; tags the
/// library does not show differently are `Other`.
#[verifier::external_body]
fn raw_tag<'a>(t: MdTag<'a>) -> RawTag<'a> {
    match t {
        MdTag::Paragraph => RawTag::Paragraph, MdTag::Heading { .. } => RawTag::Heading,
        MdTag::BlockQuote(_) => RawTag::BlockQuote, MdTag::CodeBlock(k) => RawTag::CodeBlock(k),
        MdTag::List(n) => RawTag::List(n), MdTag::Item => RawTag::Item,
        MdTag::Table(a) => RawTag::Table(a), MdTag::TableHead => RawTag::TableHead,
        MdTag::TableRow => RawTag::TableRow, MdTag::TableCell => RawTag::TableCell,
        MdTag::Emphasis => RawTag::Emphasis, MdTag::Strong => RawTag::Strong,
        MdTag::Strikethrough => RawTag::Strikethrough, MdTag::Image { .. } => RawTag::Image,
        MdTag::Link { dest_url, .. } => RawTag::Link(dest_url),
        _ => RawTag::Other,
    }
}

/// `pulldown_cmark::TagEnd`'s variants, one arm each; those the library
/// does not show differently end `Other`.
#[verifier::external_body]
fn tag_end_of(t: MdEnd) -> MarkdownTagEnd {
    match t {
        MdEnd::Paragraph => MarkdownTagEnd::Paragraph, MdEnd::Heading(_) => MarkdownTagEnd::Heading,
        MdEnd::BlockQuote(_) => MarkdownTagEnd::BlockQuote, MdEnd::CodeBlock => MarkdownTagEnd::CodeBlock,
        MdEnd::List(_) => MarkdownTagEnd::List, MdEnd::Item => MarkdownTagEnd::Item,
        MdEnd::Table => MarkdownTagEnd::Table, MdEnd::TableHead => MarkdownTagEnd::TableHead,
        MdEnd::TableRow => MarkdownTagEnd::TableRow, MdEnd::TableCell => MarkdownTagEnd::TableCell,
        MdEnd::Emphasis => MarkdownTagEnd::Emphasis, MdEnd::Strong => MarkdownTagEnd::Strong,
        MdEnd::Strikethrough => MarkdownTagEnd::Strikethrough, MdEnd::Link => MarkdownTagEnd::Link,
        MdEnd::Image => MarkdownTagEnd::Image, MdEnd::HtmlBlock => MarkdownTagEnd::Other,
        MdEnd::FootnoteDefinition => MarkdownTagEnd::Other, MdEnd::DefinitionList => MarkdownTagEnd::Other,
        MdEnd::DefinitionListTitle => MarkdownTagEnd::Other, MdEnd::DefinitionListDefinition => MarkdownTagEnd::Other,
        MdEnd::Superscript => MarkdownTagEnd::Other, MdEnd::Subscript => MarkdownTagEnd::Other,
        MdEnd::MetadataBlock(_) => MarkdownTagEnd::Other,
    }
}

/// `pulldown_cmark::CodeBlockKind`'s variants: a fenced block's info string,
/// or none for an indented block.
#[verifier::external_body]
fn fence_info<'a>(k: MdCode<'a>) -> Option<CowStr<'a>> {
    match k {
        MdCode::Fenced(info) => Some(info),
        MdCode::Indented => None,
    }
}

/// `pulldown_cmark::Alignment`'s variants, one arm each.
#[verifier::external_body]
fn align_of(a: &MdAlign) -> Align {
    match a {
        MdAlign::None => Align::Unspecified,
        MdAlign::Left => Align::Left,
        MdAlign::Center => Align::Center,
        MdAlign::Right => Align::Right,
    }
}

/// The text of a parser string, by `CowStr`'s `Deref` to `str`.
#[verifier::external_body]
fn cow_text(s: &CowStr) -> String {
    s.to_string()
}

fn aligns_of(a: &Vec<MdAlign>) -> (r: Vec<Align>)
    ensures
        r@.len() == a@.len(),
{
    let mut r: Vec<Align> = Vec::new();
    let mut i: usize = 0;
    while i < a.len()
        invariant
            i <= a@.len(),
            r@.len() == i,
        decreases a.len() - i,
    {
        r.push(align_of(&a[i]));
        i += 1;
    }
    r
}

fn tag_of(t: MdTag) -> MarkdownTag {
    match raw_tag(t) {
        RawTag::Paragraph => MarkdownTag::Paragraph,
        RawTag::Heading => MarkdownTag::Heading,
        RawTag::BlockQuote => MarkdownTag::BlockQuote,
        RawTag::CodeBlock(k) => MarkdownTag::CodeBlock(
            match fence_info(k) {
                Some(info) => CodeKind::Fenced(cow_text(&info)),
                None => CodeKind::Indented,
            },
        ),
        RawTag::List(n) => MarkdownTag::List(n),
        RawTag::Item => MarkdownTag::Item,
        RawTag::Table(a) => MarkdownTag::Table(aligns_of(&a)),
        RawTag::TableHead => MarkdownTag::TableHead,
        RawTag::TableRow => MarkdownTag::TableRow,
        RawTag::TableCell => MarkdownTag::TableCell,
        RawTag::Emphasis => MarkdownTag::Emphasis,
        RawTag::Strong => MarkdownTag::Strong,
        RawTag::Strikethrough => MarkdownTag::Strikethrough,
        RawTag::Link(dest) => MarkdownTag::Link(cow_text(&dest)),
        RawTag::Image => MarkdownTag::Image,
        RawTag::Other => MarkdownTag::Other,
    }
}

/// One parser event as the library's event.
fn event_of(e: MdEvent) -> MarkdownEvent {
    match raw_event(e) {
        RawEvent::Start(t) => MarkdownEvent::Start(tag_of(t)),
        RawEvent::End(t) => MarkdownEvent::End(tag_end_of(t)),
        RawEvent::Text(s) => MarkdownEvent::Text(cow_text(&s)),
        RawEvent::Code(s) => MarkdownEvent::Code(cow_text(&s)),
        RawEvent::InlineMath(s) => MarkdownEvent::Literal(cow_text(&s)),
        RawEvent::DisplayMath(s) => MarkdownEvent::Literal(cow_text(&s)),
        RawEvent::Html(s) => MarkdownEvent::Literal(cow_text(&s)),
        RawEvent::InlineHtml(s) => MarkdownEvent::Literal(cow_text(&s)),
        RawEvent::FootnoteReference(s) => MarkdownEvent::Literal(cow_text(&s)),
        RawEvent::SoftBreak => MarkdownEvent::SoftBreak,
        RawEvent::HardBreak => MarkdownEvent::HardBreak,
        RawEvent::Rule => MarkdownEvent::Rule,
        RawEvent::TaskListMarker(b) => MarkdownEvent::TaskListMarker(b),
    }
}

/// The events of a Markdown text, as `markdown_events` gives them.
pub uninterp spec fn markdown_events_of(source: Seq<char>) -> Seq<MarkdownEvent>;

/// `pulldown_cmark::Parser::new_ext` with tables, strikethrough and task
/// lists enabled, over the whole text at once (so reference links resolve
/// across blocks), each event turned into the library's by `event_of`. The
/// contract names the result; it states nothing of which events come out.
#[verifier::external_body]
pub(crate) fn markdown_events(source: &str) -> (evs: Vec<MarkdownEvent>)
    ensures
        evs@ == markdown_events_of(source@),
{
    let options = pulldown_cmark::Options::ENABLE_TABLES | pulldown_cmark::Options::ENABLE_STRIKETHROUGH
        | pulldown_cmark::Options::ENABLE_TASKLISTS;
    pulldown_cmark::Parser::new_ext(source, options).map(|e| event_of(e)).collect()
}

/// The blocks of a Markdown text: its parsed events split into top-level
/// blocks, each rendered, as `blocks` does. Whatever the text holds, no
/// rendered segment or hanging indent holds a control character.
pub fn markdown_blocks(source: &str) -> (r: Vec<Result<Block, String>>)
    ensures
        blocks_view(r@) == blocks_from(markdown_events_of(source@), 0),
        forall|k: int|
            0 <= k < r@.len() ==> (#[trigger] blocks_view(r@)[k] matches Ok(lines) ==> lines_clean(lines)),
{
    let evs = markdown_events(source);
    proof {
        lemma_blocks_hold_no_controls(evs@, 0);
    }
    let assets = SyntaxAssets::load();
    blocks(&evs, &assets)
}

} // verus!
