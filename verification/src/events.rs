//! The closed event model the pipeline works on.
//!
//! A Markdown tokenizer runs outside this crate and its output is brought
//! over into these variants. Events the pipeline never inspects are carried
//! as `Other` with the index they had in the tokenizer's own stream, so a
//! caller can map them back after the pipeline is done.

use vstd::prelude::*;

verus! {

/// How the tokenizer classified a link occurrence.
#[derive(Clone, Copy, PartialEq, Eq, Structural, Debug)]
pub enum LinkKind {
    Inline,
    Reference,
    ReferenceUnknown,
    Collapsed,
    CollapsedUnknown,
    Shortcut,
    ShortcutUnknown,
    Autolink,
    Email,
}

/// A structural tag the pipeline cares about. `Other` carries the index of
/// the tokenizer event it came from.
#[derive(Debug)]
pub enum Tag {
    Paragraph,
    Heading(u32),
    /// The fence info string of a fenced block, if any.
    CodeBlock(Option<String>),
    /// Kind, destination URL, title.
    Link(LinkKind, String, String),
    Other(usize),
}

/// One unit of the tokenizer's linear output. `Other` carries the index of
/// the tokenizer event it came from.
#[derive(Debug)]
pub enum Event {
    Text(String),
    Code(String),
    Html(String),
    Start(Tag),
    End(Tag),
    Other(usize),
}

fn clone_opt_string(o: &Option<String>) -> (r: Option<String>)
    ensures
        r == *o,
{
    match o {
        Some(s) => Some(s.clone()),
        None => None,
    }
}

impl Clone for Tag {
    /// An equal tag.
    fn clone(&self) -> (r: Self)
        ensures
            r == *self,
    {
        match self {
            Tag::Paragraph => Tag::Paragraph,
            Tag::Heading(l) => Tag::Heading(*l),
            Tag::CodeBlock(info) => Tag::CodeBlock(clone_opt_string(info)),
            Tag::Link(k, url, title) => Tag::Link(*k, url.clone(), title.clone()),
            Tag::Other(i) => Tag::Other(*i),
        }
    }
}

impl Clone for Event {
    /// An equal event.
    fn clone(&self) -> (r: Self)
        ensures
            r == *self,
    {
        match self {
            Event::Text(s) => Event::Text(s.clone()),
            Event::Code(s) => Event::Code(s.clone()),
            Event::Html(s) => Event::Html(s.clone()),
            Event::Start(t) => Event::Start(t.clone()),
            Event::End(t) => Event::End(t.clone()),
            Event::Other(i) => Event::Other(*i),
        }
    }
}

/// An event together with the byte span of the source it came from.
#[derive(Debug)]
pub struct SpannedEvent {
    pub event: Event,
    /// Byte offset of the first source byte this event covers.
    pub start: usize,
    /// Byte offset one past the last source byte this event covers.
    pub end: usize,
}

impl Event {
    /// Whether this event opens a heading.
    pub open spec fn is_start_heading(self) -> bool {
        match self {
            Event::Start(Tag::Heading(_)) => true,
            _ => false,
        }
    }

    /// Whether this event closes a heading.
    pub open spec fn is_end_heading(self) -> bool {
        match self {
            Event::End(Tag::Heading(_)) => true,
            _ => false,
        }
    }

    /// The heading level of a heading-opening event.
    pub open spec fn heading_level(self) -> u32
        recommends
            self.is_start_heading(),
    {
        match self {
            Event::Start(Tag::Heading(l)) => l,
            _ => 0,
        }
    }

    /// Whether this is a text or raw-markup event whose payload is empty.
    pub open spec fn is_empty_text(self) -> bool {
        match self {
            Event::Text(s) => s@.len() == 0,
            Event::Html(s) => s@.len() == 0,
            _ => false,
        }
    }
}

} // verus!
