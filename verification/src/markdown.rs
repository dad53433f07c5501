//! The event-stream transformer: one forward pass over the tokenizer's
//! events that splices macro output, classifies and rewrites links,
//! dispatches code blocks to the highlighter and spots the summary marker;
//! then the structural passes (sections, heading ids, anchors) over the
//! buffered stream.
//!
//! The tokenizer and the serializer live outside this crate: the pipeline
//! takes the tokenized events and hands back the transformed events; the
//! caller serializes them and closes the render with `into_rendered`.

use vstd::prelude::*;

use crate::errors::RenderError;
use crate::events::{Event, LinkKind, SpannedEvent, Tag};
use crate::headings::{
    anchor_candidate, ends_count, find_anchor, get_heading_refs, get_text, headings_well_formed,
    starts_count, text_of, HeadingRef,
};
use crate::strutil::spec_contains_str;
use crate::highlighting::{
    get_highlighter, has_plain_text_syntax, highlight_fragment, theme_available,
    HighlightRegistries, SyntaxSource,
};
use crate::links::{
    first_hash, fix_link, hash_split_point, is_external_link, lemma_hash_split_unique,
    spec_is_external, spec_resolved, strip_internal_marker, PermalinkTable,
};
use crate::markup::{Markdown, SectionTagsMode};
use crate::sections::{make_flat_sections, make_hierarchical_sections};
use crate::shortcode::{interpolate_fragment, Shortcode};
use crate::strutil::{find_bytes, find_substring, has_byte_sub, has_prefix, has_substring, u64_dec};
use vstd::pervasive::VecAdditionalExecFns;
use vstd::string::{StrSliceExecFns, StringSliceAdditionalSpecFns};
use crate::templates::render_anchor_link;
use crate::toc::{make_table_of_contents, Heading};

verus! {

/// Where the anchor-link fragment is placed in a heading, if at all.
#[derive(Clone, Copy, PartialEq, Eq, Structural, Debug)]
pub enum InsertAnchor {
    Left,
    Right,
    Off,
}

/// Everything one render call reads: the template engine, the options, the
/// site's permalink table, the current document, and the highlight
/// registries. Read-only for the pipeline.
pub struct RenderContext<'a> {
    pub tera: &'a tera::Tera,
    pub config: Markdown,
    pub permalinks: PermalinkTable,
    pub current_page_path: Option<String>,
    pub current_page_permalink: String,
    pub lang: String,
    pub insert_anchor: InsertAnchor,
    pub registries: &'a HighlightRegistries,
}

/// The render call's complete output.
#[derive(Debug)]
pub struct Rendered {
    pub body: String,
    pub summary_len: Option<usize>,
    pub toc: Vec<Heading>,
    /// Links to site-local pages: relative path plus optional anchor target.
    pub internal_links: Vec<(String, Option<String>)>,
    /// Outgoing links to external webpages (i.e. HTTP(S) targets).
    pub external_links: Vec<String>,
}

/// What the pipeline itself produces: the transformed event stream and the
/// side collections. The serialized body and the summary offset are added
/// by `into_rendered` once a serializer has run.
pub struct RenderedEvents {
    pub events: Vec<Event>,
    pub toc: Vec<Heading>,
    pub internal_links: Vec<(String, Option<String>)>,
    pub external_links: Vec<String>,
    pub has_summary: bool,
}

#[verifier::external_type_specification]
#[verifier::external_body]
pub struct ExReplacer(gh_emoji::Replacer);

/// What emoji substitution turns a text into; a function of the text alone,
/// since the alias table is built into the crate.
pub uninterp spec fn emoji_of(s: Seq<char>) -> Seq<char>;

/// Relies on gh_emoji::Replacer::new: a replacer over the built-in table.
#[verifier::external_body]
fn emoji_replacer_new() -> gh_emoji::Replacer {
    gh_emoji::Replacer::new()
}

/// Relies on gh_emoji::Replacer::replace_all: substitutes `:alias:`
/// occurrences; deterministic in the text.
#[verifier::external_body]
fn replace_emoji(r: &gh_emoji::Replacer, s: &str) -> (out: String)
    ensures
        out@ == emoji_of(s@),
{
    r.replace_all(s).into_owned()
}

/// What escaping a URL for an href position yields; a function of the URL
/// alone.
pub uninterp spec fn href_escaped(s: Seq<char>) -> Seq<char>;

/// Relies on pulldown_cmark::escape::escape_href: percent-escapes the
/// characters that cannot stand in an href; writing into a String cannot
/// fail.
#[verifier::external_body]
fn escape_href_str(s: &str) -> (r: String)
    ensures
        r@ == href_escaped(s@),
{
    let mut out = String::new();
    let _ = pulldown_cmark::escape::escape_href(&mut out, s);
    out
}

/// Whether this event is an inventoried external link: a link start with a
/// non-empty target that is no email, no internal reference, and carries an
/// HTTP(S) scheme.
pub open spec fn collects_external(e: Event) -> bool {
    match e {
        Event::Start(Tag::Link(k, url, _)) => k != LinkKind::Email && url@.len() > 0 && !has_prefix(
            url@,
            "@/"@,
        ) && spec_is_external(url@),
        _ => false,
    }
}

/// The external-link inventory of the stream, in order.
pub open spec fn collect_external(s: Seq<SpannedEvent>) -> Seq<Seq<char>>
    decreases s.len(),
{
    if s.len() == 0 {
        Seq::empty()
    } else {
        collect_external(s.drop_last()) + (match s.last().event {
            Event::Start(Tag::Link(k, url, _)) => if collects_external(s.last().event) {
                seq![url@]
            } else {
                Seq::empty()
            },
            _ => Seq::empty(),
        })
    }
}

/// What one event adds to the internal-link inventory.
pub open spec fn internal_contrib(
    e: Event,
    entries: Seq<(String, String)>,
    cur_path: Option<Seq<char>>,
) -> Seq<(Seq<char>, Option<Seq<char>>)> {
    match e {
        Event::Start(Tag::Link(k, url, _)) => if k != LinkKind::Email && url@.len() > 0 {
            if has_prefix(url@, "@/"@) {
                match spec_resolved(url@, entries) {
                    Some((path, anchor, _)) => seq![(path, anchor)],
                    None => Seq::empty(),
                }
            } else if !spec_is_external(url@) && has_prefix(url@, "#"@) {
                match cur_path {
                    Some(p) => seq![(p, Some(url@.skip(1)))],
                    None => Seq::empty(),
                }
            } else {
                Seq::empty()
            }
        } else {
            Seq::empty()
        },
        _ => Seq::empty(),
    }
}

/// The internal-link inventory of the stream, in order.
pub open spec fn collect_internal(
    s: Seq<SpannedEvent>,
    entries: Seq<(String, String)>,
    cur_path: Option<Seq<char>>,
) -> Seq<(Seq<char>, Option<Seq<char>>)>
    decreases s.len(),
{
    if s.len() == 0 {
        Seq::empty()
    } else {
        collect_internal(s.drop_last(), entries, cur_path) + internal_contrib(
            s.last().event,
            entries,
            cur_path,
        )
    }
}

/// Whether the stream carries the summary marker in a raw-markup event.
pub open spec fn summary_in(s: Seq<SpannedEvent>) -> bool {
    exists|k: int|
        0 <= k < s.len() && ((#[trigger] s[k]).event matches Event::Html(t) && has_substring(
            t@,
            "<!-- more -->"@,
        ))
}

/// Whether some link event of the stream carries an empty target.
pub open spec fn has_empty_link(s: Seq<SpannedEvent>) -> bool {
    exists|k: int|
        0 <= k < s.len() && ((#[trigger] s[k]).event matches Event::Start(Tag::Link(_, url, _))
            && url@.len() == 0)
}

/// Whether every internal reference of the stream resolves against the
/// table.
pub open spec fn all_internal_resolve(s: Seq<SpannedEvent>, entries: Seq<(String, String)>) -> bool {
    forall|k: int|
        0 <= k < s.len() ==> match (#[trigger] s[k]).event {
            Event::Start(Tag::Link(kind, url, _)) => (kind != LinkKind::Email && url@.len() > 0
                && has_prefix(url@, "@/"@)) ==> spec_resolved(url@, entries) is Some,
            _ => true,
        }
}

/// The views of a string list.
pub open spec fn views_of_strs(v: Seq<String>) -> Seq<Seq<char>> {
    v.map_values(|s: String| s@)
}

/// The views of an internal-link list.
pub open spec fn views_of_links(v: Seq<(String, Option<String>)>) -> Seq<
    (Seq<char>, Option<Seq<char>>),
> {
    v.map_values(
        |p: (String, Option<String>)|
            (
                p.0@,
                match p.1 {
                    Some(s) => Some(s@),
                    None => None,
                },
            ),
    )
}

/// An event the single pass hands through untouched when no macro call, no
/// emoji pass and no section wrapping is active: ordinary non-empty text,
/// inline code, raw markup without the summary marker, paragraph bounds,
/// and anything the pipeline does not read.
pub open spec fn passthrough_event(e: Event) -> bool {
    match e {
        Event::Text(s) => s@.len() > 0,
        Event::Code(_) => true,
        Event::Html(s) => s@.len() > 0 && !has_substring(s@, "<!-- more -->"@),
        Event::Other(_) => true,
        Event::Start(t) => match t {
            Tag::Paragraph => true,
            Tag::Other(_) => true,
            _ => false,
        },
        Event::End(t) => match t {
            Tag::Paragraph => true,
            Tag::Other(_) => true,
            _ => false,
        },
    }
}

/// A document the pipeline must hand through unchanged: no headings, no
/// links, no code blocks, no summary marker, no empty fragments, and the
/// emoji and section options off.
pub open spec fn plain_input(s: Seq<SpannedEvent>, config: Markdown) -> bool {
    &&& !config.render_emoji
    &&& config.render_with_section_tags is None
    &&& forall|k: int| 0 <= k < s.len() ==> passthrough_event((#[trigger] s[k]).event)
}

/// `i` and `j` bound the whitespace-trimmed middle of `bytes[rs..re)`.
pub open spec fn trim_points(bytes: Seq<u8>, rs: int, re: int, i: int, j: int) -> bool {
    &&& rs <= i <= j <= re
    &&& forall|t: int| rs <= t < i ==> is_ws_byte(#[trigger] bytes[t])
    &&& forall|t: int| j <= t < re ==> is_ws_byte(#[trigger] bytes[t])
    &&& (i == j || (!is_ws_byte(bytes[i]) && !is_ws_byte(bytes[j - 1])))
}

/// Whether a byte is ASCII whitespace. The paragraph match trims only
/// these; a paragraph padded with a multi-byte whitespace character is not
/// matched to its macro call.
pub open spec fn is_ws_byte(b: u8) -> bool {
    b == 32 || b == 9 || b == 10 || b == 13
}

/// Whether the paragraph spanning `[rs, re)` is exactly the next macro
/// call, up to surrounding whitespace: the call starts where the paragraph
/// starts and is as long as the paragraph's trimmed extent.
pub open spec fn paragraph_is_shortcode(
    bytes: Seq<u8>,
    rs: int,
    re: int,
    ss: int,
    se: int,
) -> bool {
    &&& ss == rs
    &&& 0 <= rs <= re <= bytes.len()
    &&& ss <= se
    &&& exists|i: int, j: int| #[trigger] trim_points(bytes, rs, re, i, j) && se - ss == j - i
}

proof fn lemma_trim_unique(b: Seq<u8>, rs: int, re: int, i1: int, j1: int, i2: int, j2: int)
    requires
        trim_points(b, rs, re, i1, j1),
        trim_points(b, rs, re, i2, j2),
    ensures
        j1 - i1 == j2 - i2,
{
    if i1 == j1 && i2 == j2 {
    } else if i1 < j1 && i2 < j2 {
        if i1 < i2 {
            assert(is_ws_byte(b[i1]));
            assert(!is_ws_byte(b[i1]));
        } else if i2 < i1 {
            assert(is_ws_byte(b[i2]));
            assert(!is_ws_byte(b[i2]));
        }
        if j1 < j2 {
            assert(is_ws_byte(b[j2 - 1]));
            assert(!is_ws_byte(b[j2 - 1]));
        } else if j2 < j1 {
            assert(is_ws_byte(b[j1 - 1]));
            assert(!is_ws_byte(b[j1 - 1]));
        }
    } else if i1 < j1 {
        assert(is_ws_byte(b[i1]));
        assert(!is_ws_byte(b[i1]));
    } else {
        assert(is_ws_byte(b[i2]));
        assert(!is_ws_byte(b[i2]));
    }
}

fn exec_is_ws(b: u8) -> (r: bool)
    ensures
        r == is_ws_byte(b),
{
    b == 32 || b == 9 || b == 10 || b == 13
}

/// Decides whether the paragraph over `[rs, re)` of the source is exactly
/// the next pending call's span, whitespace-trimmed.
fn paragraph_covers(content: &str, rs: usize, re: usize, sc: &Shortcode) -> (r: bool)
    ensures
        r == paragraph_is_shortcode(
            content.spec_bytes(),
            rs as int,
            re as int,
            sc.span_start as int,
            sc.span_end as int,
        ),
{
    if sc.span_start != rs || sc.span_end < sc.span_start {
        return false;
    }
    let bytes = content.as_bytes_vec();
    if !(rs <= re && re <= bytes.len()) {
        return false;
    }
    let mut i: usize = rs;
    while i < re && exec_is_ws(bytes[i])
        invariant
            rs <= i <= re <= bytes@.len(),
            forall|t: int| rs <= t < i ==> is_ws_byte(#[trigger] bytes@[t]),
        decreases re - i,
    {
        i += 1;
    }
    let mut j: usize = re;
    while j > i && exec_is_ws(bytes[j - 1])
        invariant
            rs <= i <= j <= re <= bytes@.len(),
            forall|t: int| rs <= t < i ==> is_ws_byte(#[trigger] bytes@[t]),
            forall|t: int| j <= t < re ==> is_ws_byte(#[trigger] bytes@[t]),
        decreases j,
    {
        j -= 1;
    }
    proof {
        assert(trim_points(content.spec_bytes(), rs as int, re as int, i as int, j as int));
        assert forall|i2: int, j2: int|
            #[trigger] trim_points(content.spec_bytes(), rs as int, re as int, i2, j2) implies j2
            - i2 == j - i by {
            lemma_trim_unique(content.spec_bytes(), rs as int, re as int, i as int, j as int, i2, j2);
        }
    }
    let trimmed = j - i;
    let span_len = sc.span_end - sc.span_start;
        span_len == trimmed
}

/// `i` is where the fence info splits off the language token: the first
/// comma or space, or the end.
pub open spec fn fence_split_point(s: Seq<char>, i: int) -> bool {
    &&& 0 <= i <= s.len()
    &&& forall|t: int| 0 <= t < i ==> (#[trigger] s[t]) != ',' && s[t] != ' '
    &&& i == s.len() || s[i] == ',' || s[i] == ' '
}

/// The language token of a fence info string: everything before the first
/// comma or space; none when that is empty.
fn fence_language(info: &str) -> (r: Option<String>)
    ensures
        match r {
            Some(l) => l@.len() > 0 && exists|i: int|
                #![auto]
                fence_split_point(info@, i) && l@ == info@.take(i),
            None => fence_split_point(info@, 0),
        },
{
    let len = info.unicode_len();
    let mut i: usize = 0;
    while i < len
        invariant
            len == info@.len(),
            i <= len,
            forall|t: int| 0 <= t < i ==> (#[trigger] info@[t]) != ',' && info@[t] != ' ',
        decreases len - i,
    {
        let c = info.get_char(i);
        if c == ',' || c == ' ' {
            if i == 0 {
                return None;
            }
            let l = info.substring_char(0, i).to_owned();
            proof {
                assert(fence_split_point(info@, i as int));
                assert(l@ =~= info@.take(i as int));
            }
            return Some(l);
        }
        i += 1;
    }
    if len == 0 {
        return None;
    }
    let l = info.substring_char(0, len).to_owned();
    proof {
        assert(fence_split_point(info@, len as int));
        assert(l@ =~= info@.take(len as int));
    }
    Some(l)
}

/// The events that stay after the cleanup filter: everything but text and
/// raw-markup events whose payload became empty.
pub open spec fn nonempty_kept(s: Seq<Event>) -> Seq<Event> {
    s.filter(|e: Event| !e.is_empty_text())
}

proof fn lemma_nonempty_push(s: Seq<Event>, e: Event)
    ensures
        nonempty_kept(s.push(e)) == if !e.is_empty_text() {
            nonempty_kept(s).push(e)
        } else {
            nonempty_kept(s)
        },
{
    reveal_with_fuel(Seq::filter, 2);
    assert(s.push(e).drop_last() =~= s);
    assert(s.push(e).last() == e);
}

proof fn lemma_nonempty_identity(s: Seq<Event>)
    requires
        forall|k: int| 0 <= k < s.len() ==> !(#[trigger] s[k]).is_empty_text(),
    ensures
        nonempty_kept(s) == s,
    decreases s.len(),
{
    reveal_with_fuel(Seq::filter, 2);
    if s.len() > 0 {
        lemma_nonempty_identity(s.drop_last());
        assert(s.drop_last().push(s.last()) =~= s);
        lemma_nonempty_push(s.drop_last(), s.last());
    }
}

/// Removes the text and raw-markup events whose payload became empty while
/// splicing.
fn drop_empty(events: &mut Vec<Event>)
    ensures
        final(events)@ == nonempty_kept(old(events)@),
{
    let n = events.len();
    let mut out: Vec<Event> = Vec::new();
    let mut i: usize = 0;
    proof {
        assert(events@.take(0) =~= Seq::<Event>::empty());
        assert(nonempty_kept(Seq::<Event>::empty()) =~= Seq::<Event>::empty());
    }
    while i < n
        invariant
            n == events@.len(),
            i <= n,
            out@ == nonempty_kept(events@.take(i as int)),
        decreases n - i,
    {
        proof {
            assert(events@.take(i as int + 1) =~= events@.take(i as int).push(events@[i as int]));
            lemma_nonempty_push(events@.take(i as int), events@[i as int]);
        }
        let keep = match &events[i] {
            Event::Text(s) => !s.as_str().is_empty(),
            Event::Html(s) => !s.as_str().is_empty(),
            _ => true,
        };
        if keep {
            out.push(events[i].clone());
        }
        i += 1;
    }
    proof {
        assert(events@.take(n as int) =~= events@);
    }
    *events = out;
}

/// Decides whether headings open and close strictly in turn in the
/// buffered stream.
fn headings_balanced(events: &Vec<Event>) -> (r: bool)
    ensures
        r == headings_well_formed(events@),
{
    let n = events.len();
    let mut depth: usize = 0;
    let mut i: usize = 0;
    proof {
        assert(events@.take(0) =~= Seq::<Event>::empty());
    }
    while i < n
        invariant
            n == events@.len(),
            i <= n,
            depth <= 1,
            depth as int == starts_count(events@.take(i as int)) - ends_count(
                events@.take(i as int),
            ),
            forall|j: int|
                0 <= j < i && (#[trigger] events@[j]).is_start_heading() ==> starts_count(
                    events@.take(j),
                ) == ends_count(events@.take(j)),
            forall|j: int|
                0 <= j < i && (#[trigger] events@[j]).is_end_heading() ==> starts_count(
                    events@.take(j),
                ) == ends_count(events@.take(j)) + 1,
        decreases n - i,
    {
        proof {
            assert(events@.take(i as int + 1).drop_last() =~= events@.take(i as int));
            assert(events@.take(i as int + 1).last() == events@[i as int]);
        }
        let kind: usize = match &events[i] {
            Event::Start(Tag::Heading(_)) => 1,
            Event::End(Tag::Heading(_)) => 2,
            _ => 0,
        };
        if kind == 1 {
            if depth != 0 {
                proof {
                    assert(!headings_well_formed(events@)) by {
                        assert(events@.take(i as int) == events@.take(i as int));
                    }
                }
                return false;
            }
            depth = 1;
        } else if kind == 2 {
            if depth != 1 {
                proof {
                    assert(!headings_well_formed(events@)) by {
                        assert(events@.take(i as int) == events@.take(i as int));
                    }
                }
                return false;
            }
            depth = 0;
        }
        i += 1;
    }
    proof {
        assert(events@.take(n as int) =~= events@);
    }
    if depth == 0 {
        proof {
            assert forall|j: int|
                0 <= j < events@.len() && (#[trigger] events@[j]).is_start_heading() implies
                starts_count(events@.take(j)) == ends_count(events@.take(j)) by {}
            assert forall|j: int|
                0 <= j < events@.len() && (#[trigger] events@[j]).is_end_heading() implies
                starts_count(events@.take(j)) == ends_count(events@.take(j)) + 1 by {}
        }
        true
    } else {
        false
    }
}

/// `i` is where the first explicit-id opener `{#` stands in `t`.
pub open spec fn brace_point(t: Seq<char>, i: int) -> bool {
    &&& 0 <= i && i + 2 <= t.len()
    &&& t.subrange(i, i + 2) == "{#"@
    &&& forall|j: int| 0 <= j < i ==> #[trigger] t.subrange(j, j + 2) != "{#"@
}

/// `j` is where the visible text is cut when the marker at `i` is
/// stripped: back from the opener over the run of trailing spaces.
pub open spec fn strip_point(t: Seq<char>, i: int, j: int) -> bool {
    &&& 0 <= j <= i <= t.len()
    &&& forall|m: int| j <= m < i ==> t[m] == ' '
    &&& j == 0 || t[j - 1] != ' '
}

/// Whether a heading's trailing text carries a manual `{#…}` id: it ends
/// in `}` and holds the `{#` opener.
pub open spec fn has_explicit_marker(t: Seq<char>) -> bool {
    t.len() > 0 && t.last() == '}' && exists|i: int| #[trigger] brace_point(t, i)
}

/// What one heading's trailing text event must have become after the
/// explicit-id pass: the marker's id recorded and the text cut before it,
/// or both left exactly as they were.
pub open spec fn explicit_id_outcome(
    old_ev: Event,
    new_ev: Event,
    new_id: Option<String>,
) -> bool {
    match old_ev {
        Event::Text(t) => if has_explicit_marker(t@) {
            exists|i: int, j: int|
                {
                    &&& #[trigger] brace_point(t@, i)
                    &&& #[trigger] strip_point(t@, i, j)
                    &&& new_id matches Some(id) && id@ == t@.subrange(i + 2, t@.len() - 1)
                    &&& new_ev matches Event::Text(t2) && t2@ == t@.take(j)
                }
        } else {
            new_id is None && new_ev == old_ev
        },
        _ => new_id is None && new_ev == old_ev,
    }
}

/// The first structural heading pass: a heading whose trailing text ends in
/// a `{#…}` marker gets that literal id, the marker and the spaces before
/// it are stripped from the visible text, and the id is reserved so that
/// generated ids never collide with it. Headings without a marker, and
/// every event that is not a heading's trailing text, are left exactly as
/// they were.
pub fn extract_explicit_ids(
    events: &mut Vec<Event>,
    refs: &mut Vec<HeadingRef>,
    inserted_anchors: &mut Vec<String>,
)
    requires
        forall|k: int|
            0 <= k < old(refs)@.len() ==> (#[trigger] old(refs)@[k]).start_idx < old(refs)@[k].end_idx
                < old(events)@.len(),
        forall|k: int| 0 <= k < old(refs)@.len() ==> (#[trigger] old(refs)@[k]).id is None,
        forall|k1: int, k2: int|
            0 <= k1 < k2 < old(refs)@.len() ==> (#[trigger] old(refs)@[k1]).end_idx < (
            #[trigger] old(refs)@[k2]).end_idx,
    ensures
        final(events)@.len() == old(events)@.len(),
        final(refs)@.len() == old(refs)@.len(),
        forall|k: int|
            0 <= k < final(refs)@.len() ==> (#[trigger] final(refs)@[k]).start_idx == old(refs)@[k].start_idx && final(refs)@[k].end_idx == old(refs)@[k].end_idx && final(refs)@[k].level == old(refs)@[k].level,
        forall|k: int|
            0 <= k < final(refs)@.len() ==> explicit_id_outcome(
                old(events)@[(#[trigger] old(refs)@[k]).end_idx - 1],
                final(events)@[old(refs)@[k].end_idx - 1],
                final(refs)@[k].id,
            ),
        forall|idx: int|
            #![trigger final(events)@[idx]]
            0 <= idx < old(events)@.len() && (forall|k: int|
                0 <= k < old(refs)@.len() ==> idx + 1 != (#[trigger] old(refs)@[k]).end_idx)
                ==> final(events)@[idx] == old(events)@[idx],
        forall|k: int|
            0 <= k < final(refs)@.len() ==> ((#[trigger] final(refs)@[k]).id matches Some(id)
                ==> crate::strutil::spec_contains_str(final(inserted_anchors)@, id@)),
        forall|t: int|
            0 <= t < old(inserted_anchors)@.len() ==> final(inserted_anchors)@[t] == old(inserted_anchors)@[t],
        old(inserted_anchors)@.len() <= final(inserted_anchors)@.len() <= old(
            inserted_anchors,
        )@.len() + old(refs)@.len(),
        old(refs)@.len() == 0 ==> final(events)@ == old(events)@ && final(inserted_anchors)@
            == old(inserted_anchors)@ && final(refs)@ == old(refs)@,
{
    let n = refs.len();
    let mut k: usize = 0;
    while k < n
        invariant
            n == refs@.len() == old(refs)@.len(),
            k <= n,
            events@.len() == old(events)@.len(),
            forall|t: int|
                0 <= t < n ==> (#[trigger] refs@[t]).start_idx == old(refs)@[t].start_idx
                    && refs@[t].end_idx == old(refs)@[t].end_idx && refs@[t].level == old(refs)@[t].level,
            forall|t: int| k <= t < n ==> (#[trigger] refs@[t]).id is None,
            forall|t: int|
                0 <= t < k ==> explicit_id_outcome(
                    old(events)@[(#[trigger] old(refs)@[t]).end_idx - 1],
                    events@[old(refs)@[t].end_idx - 1],
                    refs@[t].id,
                ),
            forall|idx: int|
                #![trigger events@[idx]]
                0 <= idx < old(events)@.len() && (forall|t: int|
                    0 <= t < k ==> idx + 1 != (#[trigger] old(refs)@[t]).end_idx) ==> events@[idx]
                    == old(events)@[idx],
            forall|t: int|
                0 <= t < n ==> ((#[trigger] refs@[t]).id matches Some(id)
                    ==> crate::strutil::spec_contains_str(inserted_anchors@, id@)),
            forall|t: int|
                0 <= t < old(inserted_anchors)@.len() ==> inserted_anchors@[t] == old(inserted_anchors)@[t],
            old(inserted_anchors)@.len() <= inserted_anchors@.len() <= old(
                inserted_anchors,
            )@.len() + k,
            n == 0 ==> events@ == old(events)@ && inserted_anchors@ == old(inserted_anchors)@
                && refs@ == old(refs)@,
            forall|t: int|
                0 <= t < n ==> (#[trigger] old(refs)@[t]).start_idx < old(refs)@[t].end_idx < old(events)@.len(),
            forall|t1: int, t2: int|
                0 <= t1 < t2 < n ==> (#[trigger] old(refs)@[t1]).end_idx < (
                #[trigger] old(refs)@[t2]).end_idx,
        decreases n - k,
    {
        proof {
            reveal_strlit("{#");
            assert(old(refs)@[k as int].start_idx < old(refs)@[k as int].end_idx < old(events)@.len());
            assert forall|t: int| 0 <= t < k implies (old(refs)@[k as int].end_idx - 1) + 1 != (
            #[trigger] old(refs)@[t]).end_idx by {
                assert(old(refs)@[t].end_idx < old(refs)@[k as int].end_idx);
            }
            assert(events@[old(refs)@[k as int].end_idx - 1] == old(events)@[old(refs)@[k as int].end_idx - 1]);
        }
        let end_idx = refs[k].end_idx;
        let ghost pos = end_idx - 1;
        let found: Option<(String, usize)> = match &events[end_idx - 1] {
            Event::Text(t) => {
                let t_len = t.as_str().unicode_len();
                if t_len > 0 && t.as_str().get_char(t_len - 1) == '}' {
                    match find_substring(t.as_str(), "{#") {
                        Some(i) => {
                            proof {
                                assert forall|j: int| 0 <= j < i implies #[trigger] t@.subrange(
                                    j,
                                    j + 2,
                                ) != "{#"@ by {
                                    assert(t@.subrange(j, j + 2) == t@.subrange(
                                        j,
                                        j + "{#"@.len(),
                                    ));
                                }
                                assert(brace_point(t@, i as int));
                                assert(i + 2 <= t_len - 1) by {
                                    if i + 2 > t_len - 1 {
                                        assert(t@.subrange(i as int, i + 2)[1] == '#');
                                        assert(t@[t_len - 1] == '}');
                                    }
                                }
                            }
                            if t_len >= 3 && i <= t_len - 3 {
                                let id = t.as_str().substring_char(i + 2, t_len - 1).to_owned();
                                let mut j = i;
                                while j > 0 && t.as_str().get_char(j - 1) == ' '
                                    invariant
                                        j <= i,
                                        t_len >= 3,
                                        i <= t_len - 3,
                                        t_len == t@.len(),
                                        forall|m: int| j <= m < i ==> t@[m] == ' ',
                                    decreases j,
                                {
                                    j -= 1;
                                }
                                proof {
                                    assert(strip_point(t@, i as int, j as int));
                                }
                                Some((id, j))
                            } else {
                                None
                            }
                        },
                        None => {
                            proof {
                                assert(!has_explicit_marker(t@)) by {
                                    if has_explicit_marker(t@) {
                                        let i = choose|i: int| #[trigger] brace_point(t@, i);
                                        assert(t@.subrange(i, i + "{#"@.len()) == t@.subrange(
                                            i,
                                            i + 2,
                                        ));
                                        assert(has_substring(t@, "{#"@));
                                    }
                                }
                            }
                            None
                        },
                    }
                } else {
                    proof {
                        assert(!has_explicit_marker(t@));
                    }
                    None
                }
            },
            _ => None,
        };
        let ghost pre_refs = refs@;
        let ghost pre_events = events@;
        match found {
            Some((id, j)) => {
                let new_text: String = match &events[end_idx - 1] {
                    Event::Text(t) => t.as_str().substring_char(0, j).to_owned(),
                    _ => String::new(),
                };
                let ghost pre_anchors = inserted_anchors@;
                inserted_anchors.push(id.clone());
                let start_idx = refs[k].start_idx;
                let level = refs[k].level;
                refs.set(
                    k,
                    HeadingRef { start_idx, end_idx, level, id: Some(id) },
                );
                events.set(end_idx - 1, Event::Text(new_text));
                proof {
                    assert forall|t: int|
                        0 <= t < n implies ((#[trigger] refs@[t]).id matches Some(idt)
                        ==> crate::strutil::spec_contains_str(inserted_anchors@, idt@)) by {
                        if refs@[t].id is Some {
                            let idt = refs@[t].id.unwrap();
                            if t == k {
                                assert(inserted_anchors@[pre_anchors.len() as int]@ == idt@);
                            } else {
                                let w = choose|w: int|
                                    0 <= w < pre_anchors.len() && pre_anchors[w]@ == idt@;
                                assert(inserted_anchors@[w]@ == idt@);
                            }
                        }
                    }
                    assert(explicit_id_outcome(
                        old(events)@[pos as int],
                        events@[pos as int],
                        refs@[k as int].id,
                    ));
                    assert forall|t: int|
                        0 <= t < k implies explicit_id_outcome(
                        old(events)@[(#[trigger] old(refs)@[t]).end_idx - 1],
                        events@[old(refs)@[t].end_idx - 1],
                        refs@[t].id,
                    ) by {
                        assert(old(refs)@[t].end_idx < old(refs)@[k as int].end_idx);
                        assert(events@[old(refs)@[t].end_idx - 1] == pre_events[old(refs)@[t].end_idx - 1]);
                        assert(refs@[t] == pre_refs[t]);
                    }
                }
            },
            None => {
                proof {
                    assert(explicit_id_outcome(
                        old(events)@[pos as int],
                        events@[pos as int],
                        refs@[k as int].id,
                    ));
                }
            },
        }
        k += 1;
    }
}

/// The opening tag written for a resolved heading.
pub open spec fn heading_open_tag(level: u32, id: Seq<char>) -> Seq<char> {
    "<h"@ + crate::strutil::dec_seq(level as nat) + " id=\""@ + id + "\">"@
}

fn build_heading_open_tag(level: u32, id: &str) -> (r: String)
    ensures
        r@ == heading_open_tag(level, id@),
{
    let mut r = "<h".to_owned();
    r.append(u64_dec(level as u64).as_str());
    r.append(" id=\"");
    r.append(id);
    r.append("\">");
    proof {
        assert(r@ =~= heading_open_tag(level, id@));
    }
    r
}

/// How an auto-generated id is chosen from the slug of the title: the
/// slug itself when no id seen so far uses it, else the slug with the
/// smallest unused counter appended, retried against every id seen so far.
pub open spec fn auto_id_choice(anchors_then: Seq<String>, nm: Seq<char>, id: Seq<char>) -> bool {
    ||| (!spec_contains_str(anchors_then, nm) && id == nm)
    ||| (spec_contains_str(anchors_then, nm) && exists|c: int|
        #![auto]
        1 <= c && id == anchor_candidate(nm, c) && (forall|j: int|
            1 <= j < c ==> spec_contains_str(anchors_then, anchor_candidate(nm, j))))
}

/// The second structural heading pass: every heading without a manual id
/// gets one derived from its visible text and kept apart from every id seen
/// so far; the heading's opening event becomes a literal tag carrying the
/// id; the anchor-link fragment is placed left or right of the heading text
/// when asked for; and each heading yields its flat record for the table of
/// contents.
pub fn resolve_headings(
    events: &mut Vec<Event>,
    refs: &Vec<HeadingRef>,
    inserted_anchors: &mut Vec<String>,
    tera: &tera::Tera,
    insert_anchor: InsertAnchor,
    lang: &str,
    current_page_permalink: &str,
) -> (r: Result<Vec<Heading>, RenderError>)
    requires
        forall|k: int|
            0 <= k < refs@.len() ==> (#[trigger] refs@[k]).start_idx < refs@[k].end_idx < old(events)@.len(),
        forall|k1: int, k2: int|
            0 <= k1 < k2 < refs@.len() ==> (#[trigger] refs@[k1]).end_idx < (
            #[trigger] refs@[k2]).start_idx,
        old(inserted_anchors)@.len() + refs@.len() + 4 < usize::MAX,
    ensures
        r matches Err(e) ==> e matches RenderError::AnchorTemplateRender { .. } && !(insert_anchor
            matches InsertAnchor::Off),
        r matches Ok(headings) ==> {
            &&& headings@.len() == refs@.len()
            &&& final(inserted_anchors)@.len() == old(inserted_anchors)@.len() + refs@.len()
            &&& forall|t: int|
                0 <= t < old(inserted_anchors)@.len() ==> final(inserted_anchors)@[t] == old(inserted_anchors)@[t]
            &&& forall|k: int|
                0 <= k < refs@.len() ==> final(inserted_anchors)@[old(inserted_anchors)@.len() + k]@
                    == (#[trigger] headings@[k]).id@
            &&& forall|k: int|
                0 <= k < refs@.len() ==> ((#[trigger] refs@[k]).id matches Some(id) ==> headings@[k].id@
                    == id@)
            &&& forall|k: int|
                0 <= k < refs@.len() ==> ((#[trigger] refs@[k]).id is None ==> forall|j: int|
                    0 <= j < old(inserted_anchors)@.len() + k ==> final(inserted_anchors)@[j]@ != (
                    headings@[k]).id@)
            &&& forall|k: int|
                0 <= k < refs@.len() ==> (#[trigger] headings@[k]).children@.len() == 0
            &&& forall|k: int|
                0 <= k < refs@.len() ==> (#[trigger] headings@[k]).level == refs@[k].level
            &&& forall|k: int|
                0 <= k < refs@.len() ==> (#[trigger] headings@[k]).permalink@
                    == current_page_permalink@ + "#"@ + headings@[k].id@
            &&& forall|k: int|
                0 <= k < refs@.len() ==> (#[trigger] headings@[k]).title@ == text_of(
                    old(events)@.subrange(refs@[k].start_idx + 1, refs@[k].end_idx as int),
                )
            &&& forall|k: int|
                0 <= k < refs@.len() ==> ((#[trigger] refs@[k]).id is None ==> auto_id_choice(
                    final(inserted_anchors)@.take(old(inserted_anchors)@.len() + k),
                    crate::markdown::slug_of(headings@[k].title@),
                    headings@[k].id@,
                ))
            &&& (insert_anchor matches InsertAnchor::Off ==> {
                &&& final(events)@.len() == old(events)@.len()
                &&& forall|k: int|
                    0 <= k < refs@.len() ==> ((#[trigger] final(events)@[refs@[k].start_idx as int]) matches Event::Html(s) && s@ == heading_open_tag(
                        refs@[k].level,
                        headings@[k].id@,
                    ))
                &&& forall|idx: int|
                    #![trigger final(events)@[idx]]
                    0 <= idx < old(events)@.len() && (forall|k: int|
                        0 <= k < refs@.len() ==> idx != (#[trigger] refs@[k]).start_idx)
                        ==> final(events)@[idx] == old(events)@[idx]
            })
        },
        refs@.len() == 0 ==> r is Ok && final(events)@ == old(events)@ && final(inserted_anchors)@
            == old(inserted_anchors)@,
{
    let n = refs.len();
    let ghost anchors0 = inserted_anchors@;
    if n == 0 {
        return Ok(Vec::new());
    }
    // First stage: choose ids, render anchor fragments, record headings.
    let mut headings: Vec<Heading> = Vec::new();
    let mut anchor_frags: Vec<Option<String>> = Vec::new();
    let mut k: usize = 0;
    while k < n
        invariant
            n == refs@.len(),
            k <= n,
            events@ == old(events)@,
            forall|t: int|
                0 <= t < refs@.len() ==> (#[trigger] refs@[t]).start_idx < refs@[t].end_idx
                    < events@.len(),
            anchors0.len() + refs@.len() + 4 < usize::MAX,
            headings@.len() == k,
            anchor_frags@.len() == k,
            inserted_anchors@.len() == anchors0.len() + k,
            forall|t: int| 0 <= t < anchors0.len() ==> inserted_anchors@[t] == anchors0[t],
            forall|t: int|
                0 <= t < k ==> inserted_anchors@[anchors0.len() + t]@ == (
                #[trigger] headings@[t]).id@,
            forall|t: int|
                0 <= t < k ==> ((#[trigger] refs@[t]).id matches Some(id) ==> headings@[t].id@
                    == id@),
            forall|t: int|
                0 <= t < k ==> ((#[trigger] refs@[t]).id is None ==> forall|j: int|
                    0 <= j < anchors0.len() + t ==> inserted_anchors@[j]@ != (headings@[t]).id@),
            forall|t: int| 0 <= t < k ==> (#[trigger] headings@[t]).children@.len() == 0,
            forall|t: int| 0 <= t < k ==> (#[trigger] headings@[t]).level == refs@[t].level,
            forall|t: int|
                0 <= t < k ==> (#[trigger] headings@[t]).permalink@ == current_page_permalink@
                    + "#"@ + headings@[t].id@,
            forall|t: int|
                0 <= t < k ==> (#[trigger] headings@[t]).title@ == text_of(
                    events@.subrange(refs@[t].start_idx + 1, refs@[t].end_idx as int),
                ),
            forall|t: int|
                0 <= t < k ==> ((#[trigger] refs@[t]).id is None ==> auto_id_choice(
                    inserted_anchors@.take(anchors0.len() + t),
                    slug_of(headings@[t].title@),
                    headings@[t].id@,
                )),
        decreases n - k,
    {
        let start_idx = refs[k].start_idx;
        let end_idx = refs[k].end_idx;
        let level = refs[k].level;
        let title = get_text(events, start_idx + 1, end_idx);
        let ghost pre_ins = inserted_anchors@;
        let id: String = match &refs[k].id {
            Some(id) => id.clone(),
            None => {
                let slug = slugify_anchors(title.as_str());
                find_anchor(inserted_anchors, slug, 0)
            },
        };
        proof {
            if refs@[k as int].id is None {
                assert(pre_ins.take(anchors0.len() + k) =~= pre_ins);
                assert(auto_id_choice(
                    pre_ins.take(anchors0.len() + k),
                    slug_of(title@),
                    id@,
                ));
            }
        }
        inserted_anchors.push(id.clone());
        proof {
            assert forall|t: int| 0 <= t <= k implies #[trigger] inserted_anchors@.take(
                anchors0.len() + t,
            ) =~= pre_ins.take(anchors0.len() + t) by {}
        }
        let frag: Option<String> = if !matches!(insert_anchor, InsertAnchor::Off) {
            match render_anchor_link(tera, id.as_str(), level, lang) {
                Ok(f) => Some(f),
                Err(e) => {
                    return Err(e);
                },
            }
        } else {
            Option::None
        };
        anchor_frags.push(frag);
        let mut permalink = current_page_permalink.to_owned();
        permalink.append("#");
        permalink.append(id.as_str());
        proof {
            reveal_strlit("#");
        }
        let h = Heading { level, id, permalink, title, children: Vec::new() };
        headings.push(h);
        k += 1;
    }
    // Second stage: rebuild the stream with the literal opening tags and
    // the queued anchor fragments, indices taken against the vector as it
    // stood before any insertion.
    let m = events.len();
    let mut out: Vec<Event> = Vec::new();
    let mut next: usize = 0;
    let mut i: usize = 0;
    while i < m
        invariant
            m == events@.len(),
            n == refs@.len() == headings@.len() == anchor_frags@.len(),
            i <= m,
            next <= n,
            forall|t: int|
                0 <= t < refs@.len() ==> (#[trigger] refs@[t]).start_idx < refs@[t].end_idx
                    < events@.len(),
            forall|k1: int, k2: int|
                0 <= k1 < k2 < refs@.len() ==> (#[trigger] refs@[k1]).end_idx < (
                #[trigger] refs@[k2]).start_idx,
            next < n ==> i <= refs@[next as int].end_idx,
            forall|t: int| 0 <= t < next ==> (#[trigger] refs@[t]).end_idx < i,
            insert_anchor matches InsertAnchor::Off ==> out@.len() == i,
            insert_anchor matches InsertAnchor::Off ==> forall|t: int|
                0 <= t < refs@.len() && (#[trigger] refs@[t]).start_idx < i ==> (
                out@[refs@[t].start_idx as int] matches Event::Html(s) && s@ == heading_open_tag(
                    refs@[t].level,
                    headings@[t].id@,
                )),
            insert_anchor matches InsertAnchor::Off ==> forall|idx: int|
                #![trigger out@[idx]]
                0 <= idx < i && (forall|t: int|
                    0 <= t < refs@.len() ==> idx != (#[trigger] refs@[t]).start_idx) ==> out@[idx]
                    == events@[idx],
        decreases m - i,
    {
        let at_start = next < n && refs[next].start_idx == i;
        let at_end = next < n && refs[next].end_idx == i;
        proof {
            if !at_start {
                assert forall|t: int| 0 <= t < refs@.len() implies i != (
                #[trigger] refs@[t]).start_idx by {
                    if t < next {
                        assert(refs@[t].end_idx < i);
                    } else if t > next {
                        assert(next < n);
                        assert(refs@[next as int].end_idx < refs@[t].start_idx);
                    }
                }
            }
        }
        if at_start {
            out.push(Event::Html(build_heading_open_tag(refs[next].level, headings[next].id.as_str())));
            if matches!(insert_anchor, InsertAnchor::Left) {
                match &anchor_frags[next] {
                    Some(f) => out.push(Event::Html(f.clone())),
                    None => {},
                }
            }
        } else {
            if at_end {
                if matches!(insert_anchor, InsertAnchor::Right) {
                    match &anchor_frags[next] {
                        Some(f) => out.push(Event::Html(f.clone())),
                        None => {},
                    }
                }
                next += 1;
            }
            out.push(events[i].clone());
        }
        i += 1;
    }
    *events = out;
    Ok(headings)
}

/// What slugification turns a title into; a function of the title alone.
pub uninterp spec fn slug_of(s: Seq<char>) -> Seq<char>;

/// Relies on slug::slugify: lower-cases, transliterates and joins with
/// dashes; deterministic in the text.
#[verifier::external_body]
pub(crate) fn slugify_anchors(s: &str) -> (r: String)
    ensures
        r@ == slug_of(s@),
{
    slug::slugify(s)
}

/// The view of the optional current-document key.
pub open spec fn cur_path_view(o: Option<String>) -> Option<Seq<char>> {
    match o {
        Some(s) => Some(s@),
        None => None,
    }
}

/// The content-rendering core: one forward pass over the tokenized events
/// that splices macro output at exact byte offsets, classifies and rewrites
/// links, routes code-block text to the highlighter and spots the summary
/// marker; then the cleanup filter, the optional section wrapping, and the
/// two heading passes over the buffered stream. The caller serializes the
/// returned events and closes the render with `into_rendered`.
///
/// An empty link target, a broken internal reference and a macro render
/// failure are recorded while the pass finishes; the last one recorded
/// fails the render when the pass is done. A failing anchor-link template
/// aborts at once. On a stream whose heading starts and ends do not
/// alternate cleanly, the heading passes are skipped: the events keep
/// their plain heading tags and the table of contents stays empty.
pub fn markdown_to_html<'a>(
    events_in: &Vec<SpannedEvent>,
    content: &str,
    context: &RenderContext<'a>,
    html_shortcodes: &Vec<Shortcode>,
) -> (r: Result<RenderedEvents, RenderError>)
    requires
        events_in@.len() * 2 + 70000 < usize::MAX,
        context.config.highlight_code ==> theme_available(context.config, *context.registries)
            && has_plain_text_syntax(context.registries.builtin_syntaxes),
    ensures
        r matches Ok(out) ==> views_of_strs(out.external_links@) == collect_external(events_in@),
        r matches Ok(out) ==> views_of_links(out.internal_links@) == collect_internal(
            events_in@,
            context.permalinks.entries@,
            cur_path_view(context.current_page_path),
        ),
        r matches Ok(out) ==> out.has_summary == summary_in(events_in@),
        r matches Ok(out) ==> all_internal_resolve(events_in@, context.permalinks.entries@),
        r is Ok ==> !has_empty_link(events_in@),
        r matches Err(e) ==> match e {
            RenderError::MissingLinkUrl => has_empty_link(events_in@),
            RenderError::BrokenInternalLink(_) => !all_internal_resolve(
                events_in@,
                context.permalinks.entries@,
            ),
            RenderError::ShortcodeRender { .. } => html_shortcodes@.len() > 0,
            RenderError::AnchorTemplateRender { .. } => !(context.insert_anchor
                matches InsertAnchor::Off),
            RenderError::ThemeNotFound { .. } => false,
        },
        html_shortcodes@.len() == 0 && plain_input(events_in@, context.config) ==> match r {
            Ok(out) => out.events@ == events_in@.map_values(|se: SpannedEvent| se.event)
                && out.toc@.len() == 0,
            Err(_) => false,
        },
{
    let ghost entries = context.permalinks.entries@;
    let ghost cpath = cur_path_view(context.current_page_path);
    let ghost plain = html_shortcodes@.len() == 0 && plain_input(events_in@, context.config);
    let tera = context.tera;
    let emoji_replacer: Option<gh_emoji::Replacer> = if context.config.render_emoji {
        Some(emoji_replacer_new())
    } else {
        Option::None
    };
    let mut events: Vec<Event> = Vec::new();
    let mut internal_links: Vec<(String, Option<String>)> = Vec::new();
    let mut external_links: Vec<String> = Vec::new();
    let mut has_summary = false;
    let mut error: Option<RenderError> = Option::None;
    let mut stop_next_end_p = false;
    let mut in_code_block = false;
    let mut highlighter: Option<(syntect::easy::HighlightLines<'a>, SyntaxSource)> = Option::None;
    let mut cursor: usize = 0;
    let n = events_in.len();
    let mut i: usize = 0;
    proof {
        assert(events_in@.take(0) =~= Seq::<SpannedEvent>::empty());
        assert(views_of_strs(external_links@) =~= collect_external(events_in@.take(0)));
        assert(views_of_links(internal_links@) =~= collect_internal(
            events_in@.take(0),
            entries,
            cpath,
        ));
        assert(events@ =~= events_in@.take(0).map_values(|se: SpannedEvent| se.event));
    }
    while i < n
        invariant
            n == events_in@.len(),
            i <= n,
            n * 2 + 70000 < usize::MAX,
            context.config.highlight_code ==> theme_available(context.config, *context.registries)
                && has_plain_text_syntax(context.registries.builtin_syntaxes),
            cursor <= html_shortcodes@.len(),
            views_of_strs(external_links@) == collect_external(events_in@.take(i as int)),
            views_of_links(internal_links@) == collect_internal(
                events_in@.take(i as int),
                entries,
                cpath,
            ),
            has_summary == summary_in(events_in@.take(i as int)),
            error is None ==> all_internal_resolve(events_in@.take(i as int), entries),
            error is None ==> !has_empty_link(events_in@.take(i as int)),
            error matches Some(e) ==> match e {
                RenderError::MissingLinkUrl => has_empty_link(events_in@.take(i as int)),
                RenderError::BrokenInternalLink(_) => !all_internal_resolve(
                    events_in@.take(i as int),
                    entries,
                ),
                RenderError::ShortcodeRender { .. } => html_shortcodes@.len() > 0,
                RenderError::AnchorTemplateRender { .. } => false,
                RenderError::ThemeNotFound { .. } => false,
            },
            highlighter matches Some(hs) ==> (hs.1 matches SyntaxSource::Extra
                ==> context.registries.extra_syntaxes is Some),
            emoji_replacer is Some <==> context.config.render_emoji,
            plain ==> events@ == events_in@.take(i as int).map_values(
                |se: SpannedEvent| se.event,
            ) && error is None && cursor == 0 && !has_summary && !in_code_block
                && !stop_next_end_p,
            entries == context.permalinks.entries@,
            cpath == cur_path_view(context.current_page_path),
            plain == (html_shortcodes@.len() == 0 && plain_input(events_in@, context.config)),
        decreases n - i,
    {
        proof {
            assert(events_in@.take(i as int + 1).drop_last() =~= events_in@.take(i as int));
            assert(events_in@.take(i as int + 1).last() == events_in@[i as int]);
            assert(events_in@.take(i as int + 1).map_values(|se: SpannedEvent| se.event)
                =~= events_in@.take(i as int).map_values(|se: SpannedEvent| se.event).push(
                events_in@[i as int].event,
            ));
            if plain {
                assert(passthrough_event(events_in@[i as int].event));
            }
        }
        let rs = events_in[i].start;
        let re = events_in[i].end;
        let arm: usize = match &events_in[i].event {
            Event::Text(_) => 1,
            Event::Start(Tag::CodeBlock(_)) => 2,
            Event::End(Tag::CodeBlock(_)) => 3,
            Event::Start(Tag::Link(_, _, _)) => 4,
            Event::Start(Tag::Paragraph) => 5,
            Event::End(Tag::Paragraph) => 6,
            Event::Html(_) => 7,
            _ => 0,
        };
        if arm == 1 {
            let text: String = match &events_in[i].event {
                Event::Text(t) => t.clone(),
                _ => String::new(),
            };
            if in_code_block {
                let html_out: Option<String> = match (&mut highlighter, &context.registries) {
                    (Some(hs), regs) => {
                        let src_extra = matches!(hs.1, SyntaxSource::Extra);
                        let ss = if src_extra {
                            regs.extra_syntaxes.as_ref().unwrap()
                        } else {
                            &regs.builtin_syntaxes
                        };
                        match highlight_fragment(&mut hs.0, ss, text.as_str()) {
                            Ok(h) => Some(h),
                            Err(_) => Option::None,
                        }
                    },
                    (Option::None, _) => Option::None,
                };
                match html_out {
                    Some(h) => events.push(Event::Html(h)),
                    Option::None => events.push(Event::Text(text)),
                }
            } else {
                let text2 = match &emoji_replacer {
                    Some(rep) => replace_emoji(&rep, text.as_str()),
                    Option::None => text,
                };
                let ghost t2v = text2;
                match interpolate_fragment(
                    tera,
                    text2,
                    rs,
                    re,
                    html_shortcodes,
                    &mut cursor,
                    false,
                    &mut events,
                ) {
                    Ok(_) => {},
                    Err(e) => {
                        proof {
                            assert(html_shortcodes@.len() > 0);
                        }
                        error = Some(e);
                    },
                }
                proof {
                    if plain {
                        assert(events_in@[i as int].event == Event::Text(t2v));
                        assert(events@ =~= events_in@.take(i as int + 1).map_values(
                            |se: SpannedEvent| se.event,
                        ));
                    }
                }
            }
        } else if arm == 2 {
            in_code_block = true;
            if context.config.highlight_code {
                let lang: Option<String> = match &events_in[i].event {
                    Event::Start(Tag::CodeBlock(Some(info))) => fence_language(info.as_str()),
                    _ => Option::None,
                };
                let hl = match &lang {
                    Some(l) => get_highlighter(
                        Some(l.as_str()),
                        &context.config,
                        context.registries,
                    ),
                    Option::None => get_highlighter(
                        Option::None,
                        &context.config,
                        context.registries,
                    ),
                };
                highlighter = Some(hl);
            }
            events.push(Event::Html("<pre><code>".to_owned()));
        } else if arm == 3 {
            in_code_block = false;
            highlighter = Option::None;
            events.push(Event::Html("</code></pre>\n".to_owned()));
        } else if arm == 4 {
            let (kind, url, title): (LinkKind, String, String) = match &events_in[i].event {
                Event::Start(Tag::Link(k, u, t)) => (*k, u.clone(), t.clone()),
                _ => (LinkKind::Inline, String::new(), String::new()),
            };
            if url.as_str().is_empty() {
                error = Some(RenderError::MissingLinkUrl);
                events.push(Event::Start(Tag::Link(kind, "#".to_owned(), title)));
                proof {
                    assert(has_empty_link(events_in@.take(i as int + 1)));
                }
            } else {
                let ghost pre_internal = internal_links@;
                match fix_link(
                    kind,
                    url.as_str(),
                    &context.permalinks,
                    context.current_page_path.as_ref(),
                    context.current_page_permalink.as_str(),
                    &mut internal_links,
                    &mut external_links,
                ) {
                    Ok(fixed) => {
                        proof {
                            if kind != LinkKind::Email && has_prefix(url@, "@/"@) {
                                let strip = strip_internal_marker(url@);
                                crate::links::lemma_first_hash(strip);
                                assert forall|wj: int|
                                    hash_split_point(strip, wj) implies wj == first_hash(
                                    strip,
                                ) by {
                                    lemma_hash_split_unique(strip, wj);
                                }
                                assert(internal_links@.len() == pre_internal.len() + 1);
                                assert(context.permalinks.spec_get(
                                    strip.take(first_hash(strip)),
                                ) is Some);
                                assert(spec_resolved(url@, entries) is Some);
                            }
                        }
                        if is_external_link(url.as_str())
                            && context.config.has_external_link_tweaks() {
                            let escaped = escape_href_str(url.as_str());
                            events.push(
                                Event::Html(
                                    context.config.construct_external_link_tag(
                                        escaped.as_str(),
                                        title.as_str(),
                                    ),
                                ),
                            );
                        } else {
                            events.push(Event::Start(Tag::Link(kind, fixed, title)));
                        }
                    },
                    Err(e) => {
                        proof {
                            assert(kind != LinkKind::Email && has_prefix(url@, "@/"@));
                            let strip = strip_internal_marker(url@);
                            crate::links::lemma_first_hash(strip);
                            assert forall|wj: int|
                                hash_split_point(strip, wj) implies wj == first_hash(strip) by {
                                lemma_hash_split_unique(strip, wj);
                            }
                            assert(context.permalinks.spec_get(
                                strip.take(first_hash(strip)),
                            ) is None);
                            assert(spec_resolved(url@, entries) is None);
                            assert(!all_internal_resolve(events_in@.take(i as int + 1), entries))
                                by {
                                assert((events_in@.take(i as int + 1)[i as int]).event
                                    == events_in@[i as int].event);
                            }
                        }
                        error = Some(e);
                        events.push(Event::Html(String::new()));
                    },
                }
                proof {
                    assert(views_of_strs(external_links@) =~= collect_external(
                        events_in@.take(i as int + 1),
                    ));
                    assert(views_of_links(internal_links@) =~= collect_internal(
                        events_in@.take(i as int + 1),
                        entries,
                        cpath,
                    ));
                }
            }
        } else if arm == 5 {
            let covered = if cursor < html_shortcodes.len() {
                paragraph_covers(content, rs, re, &html_shortcodes[cursor])
            } else {
                false
            };
            if covered {
                stop_next_end_p = true;
                events.push(Event::Html(String::new()));
            } else {
                events.push(Event::Start(Tag::Paragraph));
            }
        } else if arm == 6 {
            if stop_next_end_p {
                stop_next_end_p = false;
                events.push(Event::Html(String::new()));
            } else {
                events.push(Event::End(Tag::Paragraph));
            }
        } else if arm == 7 {
            let text: String = match &events_in[i].event {
                Event::Html(t) => t.clone(),
                _ => String::new(),
            };
            if find_substring(text.as_str(), "<!-- more -->").is_some() {
                has_summary = true;
                events.push(
                    Event::Html("<span id=\"continue-reading\"></span>".to_owned()),
                );
            } else {
                let ghost t2v = text;
                match interpolate_fragment(
                    tera,
                    text,
                    rs,
                    re,
                    html_shortcodes,
                    &mut cursor,
                    true,
                    &mut events,
                ) {
                    Ok(_) => {},
                    Err(e) => {
                        proof {
                            assert(html_shortcodes@.len() > 0);
                        }
                        error = Some(e);
                    },
                }
                proof {
                    if plain {
                        assert(events_in@[i as int].event == Event::Html(t2v));
                        assert(events@ =~= events_in@.take(i as int + 1).map_values(
                            |se: SpannedEvent| se.event,
                        ));
                    }
                }
            }
        } else {
            events.push(events_in[i].event.clone());
        }
        proof {
            if plain {
                assert(events@ =~= events_in@.take(i as int + 1).map_values(
                    |se: SpannedEvent| se.event,
                ));
            }
            assert(has_empty_link(events_in@.take(i as int)) ==> has_empty_link(
                events_in@.take(i as int + 1),
            )) by {
                if has_empty_link(events_in@.take(i as int)) {
                    let k = choose|k: int|
                        0 <= k < events_in@.take(i as int).len() && ((#[trigger] events_in@.take(
                            i as int,
                        )[k]).event matches Event::Start(Tag::Link(_, url, _)) && url@.len() == 0);
                    assert(events_in@.take(i as int + 1)[k] == events_in@.take(i as int)[k]);
                }
            }
            assert(!all_internal_resolve(events_in@.take(i as int), entries)
                ==> !all_internal_resolve(events_in@.take(i as int + 1), entries)) by {
                if !all_internal_resolve(events_in@.take(i as int), entries) {
                    let k = choose|k: int|
                        0 <= k < events_in@.take(i as int).len() && !(match (
                        #[trigger] events_in@.take(i as int)[k]).event {
                            Event::Start(Tag::Link(kind2, url2, _)) => (kind2 != LinkKind::Email
                                && url2@.len() > 0 && has_prefix(url2@, "@/"@)) ==> spec_resolved(
                                url2@,
                                entries,
                            ) is Some,
                            _ => true,
                        });
                    assert(events_in@.take(i as int + 1)[k] == events_in@.take(i as int)[k]);
                }
            }
            if error is None {
                assert forall|k: int|
                    0 <= k < i + 1 implies !((#[trigger] events_in@.take(i as int + 1)[k]).event
                    matches Event::Start(Tag::Link(_, url, _)) && url@.len() == 0) by {
                    if k < i {
                        assert(events_in@.take(i as int + 1)[k] == events_in@.take(i as int)[k]);
                        assert(!has_empty_link(events_in@.take(i as int)));
                    } else {
                        assert(events_in@.take(i as int + 1)[k] == events_in@[i as int]);
                    }
                }
                assert(!has_empty_link(events_in@.take(i as int + 1)));
                assert forall|k: int| 0 <= k < i + 1 implies match (#[trigger] events_in@.take(
                    i as int + 1,
                )[k]).event {
                    Event::Start(Tag::Link(kind2, url2, _)) => (kind2 != LinkKind::Email
                        && url2@.len() > 0 && has_prefix(url2@, "@/"@)) ==> spec_resolved(
                        url2@,
                        entries,
                    ) is Some,
                    _ => true,
                } by {
                    if k < i {
                        assert(events_in@.take(i as int + 1)[k] == events_in@.take(i as int)[k]);
                        assert(all_internal_resolve(events_in@.take(i as int), entries));
                    } else {
                        assert(events_in@.take(i as int + 1)[k] == events_in@[i as int]);
                    }
                }
                assert(all_internal_resolve(events_in@.take(i as int + 1), entries));
            }
        }
        i += 1;
    }
    proof {
        assert(events_in@.take(n as int) =~= events_in@);
    }
    // Cleanup: drop the text and raw-markup events that became empty while
    // splicing.
    let ghost pre_filter = events@;
    drop_empty(&mut events);
    proof {
        if plain {
            assert forall|k: int| 0 <= k < pre_filter.len() implies !(#[trigger] pre_filter[k]).is_empty_text() by {
                assert(pre_filter[k] == events_in@[k].event);
                assert(passthrough_event(events_in@[k].event));
            }
            lemma_nonempty_identity(pre_filter);
        }
    }
    // Optional structural pass before heading bookkeeping.
    match context.config.render_with_section_tags {
        Some(SectionTagsMode::Hierarchical) => make_hierarchical_sections(&mut events),
        Some(SectionTagsMode::Flat) => make_flat_sections(&mut events),
        Option::None => {},
    }
    // The two heading passes over the buffered stream.
    let mut inserted_anchors: Vec<String> = Vec::new();
    let mut toc: Vec<Heading> = Vec::new();
    if headings_balanced(&events) && events.len() <= usize::MAX / 4 {
        let mut refs = get_heading_refs(&events);
        proof {
            if plain {
                assert forall|k: int|
                    0 <= k < events@.len() implies !(#[trigger] events@[k]).is_start_heading()
                    && !events@[k].is_end_heading() by {
                    assert(events@[k] == events_in@[k].event);
                    assert(passthrough_event(events_in@[k].event));
                }
                lemma_no_heading_starts(events@);
            }
            lemma_starts_count_bound(events@);
        }
        extract_explicit_ids(&mut events, &mut refs, &mut inserted_anchors);
        let headings = match resolve_headings(
            &mut events,
            &refs,
            &mut inserted_anchors,
            tera,
            context.insert_anchor,
            context.lang.as_str(),
            context.current_page_permalink.as_str(),
        ) {
            Ok(h) => h,
            Err(e) => {
                return Err(e);
            },
        };
        toc = make_table_of_contents(headings);
    }
    match error {
        Some(e) => Err(e),
        Option::None => Ok(
            RenderedEvents { events, toc, internal_links, external_links, has_summary },
        ),
    }
}

proof fn lemma_starts_count_bound(s: Seq<Event>)
    ensures
        0 <= starts_count(s) <= s.len(),
    decreases s.len(),
{
    if s.len() > 0 {
        lemma_starts_count_bound(s.drop_last());
    }
}

proof fn lemma_no_heading_starts(s: Seq<Event>)
    requires
        forall|k: int|
            0 <= k < s.len() ==> !(#[trigger] s[k]).is_start_heading() && !s[k].is_end_heading(),
    ensures
        starts_count(s) == 0,
        ends_count(s) == 0,
    decreases s.len(),
{
    if s.len() > 0 {
        lemma_no_heading_starts(s.drop_last());
    }
}

/// The byte offset of the summary sentinel in the serialized body, if the
/// sentinel is there: the first byte-exact occurrence of the marker's
/// replacement.
pub fn summary_index(body: &str) -> (r: Option<usize>)
    ensures
        match r {
            Some(i) => i + "<span id=\"continue-reading\"></span>".spec_bytes().len()
                <= body.spec_bytes().len() && body.spec_bytes().subrange(
                i as int,
                i + "<span id=\"continue-reading\"></span>".spec_bytes().len(),
            ) == "<span id=\"continue-reading\"></span>".spec_bytes() && forall|j: int|
                0 <= j < i ==> #[trigger] body.spec_bytes().subrange(
                    j,
                    j + "<span id=\"continue-reading\"></span>".spec_bytes().len(),
                ) != "<span id=\"continue-reading\"></span>".spec_bytes(),
            None => !has_byte_sub(
                body.spec_bytes(),
                "<span id=\"continue-reading\"></span>".spec_bytes(),
            ),
        },
{
    let hay = body.as_bytes_vec();
    let needle = "<span id=\"continue-reading\"></span>".as_bytes_vec();
    find_bytes(&hay, &needle)
}

/// Closes the render once a serializer has produced the body: the summary
/// offset is the sentinel's byte offset in the body when the marker was
/// seen, and absent otherwise.
pub fn into_rendered(out: RenderedEvents, body: String) -> (r: Rendered)
    ensures
        r.toc == out.toc,
        r.internal_links == out.internal_links,
        r.external_links == out.external_links,
        r.body == body,
        !out.has_summary ==> r.summary_len is None,
        out.has_summary ==> (match r.summary_len {
            Some(i) => vstd::utf8::encode_utf8(body@).subrange(
                i as int,
                i + "<span id=\"continue-reading\"></span>".spec_bytes().len(),
            ) == "<span id=\"continue-reading\"></span>".spec_bytes() && forall|j: int|
                0 <= j < i ==> #[trigger] vstd::utf8::encode_utf8(body@).subrange(
                    j,
                    j + "<span id=\"continue-reading\"></span>".spec_bytes().len(),
                ) != "<span id=\"continue-reading\"></span>".spec_bytes(),
            None => !has_byte_sub(
                vstd::utf8::encode_utf8(body@),
                "<span id=\"continue-reading\"></span>".spec_bytes(),
            ),
        }),
{
    let summary_len = if out.has_summary {
        summary_index(body.as_str())
    } else {
        Option::None
    };
    Rendered {
        body,
        summary_len,
        toc: out.toc,
        internal_links: out.internal_links,
        external_links: out.external_links,
    }
}

} // verus!
