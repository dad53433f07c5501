//! The section wrapper: a structural pass that groups headings and their
//! content into `<section>` blocks, either nested by heading level or flat.
//!
//! The pass is specified through the shape of each event: an event is an
//! opening marker, a closing marker, a close-then-open marker, a heading
//! start, or anything else. The wrapped stream is pinned exactly at that
//! level, and the non-marker events are pinned to pass through unchanged.

use vstd::prelude::*;

use crate::events::{Event, Tag};

verus! {

/// The shape of one event, as far as section wrapping cares.
pub enum SectSym {
    /// An opening `<section>` marker.
    Open,
    /// A `</section><section>` marker closing one block and opening the next.
    Reopen,
    /// A closing `</section>` marker.
    Close,
    /// A heading start at the given level.
    Heading(u32),
    /// Anything else.
    Other,
}

/// The shape of `e`.
pub open spec fn sect_sym(e: Event) -> SectSym {
    match e {
        Event::Html(s) => if s@ == "<section>"@ {
            SectSym::Open
        } else if s@ == "</section><section>"@ {
            SectSym::Reopen
        } else if s@ == "</section>"@ {
            SectSym::Close
        } else {
            SectSym::Other
        },
        Event::Start(Tag::Heading(l)) => SectSym::Heading(l),
        _ => SectSym::Other,
    }
}

/// Whether `e` is one of the three section markers.
pub open spec fn is_marker(e: Event) -> bool {
    sect_sym(e) matches SectSym::Open || sect_sym(e) matches SectSym::Reopen || sect_sym(e)
        matches SectSym::Close
}

/// The shapes of a whole stream.
pub open spec fn syms_of(s: Seq<Event>) -> Seq<SectSym> {
    s.map_values(|e: Event| sect_sym(e))
}

/// How many blocks a shape opens.
pub open spec fn sym_opens(s: SectSym) -> int {
    match s {
        SectSym::Open => 1,
        SectSym::Reopen => 1,
        _ => 0,
    }
}

/// How many blocks a shape closes.
pub open spec fn sym_closes(s: SectSym) -> int {
    match s {
        SectSym::Close => 1,
        SectSym::Reopen => 1,
        _ => 0,
    }
}

/// The number of blocks a stream opens.
pub open spec fn opens_count(syms: Seq<SectSym>) -> int
    decreases syms.len(),
{
    if syms.len() == 0 {
        0
    } else {
        sym_opens(syms[0]) + opens_count(syms.drop_first())
    }
}

/// The number of blocks a stream closes.
pub open spec fn closes_count(syms: Seq<SectSym>) -> int
    decreases syms.len(),
{
    if syms.len() == 0 {
        0
    } else {
        sym_closes(syms[0]) + closes_count(syms.drop_first())
    }
}

/// The closing markers written when a heading at `level` arrives over the
/// open levels `stack`: blocks are closed innermost-first until one at
/// `level` has been closed, or every block is closed.
pub open spec fn close_run(stack: Seq<u32>, level: u32) -> (Seq<SectSym>, Seq<u32>)
    decreases stack.len(),
{
    if stack.len() == 0 {
        (Seq::empty(), stack)
    } else if stack.last() == level {
        (seq![SectSym::Close], stack.drop_last())
    } else {
        let r = close_run(stack.drop_last(), level);
        (seq![SectSym::Close] + r.0, r.1)
    }
}

/// What the hierarchical pass writes for one shape, and the open levels it
/// leaves behind.
pub open spec fn hier_step(stack: Seq<u32>, s: SectSym) -> (Seq<SectSym>, Seq<u32>) {
    match s {
        SectSym::Heading(l) => if stack.len() == 0 {
            (seq![SectSym::Open, SectSym::Heading(l)], stack.push(l))
        } else if stack.last() == l {
            (seq![SectSym::Reopen, SectSym::Heading(l)], stack)
        } else if l < stack.last() {
            let c = close_run(stack, l);
            (c.0 + seq![SectSym::Open, SectSym::Heading(l)], c.1.push(l))
        } else {
            (seq![SectSym::Open, SectSym::Heading(l)], stack.push(l))
        },
        _ => (seq![s], stack),
    }
}

/// The hierarchical pass over a whole stream, from the open levels `stack`.
pub open spec fn hier_run(syms: Seq<SectSym>, stack: Seq<u32>) -> (Seq<SectSym>, Seq<u32>)
    decreases syms.len(),
{
    if syms.len() == 0 {
        (Seq::empty(), stack)
    } else {
        let st = hier_step(stack, syms[0]);
        let rest = hier_run(syms.drop_first(), st.1);
        (st.0 + rest.0, rest.1)
    }
}

/// The full hierarchical wrapping: run the pass, then close every block
/// still open.
pub open spec fn spec_hier(syms: Seq<SectSym>) -> Seq<SectSym> {
    let r = hier_run(syms, Seq::empty());
    r.0 + Seq::new(r.1.len(), |i: int| SectSym::Close)
}

/// What the flat pass writes for one shape, and whether a block stays open.
pub open spec fn flat_step(in_section: bool, s: SectSym) -> (Seq<SectSym>, bool) {
    match s {
        SectSym::Heading(_) => if in_section {
            (seq![SectSym::Reopen, s], true)
        } else {
            (seq![SectSym::Open, s], true)
        },
        _ => (seq![s], in_section),
    }
}

/// The flat pass over a whole stream.
pub open spec fn flat_run(syms: Seq<SectSym>, in_section: bool) -> (Seq<SectSym>, bool)
    decreases syms.len(),
{
    if syms.len() == 0 {
        (Seq::empty(), in_section)
    } else {
        let st = flat_step(in_section, syms[0]);
        let rest = flat_run(syms.drop_first(), st.1);
        (st.0 + rest.0, rest.1)
    }
}

/// The full flat wrapping: run the pass, then close the open block if any.
pub open spec fn spec_flat(syms: Seq<SectSym>) -> Seq<SectSym> {
    let r = flat_run(syms, false);
    if r.1 {
        r.0.push(SectSym::Close)
    } else {
        r.0
    }
}

/// The events that are not section markers, in order.
pub open spec fn kept(s: Seq<Event>) -> Seq<Event> {
    s.filter(|e: Event| !is_marker(e))
}

proof fn lemma_kept_push(s: Seq<Event>, e: Event)
    ensures
        kept(s.push(e)) == if !is_marker(e) {
            kept(s).push(e)
        } else {
            kept(s)
        },
{
    reveal_with_fuel(Seq::filter, 2);
    assert(s.push(e).drop_last() =~= s);
    assert(s.push(e).last() == e);
}

proof fn lemma_syms_push(s: Seq<Event>, e: Event)
    ensures
        syms_of(s.push(e)) == syms_of(s).push(sect_sym(e)),
{
    assert(syms_of(s.push(e)) =~= syms_of(s).push(sect_sym(e)));
}

proof fn lemma_stream_push(pre: Seq<Event>, e: Event)
    ensures
        syms_of(pre.push(e)) == syms_of(pre).push(sect_sym(e)),
        kept(pre.push(e)) == if !is_marker(e) {
            kept(pre).push(e)
        } else {
            kept(pre)
        },
{
    lemma_syms_push(pre, e);
    lemma_kept_push(pre, e);
}

proof fn lemma_hier_run_snoc(syms: Seq<SectSym>, stack: Seq<u32>, x: SectSym)
    ensures
        hier_run(syms.push(x), stack).0 == hier_run(syms, stack).0 + hier_step(
            hier_run(syms, stack).1,
            x,
        ).0,
        hier_run(syms.push(x), stack).1 == hier_step(hier_run(syms, stack).1, x).1,
    decreases syms.len(),
{
    reveal_with_fuel(hier_run, 3);
    if syms.len() == 0 {
        assert(syms.push(x)[0] == x);
        assert(syms.push(x).drop_first() =~= Seq::<SectSym>::empty());
        assert(hier_run(syms.push(x), stack).0 =~= hier_step(stack, x).0);
        assert(hier_run(syms, stack).0 + hier_step(stack, x).0 =~= hier_step(stack, x).0);
    } else {
        assert(syms.push(x)[0] == syms[0]);
        assert(syms.push(x).drop_first() =~= syms.drop_first().push(x));
        lemma_hier_run_snoc(syms.drop_first(), hier_step(stack, syms[0]).1, x);
        assert(hier_run(syms.push(x), stack).0 =~= hier_run(syms, stack).0 + hier_step(
            hier_run(syms, stack).1,
            x,
        ).0);
    }
}

proof fn lemma_flat_run_snoc(syms: Seq<SectSym>, b: bool, x: SectSym)
    ensures
        flat_run(syms.push(x), b).0 == flat_run(syms, b).0 + flat_step(flat_run(syms, b).1, x).0,
        flat_run(syms.push(x), b).1 == flat_step(flat_run(syms, b).1, x).1,
    decreases syms.len(),
{
    reveal_with_fuel(flat_run, 3);
    if syms.len() == 0 {
        assert(syms.push(x)[0] == x);
        assert(syms.push(x).drop_first() =~= Seq::<SectSym>::empty());
        assert(flat_run(syms.push(x), b).0 =~= flat_step(b, x).0);
        assert(flat_run(syms, b).0 + flat_step(b, x).0 =~= flat_step(b, x).0);
    } else {
        assert(syms.push(x)[0] == syms[0]);
        assert(syms.push(x).drop_first() =~= syms.drop_first().push(x));
        lemma_flat_run_snoc(syms.drop_first(), flat_step(b, syms[0]).1, x);
        assert(flat_run(syms.push(x), b).0 =~= flat_run(syms, b).0 + flat_step(
            flat_run(syms, b).1,
            x,
        ).0);
    }
}

fn html_open() -> (e: Event)
    ensures
        sect_sym(e) matches SectSym::Open,
        is_marker(e),
{
    Event::Html("<section>".to_owned())
}

fn html_reopen() -> (e: Event)
    ensures
        sect_sym(e) matches SectSym::Reopen,
        is_marker(e),
{
    proof {
        reveal_strlit("<section>");
        reveal_strlit("</section><section>");
        assert("<section>"@.len() == 9);
        assert("</section><section>"@.len() == 19);
        assert("<section>"@ != "</section><section>"@);
    }
    Event::Html("</section><section>".to_owned())
}

fn html_close() -> (e: Event)
    ensures
        sect_sym(e) matches SectSym::Close,
        is_marker(e),
{
    proof {
        reveal_strlit("<section>");
        reveal_strlit("</section><section>");
        reveal_strlit("</section>");
        assert("<section>"@.len() == 9);
        assert("</section><section>"@.len() == 19);
        assert("</section>"@.len() == 10);
        assert("</section>"@ != "<section>"@);
        assert("</section>"@ != "</section><section>"@);
    }
    Event::Html("</section>".to_owned())
}

/// Wraps the stream so that a heading opens a block nested by its level: an
/// equal level closes and reopens, a more significant level first closes the
/// blocks below it, a less significant one nests, and every block still open
/// at the end is closed, innermost first.
pub fn make_hierarchical_sections(events: &mut Vec<Event>)
    ensures
        syms_of(final(events)@) == spec_hier(syms_of(old(events)@)),
        kept(final(events)@) == kept(old(events)@),
{
    let ghost all: Seq<SectSym> = syms_of(events@);
    let n = events.len();
    let mut out: Vec<Event> = Vec::new();
    let mut stack: Vec<u32> = Vec::new();
    let mut i: usize = 0;
    proof {
        assert(events@.take(0) =~= Seq::<Event>::empty());
        assert(syms_of(Seq::<Event>::empty()) =~= Seq::<SectSym>::empty());
        assert(kept(out@) == kept(events@.take(0)));
    }
    while i < n
        invariant
            n == events@.len(),
            i <= n,
            syms_of(out@) == hier_run(syms_of(events@.take(i as int)), Seq::<u32>::empty()).0,
            stack@ == hier_run(syms_of(events@.take(i as int)), Seq::<u32>::empty()).1,
            kept(out@) == kept(events@.take(i as int)),
        decreases n - i,
    {
        let ghost pre_syms = syms_of(events@.take(i as int));
        let ghost pre_stack = stack@;
        let ghost pre_out_syms = syms_of(out@);
        let e = events[i].clone();
        let ghost x = sect_sym(e);
        proof {
            assert(events@.take(i as int + 1) =~= events@.take(i as int).push(events@[i as int]));
            lemma_stream_push(events@.take(i as int), events@[i as int]);
            lemma_hier_run_snoc(pre_syms, Seq::<u32>::empty(), x);
        }
        let is_heading: Option<u32> = match &e {
            Event::Start(Tag::Heading(l)) => Some(*l),
            _ => None,
        };
        match is_heading {
            Some(l) => {
                if stack.len() == 0 {
                    let m = html_open();
                    let ghost pre = out@;
                    out.push(m);
                    stack.push(l);
                    proof {
                        lemma_stream_push(pre, m);
                    }
                } else if *stack.last().unwrap() == l {
                    let m = html_reopen();
                    let ghost pre = out@;
                    out.push(m);
                    proof {
                        lemma_stream_push(pre, m);
                    }
                } else if l < *stack.last().unwrap() {
                    let ghost stack_entry = stack@;
                    let ghost base_out_syms = syms_of(out@);
                    let mut done = false;
                    while !done
                        invariant
                            close_run(stack_entry, l).0 == syms_of(out@).skip(
                                base_out_syms.len() as int,
                            ) + (if done {
                                Seq::<SectSym>::empty()
                            } else {
                                close_run(stack@, l).0
                            }),
                            close_run(stack_entry, l).1 == (if done {
                                stack@
                            } else {
                                close_run(stack@, l).1
                            }),
                            syms_of(out@).take(base_out_syms.len() as int) == base_out_syms,
                            kept(out@) == kept(events@.take(i as int)),
                            syms_of(out@).len() >= base_out_syms.len(),
                        decreases (if done {
                            0int
                        } else {
                            stack@.len() as int + 1
                        }),
                    {
                        if stack.len() == 0 {
                            done = true;
                        } else {
                            let at_level = *stack.last().unwrap() == l;
                            let m = html_close();
                            let ghost pre = out@;
                            out.push(m);
                            stack.pop();
                            if at_level {
                                done = true;
                            }
                            proof {
                                lemma_stream_push(pre, m);
                                assert(syms_of(out@).skip(base_out_syms.len() as int)
                                    =~= syms_of(pre).skip(base_out_syms.len() as int)
                                    + seq![SectSym::Close]);
                                assert(syms_of(out@).take(base_out_syms.len() as int)
                                    =~= syms_of(pre).take(base_out_syms.len() as int));
                                if !at_level {
                                    assert(close_run(stack_entry, l).0 =~= syms_of(out@).skip(
                                        base_out_syms.len() as int,
                                    ) + close_run(stack@, l).0);
                                }
                            }
                        }
                    }
                    let m = html_open();
                    let ghost pre = out@;
                    out.push(m);
                    stack.push(l);
                    proof {
                        lemma_stream_push(pre, m);
                        assert(syms_of(out@) =~= base_out_syms + close_run(stack_entry, l).0
                            + seq![SectSym::Open]);
                    }
                } else {
                    let m = html_open();
                    let ghost pre = out@;
                    out.push(m);
                    stack.push(l);
                    proof {
                        lemma_stream_push(pre, m);
                    }
                }
            },
            None => {},
        }
        let ghost pre = out@;
        out.push(e);
        proof {
            lemma_stream_push(pre, e);
            assert(syms_of(out@) =~= pre_out_syms + hier_step(pre_stack, x).0);
            assert(stack@ == hier_step(pre_stack, x).1);
        }
        i += 1;
    }
    proof {
        assert(events@.take(n as int) =~= events@);
    }
    let ghost full = hier_run(all, Seq::<u32>::empty());
    while stack.len() > 0
        invariant
            stack@.len() <= full.1.len(),
            syms_of(out@) == full.0 + Seq::new(
                (full.1.len() - stack@.len()) as nat,
                |j: int| SectSym::Close,
            ),
            kept(out@) == kept(events@),
        decreases stack@.len(),
    {
        let m = html_close();
        let ghost pre = out@;
        out.push(m);
        stack.pop();
        proof {
            lemma_stream_push(pre, m);
            assert(syms_of(out@) =~= full.0 + Seq::new(
                (full.1.len() - stack@.len()) as nat,
                |j: int| SectSym::Close,
            ));
        }
    }
    proof {
        assert(syms_of(out@) =~= spec_hier(all));
    }
    *events = out;
}

/// Wraps the stream so that every heading closes the open block, if any, and
/// opens a new one; one block at most is open at a time, and it is closed at
/// the end of the stream.
pub fn make_flat_sections(events: &mut Vec<Event>)
    ensures
        syms_of(final(events)@) == spec_flat(syms_of(old(events)@)),
        kept(final(events)@) == kept(old(events)@),
{
    let ghost all: Seq<SectSym> = syms_of(events@);
    let n = events.len();
    let mut out: Vec<Event> = Vec::new();
    let mut in_section = false;
    let mut i: usize = 0;
    proof {
        assert(events@.take(0) =~= Seq::<Event>::empty());
        assert(syms_of(Seq::<Event>::empty()) =~= Seq::<SectSym>::empty());
        assert(kept(out@) == kept(events@.take(0)));
    }
    while i < n
        invariant
            n == events@.len(),
            i <= n,
            syms_of(out@) == flat_run(syms_of(events@.take(i as int)), false).0,
            in_section == flat_run(syms_of(events@.take(i as int)), false).1,
            kept(out@) == kept(events@.take(i as int)),
        decreases n - i,
    {
        let ghost pre_syms = syms_of(events@.take(i as int));
        let ghost pre_out_syms = syms_of(out@);
        let ghost pre_in = in_section;
        let e = events[i].clone();
        let ghost x = sect_sym(e);
        proof {
            assert(events@.take(i as int + 1) =~= events@.take(i as int).push(events@[i as int]));
            lemma_stream_push(events@.take(i as int), events@[i as int]);
            lemma_flat_run_snoc(pre_syms, false, x);
        }
        let is_heading = match &e {
            Event::Start(Tag::Heading(_)) => true,
            _ => false,
        };
        if is_heading {
            if !in_section {
                let m = html_open();
                let ghost pre = out@;
                out.push(m);
                in_section = true;
                proof {
                    lemma_stream_push(pre, m);
                }
            } else {
                let m = html_reopen();
                let ghost pre = out@;
                out.push(m);
                proof {
                    lemma_stream_push(pre, m);
                }
            }
        }
        let ghost pre = out@;
        out.push(e);
        proof {
            lemma_stream_push(pre, e);
            assert(syms_of(out@) =~= pre_out_syms + flat_step(pre_in, x).0);
        }
        i += 1;
    }
    proof {
        assert(events@.take(n as int) =~= events@);
    }
    if in_section {
        let m = html_close();
        let ghost pre = out@;
        out.push(m);
        proof {
            lemma_stream_push(pre, m);
        }
    }
    proof {
        assert(syms_of(out@) =~= spec_flat(all));
    }
    *events = out;
}

proof fn lemma_opens_add(a: Seq<SectSym>, b: Seq<SectSym>)
    ensures
        opens_count(a + b) == opens_count(a) + opens_count(b),
        closes_count(a + b) == closes_count(a) + closes_count(b),
    decreases a.len(),
{
    reveal_with_fuel(opens_count, 2);
    reveal_with_fuel(closes_count, 2);
    if a.len() == 0 {
        assert(a + b =~= b);
    } else {
        assert((a + b)[0] == a[0]);
        assert((a + b).drop_first() =~= a.drop_first() + b);
        lemma_opens_add(a.drop_first(), b);
    }
}

proof fn lemma_close_run_balance(stack: Seq<u32>, level: u32)
    ensures
        opens_count(close_run(stack, level).0) == 0,
        closes_count(close_run(stack, level).0) == stack.len() - close_run(stack, level).1.len(),
        close_run(stack, level).1.len() <= stack.len(),
    decreases stack.len(),
{
    reveal_with_fuel(opens_count, 3);
    reveal_with_fuel(closes_count, 3);
    reveal_with_fuel(close_run, 2);
    if stack.len() == 0 {
    } else if stack.last() == level {
        assert(closes_count(seq![SectSym::Close]) == 1) by {
            assert(seq![SectSym::Close].drop_first() =~= Seq::<SectSym>::empty());
        }
        assert(opens_count(seq![SectSym::Close]) == 0) by {
            assert(seq![SectSym::Close].drop_first() =~= Seq::<SectSym>::empty());
        }
    } else {
        lemma_close_run_balance(stack.drop_last(), level);
        lemma_opens_add(seq![SectSym::Close], close_run(stack.drop_last(), level).0);
        assert(closes_count(seq![SectSym::Close]) == 1) by {
            assert(seq![SectSym::Close].drop_first() =~= Seq::<SectSym>::empty());
        }
        assert(opens_count(seq![SectSym::Close]) == 0) by {
            assert(seq![SectSym::Close].drop_first() =~= Seq::<SectSym>::empty());
        }
    }
}

proof fn lemma_step_balance(stack: Seq<u32>, s: SectSym)
    requires
        sym_opens(s) == 0,
        sym_closes(s) == 0,
    ensures
        opens_count(hier_step(stack, s).0) - closes_count(hier_step(stack, s).0) == hier_step(
            stack,
            s,
        ).1.len() - stack.len(),
{
    reveal_with_fuel(opens_count, 4);
    reveal_with_fuel(closes_count, 4);
    let out = hier_step(stack, s).0;
    match s {
        SectSym::Heading(l) => {
            if stack.len() == 0 {
                assert(opens_count(out) == 1 && closes_count(out) == 0) by {
                    assert(out.drop_first() =~= seq![SectSym::Heading(l)]);
                    assert(out.drop_first().drop_first() =~= Seq::<SectSym>::empty());
                }
            } else if stack.last() == l {
                assert(opens_count(out) == 1 && closes_count(out) == 1) by {
                    assert(out.drop_first() =~= seq![SectSym::Heading(l)]);
                    assert(out.drop_first().drop_first() =~= Seq::<SectSym>::empty());
                }
            } else if l < stack.last() {
                let c = close_run(stack, l);
                lemma_close_run_balance(stack, l);
                lemma_opens_add(c.0, seq![SectSym::Open, SectSym::Heading(l)]);
                assert(opens_count(seq![SectSym::Open, SectSym::Heading(l)]) == 1 && closes_count(
                    seq![SectSym::Open, SectSym::Heading(l)],
                ) == 0) by {
                    assert(seq![SectSym::Open, SectSym::Heading(l)].drop_first()
                        =~= seq![SectSym::Heading(l)]);
                    assert(seq![SectSym::Heading(l)].drop_first() =~= Seq::<SectSym>::empty());
                }
            } else {
                assert(opens_count(out) == 1 && closes_count(out) == 0) by {
                    assert(out.drop_first() =~= seq![SectSym::Heading(l)]);
                    assert(out.drop_first().drop_first() =~= Seq::<SectSym>::empty());
                }
            }
        },
        _ => {
            assert(opens_count(out) == 0 && closes_count(out) == 0) by {
                assert(out.drop_first() =~= Seq::<SectSym>::empty());
            }
        },
    }
}

proof fn lemma_hier_run_balance(syms: Seq<SectSym>, stack: Seq<u32>)
    requires
        forall|i: int| 0 <= i < syms.len() ==> sym_opens(#[trigger] syms[i]) == 0 && sym_closes(
            syms[i],
        ) == 0,
    ensures
        opens_count(hier_run(syms, stack).0) - closes_count(hier_run(syms, stack).0) == hier_run(
            syms,
            stack,
        ).1.len() - stack.len(),
    decreases syms.len(),
{
    reveal_with_fuel(hier_run, 2);
    if syms.len() == 0 {
    } else {
        let st = hier_step(stack, syms[0]);
        lemma_step_balance(stack, syms[0]);
        lemma_hier_run_balance(syms.drop_first(), st.1);
        lemma_opens_add(st.0, hier_run(syms.drop_first(), st.1).0);
    }
}

proof fn lemma_flat_run_balance(syms: Seq<SectSym>, b: bool)
    requires
        forall|i: int| 0 <= i < syms.len() ==> sym_opens(#[trigger] syms[i]) == 0 && sym_closes(
            syms[i],
        ) == 0,
    ensures
        opens_count(flat_run(syms, b).0) - closes_count(flat_run(syms, b).0) == (if flat_run(
            syms,
            b,
        ).1 {
            1int
        } else {
            0int
        }) - (if b {
            1int
        } else {
            0int
        }),
    decreases syms.len(),
{
    reveal_with_fuel(flat_run, 2);
    reveal_with_fuel(opens_count, 4);
    reveal_with_fuel(closes_count, 4);
    if syms.len() == 0 {
    } else {
        let st = flat_step(b, syms[0]);
        lemma_flat_run_balance(syms.drop_first(), st.1);
        lemma_opens_add(st.0, flat_run(syms.drop_first(), st.1).0);
        match syms[0] {
            SectSym::Heading(_) => {
                assert(opens_count(st.0) - closes_count(st.0) == (if st.1 {
                    1int
                } else {
                    0int
                }) - (if b {
                    1int
                } else {
                    0int
                })) by {
                    assert(st.0.drop_first() =~= seq![syms[0]]);
                    assert(seq![syms[0]].drop_first() =~= Seq::<SectSym>::empty());
                }
            },
            _ => {
                assert(opens_count(st.0) == 0 && closes_count(st.0) == 0) by {
                    assert(st.0.drop_first() =~= Seq::<SectSym>::empty());
                }
            },
        }
    }
}

proof fn lemma_closes_only(n: nat)
    ensures
        opens_count(Seq::new(n, |j: int| SectSym::Close)) == 0,
        closes_count(Seq::new(n, |j: int| SectSym::Close)) == n,
    decreases n,
{
    reveal_with_fuel(opens_count, 2);
    reveal_with_fuel(closes_count, 2);
    if n == 0 {
    } else {
        lemma_closes_only((n - 1) as nat);
        assert(Seq::new(n, |j: int| SectSym::Close).drop_first() =~= Seq::new(
            (n - 1) as nat,
            |j: int| SectSym::Close,
        ));
    }
}

/// Law: for a stream that holds no section markers of its own, both the
/// hierarchical and the flat wrapping write exactly as many closing markers
/// as opening markers, whatever the nesting of the headings.
pub proof fn lemma_section_balance(syms: Seq<SectSym>)
    requires
        forall|i: int| 0 <= i < syms.len() ==> sym_opens(#[trigger] syms[i]) == 0 && sym_closes(
            syms[i],
        ) == 0,
    ensures
        opens_count(spec_hier(syms)) == closes_count(spec_hier(syms)),
        opens_count(spec_flat(syms)) == closes_count(spec_flat(syms)),
{
    reveal_with_fuel(opens_count, 3);
    reveal_with_fuel(closes_count, 3);
    let r = hier_run(syms, Seq::empty());
    lemma_hier_run_balance(syms, Seq::empty());
    lemma_closes_only(r.1.len());
    lemma_opens_add(r.0, Seq::new(r.1.len(), |j: int| SectSym::Close));
    let f = flat_run(syms, false);
    lemma_flat_run_balance(syms, false);
    if f.1 {
        assert(spec_flat(syms) =~= f.0 + seq![SectSym::Close]);
        lemma_opens_add(f.0, seq![SectSym::Close]);
        assert(closes_count(seq![SectSym::Close]) == 1 && opens_count(seq![SectSym::Close])
            == 0) by {
            assert(seq![SectSym::Close].drop_first() =~= Seq::<SectSym>::empty());
        }
    }
}

/// The balance law, composed for an event stream: wrap a stream that holds
/// no marker of its own, hierarchically or flat, and the output stream
/// holds exactly as many closing as opening markers.
pub proof fn lemma_section_balance_for_stream(events: Seq<Event>)
    requires
        forall|k: int| 0 <= k < events.len() ==> !is_marker(#[trigger] events[k]),
    ensures
        opens_count(spec_hier(syms_of(events))) == closes_count(spec_hier(syms_of(events))),
        opens_count(spec_flat(syms_of(events))) == closes_count(spec_flat(syms_of(events))),
{
    assert forall|i: int| 0 <= i < syms_of(events).len() implies sym_opens(
        #[trigger] syms_of(events)[i],
    ) == 0 && sym_closes(syms_of(events)[i]) == 0 by {
        assert(syms_of(events)[i] == sect_sym(events[i]));
        assert(!is_marker(events[i]));
    }
    lemma_section_balance(syms_of(events));
}

} // verus!
