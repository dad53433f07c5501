//! Macro calls embedded in the document, and their interpolation into the
//! event stream at exact byte offsets.

use vstd::prelude::*;

use crate::errors::RenderError;
use crate::events::Event;
use crate::templates::{
    describe_tera_error, tera_context_insert_str, tera_context_new, tera_render,
};
use vstd::string::StringSliceAdditionalSpecFns;
use vstd::utf8::{encode_utf8, is_char_boundary};

verus! {

/// One pending macro call: its name, its arguments, and the byte span of
/// the source text its rendered output replaces.
#[derive(Debug)]
pub struct Shortcode {
    pub name: String,
    pub args: Vec<(String, String)>,
    /// Byte offset of the first source byte of the call.
    pub span_start: usize,
    /// Byte offset one past the last source byte of the call.
    pub span_end: usize,
}

/// Renders one call through the template engine, under the template
/// `shortcodes/<name>.html`, with every argument in the context. A failure
/// carries the name of the failing call.
pub fn render_shortcode(tera: &tera::Tera, sc: &Shortcode) -> (r: Result<String, RenderError>)
    ensures
        r matches Err(e) ==> e matches RenderError::ShortcodeRender { name, .. } && name@
            == sc.name@,
{
    let mut template = "shortcodes/".to_owned();
    template.append(sc.name.as_str());
    template.append(".html");
    let mut c = tera_context_new();
    let mut i: usize = 0;
    while i < sc.args.len()
        decreases sc.args@.len() - i,
    {
        tera_context_insert_str(&mut c, sc.args[i].0.as_str(), sc.args[i].1.as_str());
        i += 1;
    }
    match tera_render(tera, template.as_str(), &c) {
        Ok(s) => Ok(s),
        Err(e) => Err(
            RenderError::ShortcodeRender {
                name: sc.name.clone(),
                detail: describe_tera_error(&e),
            },
        ),
    }
}

/// Whether `e` is a fragment piece holding exactly the bytes `bytes`: a
/// text event for a text fragment, a raw-markup event for a markup one.
pub open spec fn fragment_piece(e: Event, is_html: bool, bytes: Seq<u8>) -> bool {
    if is_html {
        e matches Event::Html(s) && encode_utf8(s@) == bytes
    } else {
        e matches Event::Text(s) && encode_utf8(s@) == bytes
    }
}

/// The exact shape of what splicing writes for the calls `[lo, hi)`: for
/// each call in order, the fragment's bytes from the position already
/// written up to the call's start (omitted when empty), then one
/// raw-markup event holding whatever the engine rendered for that call;
/// after the last call, the rest of the fragment in one final piece.
/// `bytes` is the whole fragment, `fstart` the absolute offset of its
/// first byte, and `p` the absolute offset already written out.
pub open spec fn splice_shape(
    evs: Seq<Event>,
    bytes: Seq<u8>,
    fstart: int,
    p: int,
    calls: Seq<Shortcode>,
    lo: int,
    hi: int,
    is_html: bool,
) -> bool
    decreases hi - lo,
{
    if lo >= hi {
        evs.len() == 1 && fragment_piece(
            evs[0],
            is_html,
            bytes.subrange(p - fstart, bytes.len() as int),
        )
    } else {
        let sc = calls[lo];
        if sc.span_start - p == 0 {
            &&& evs.len() >= 1
            &&& evs[0] matches Event::Html(_)
            &&& splice_shape(
                evs.skip(1),
                bytes,
                fstart,
                sc.span_end as int,
                calls,
                lo + 1,
                hi,
                is_html,
            )
        } else {
            &&& evs.len() >= 2
            &&& fragment_piece(
                evs[0],
                is_html,
                bytes.subrange(p - fstart, sc.span_start - fstart),
            )
            &&& evs[1] matches Event::Html(_)
            &&& splice_shape(
                evs.skip(2),
                bytes,
                fstart,
                sc.span_end as int,
                calls,
                lo + 1,
                hi,
                is_html,
            )
        }
    }
}

/// The absolute offset splicing resumes from once the calls `[lo, c)` are
/// consumed: the fragment's start, or the end of the last consumed call.
pub open spec fn splice_resume(fstart: int, calls: Seq<Shortcode>, lo: int, c: int) -> int {
    if c == lo {
        fstart
    } else {
        calls[c - 1].span_end as int
    }
}

/// Whether the span `[ss, se)` cuts the remaining fragment `rem` (whose
/// first byte sits at absolute offset `p`) on character boundaries and
/// within its extent.
pub open spec fn spans_cut_cleanly(rem: Seq<u8>, p: int, ss: int, se: int) -> bool {
    &&& ss - p <= rem.len() as usize
    &&& is_char_boundary(rem, ss - p)
    &&& se - ss <= rem.subrange(ss - p, rem.len() as int).len() as usize
    &&& is_char_boundary(rem.subrange(ss - p, rem.len() as int), se - ss)
}

proof fn lemma_splice_extend(
    app0: Seq<Event>,
    pieces: Seq<Event>,
    app1: Seq<Event>,
    bv: Seq<u8>,
    fstart: int,
    p0: int,
    calls: Seq<Shortcode>,
    lo: int,
    pc: int,
    is_html: bool,
)
    requires
        app1 == app0 + pieces,
        0 <= lo <= pc < calls.len(),
        calls[pc].span_start - p0 == 0 ==> pieces.len() == 1 && (pieces[0] matches Event::Html(_)),
        calls[pc].span_start - p0 != 0 ==> pieces.len() == 2 && fragment_piece(
            pieces[0],
            is_html,
            bv.subrange(p0 - fstart, calls[pc].span_start - fstart),
        ) && (pieces[1] matches Event::Html(_)),
        forall|rest: Seq<Event>, hi: int|
            pc <= hi <= calls.len() && #[trigger] splice_shape(
                rest,
                bv,
                fstart,
                p0,
                calls,
                pc,
                hi,
                is_html,
            ) ==> splice_shape(app0 + rest, bv, fstart, fstart, calls, lo, hi, is_html),
    ensures
        forall|rest: Seq<Event>, hi: int|
            pc + 1 <= hi <= calls.len() && #[trigger] splice_shape(
                rest,
                bv,
                fstart,
                calls[pc].span_end as int,
                calls,
                pc + 1,
                hi,
                is_html,
            ) ==> splice_shape(app1 + rest, bv, fstart, fstart, calls, lo, hi, is_html),
{
    assert forall|rest: Seq<Event>, hi: int|
        pc + 1 <= hi <= calls.len() && #[trigger] splice_shape(
            rest,
            bv,
            fstart,
            calls[pc].span_end as int,
            calls,
            pc + 1,
            hi,
            is_html,
        ) implies splice_shape(app1 + rest, bv, fstart, fstart, calls, lo, hi, is_html) by {
        let pr = pieces + rest;
        assert(splice_shape(pr, bv, fstart, p0, calls, pc, hi, is_html)) by {
            if calls[pc].span_start - p0 == 0 {
                assert(pr[0] == pieces[0]);
                assert(pr.skip(1) =~= rest);
            } else {
                assert(pr[0] == pieces[0]);
                assert(pr[1] == pieces[1]);
                assert(pr.skip(2) =~= rest);
            }
        }
        assert(app1 + rest =~= app0 + pr);
    }
}

/// Splices the pending calls whose spans start inside one text or raw-markup
/// fragment.
///
/// The fragment covers the source bytes `[range_start, range_end)`. As long
/// as the next pending call starts in the part of that window not yet
/// written out, the text up to the call is written, the call is rendered and
/// written as raw markup, and the fragment advances to the call's end; the
/// remainder is then written as one final event. Calls are consumed strictly
/// in order, each exactly once, and never revisited; a call whose span does
/// not fall on character boundaries of the fragment stops the splicing and
/// leaves the rest of the fragment whole.
pub fn interpolate_fragment(
    tera: &tera::Tera,
    text: String,
    range_start: usize,
    range_end: usize,
    shortcodes: &Vec<Shortcode>,
    cursor: &mut usize,
    is_html: bool,
    out: &mut Vec<Event>,
) -> (r: Result<(), RenderError>)
    requires
        *old(cursor) <= shortcodes@.len(),
    ensures
        *old(cursor) <= *final(cursor) <= shortcodes@.len(),
        forall|k: int|
            *old(cursor) <= k < *final(cursor) ==> range_start <= (
            #[trigger] shortcodes@[k]).span_start < range_end,
        final(out)@.len() > old(out)@.len(),
        final(out)@.take(old(out)@.len() as int) == old(out)@,
        forall|k: int|
            old(out)@.len() <= k < final(out)@.len() ==> (#[trigger] final(out)@[k]) matches
                Event::Text(_) || final(out)@[k] matches Event::Html(_),
        r is Ok ==> splice_shape(
            final(out)@.skip(old(out)@.len() as int),
            encode_utf8(text@),
            range_start as int,
            range_start as int,
            shortcodes@,
            *old(cursor) as int,
            *final(cursor) as int,
            is_html,
        ),
        r is Ok ==> ({
            let b = encode_utf8(text@);
            let c = *final(cursor) as int;
            let p = splice_resume(range_start as int, shortcodes@, *old(cursor) as int, c);
            let rem = b.subrange(p - range_start, b.len() as int);
            ||| c == shortcodes@.len()
            ||| shortcodes@[c].span_start < p
            ||| shortcodes@[c].span_start >= range_end
            ||| shortcodes@[c].span_end < shortcodes@[c].span_start
            ||| !spans_cut_cleanly(
                rem,
                p,
                shortcodes@[c].span_start as int,
                shortcodes@[c].span_end as int,
            )
        }),
        (*old(cursor) == shortcodes@.len() || !(range_start
            <= shortcodes@[*old(cursor) as int].span_start < range_end)) ==> {
            &&& r is Ok
            &&& *final(cursor) == *old(cursor)
            &&& final(out)@.len() == old(out)@.len() + 1
            &&& final(out)@.last() == (if is_html {
                Event::Html(text)
            } else {
                Event::Text(text)
            })
        },
        r matches Err(e) ==> e matches RenderError::ShortcodeRender { .. },
{
    let ghost tv = text;
    let ghost bv = encode_utf8(text@);
    let mut cur_text = text;
    let mut cur_start = range_start;
    let mut done = false;
    let mut failure: Option<RenderError> = Option::None;
    proof {
        assert(bv.subrange(0, bv.len() as int) =~= bv);
        assert forall|rest: Seq<Event>, hi: int|
            *cursor <= hi <= shortcodes@.len() && #[trigger] splice_shape(
                rest,
                bv,
                range_start as int,
                cur_start as int,
                shortcodes@,
                *cursor as int,
                hi,
                is_html,
            ) implies splice_shape(
            out@.skip(old(out)@.len() as int) + rest,
            bv,
            range_start as int,
            range_start as int,
            shortcodes@,
            *old(cursor) as int,
            hi,
            is_html,
        ) by {
            assert(out@.skip(old(out)@.len() as int) + rest =~= rest);
        }
    }
    while !done
        invariant
            *old(cursor) <= *cursor <= shortcodes@.len(),
            forall|k: int|
                *old(cursor) <= k < *cursor ==> range_start <= (
                #[trigger] shortcodes@[k]).span_start < range_end,
            range_start <= cur_start,
            bv == encode_utf8(tv@),
            cur_start - range_start <= bv.len(),
            encode_utf8(cur_text@) == bv.subrange(cur_start - range_start, bv.len() as int),
            cur_start as int == splice_resume(
                range_start as int,
                shortcodes@,
                *old(cursor) as int,
                *cursor as int,
            ),
            out@.len() >= old(out)@.len(),
            out@.take(old(out)@.len() as int) == old(out)@,
            forall|k: int|
                old(out)@.len() <= k < out@.len() ==> (#[trigger] out@[k]) matches Event::Text(_)
                    || out@[k] matches Event::Html(_),
            failure is None ==> forall|rest: Seq<Event>, hi: int|
                *cursor <= hi <= shortcodes@.len() && #[trigger] splice_shape(
                    rest,
                    bv,
                    range_start as int,
                    cur_start as int,
                    shortcodes@,
                    *cursor as int,
                    hi,
                    is_html,
                ) ==> splice_shape(
                    out@.skip(old(out)@.len() as int) + rest,
                    bv,
                    range_start as int,
                    range_start as int,
                    shortcodes@,
                    *old(cursor) as int,
                    hi,
                    is_html,
                ),
            done && failure is None ==> ({
                let rem = bv.subrange(cur_start - range_start, bv.len() as int);
                ||| *cursor == shortcodes@.len()
                ||| shortcodes@[*cursor as int].span_start < cur_start
                ||| shortcodes@[*cursor as int].span_start >= range_end
                ||| shortcodes@[*cursor as int].span_end < shortcodes@[*cursor as int].span_start
                ||| !spans_cut_cleanly(
                    rem,
                    cur_start as int,
                    shortcodes@[*cursor as int].span_start as int,
                    shortcodes@[*cursor as int].span_end as int,
                )
            }),
            (*old(cursor) == shortcodes@.len() || !(range_start
                <= shortcodes@[*old(cursor) as int].span_start < range_end)) ==> (*cursor == *old(
                cursor,
            ) && cur_text == tv && out@ == old(out)@ && failure is None && cur_start
                == range_start),
            failure is Some ==> done,
            failure matches Some(e) ==> e matches RenderError::ShortcodeRender { .. },
        decreases (if done {
            0int
        } else {
            shortcodes@.len() - *cursor + 1
        }),
    {
        if *cursor >= shortcodes.len() {
            done = true;
        } else {
            let sc_start = shortcodes[*cursor].span_start;
            let sc_end = shortcodes[*cursor].span_end;
            if !(cur_start <= sc_start && sc_start < range_end && sc_start <= sc_end) {
                done = true;
            } else {
                let cut = sc_start - cur_start;
                if !(cut <= cur_text.as_str().len() && cur_text.as_str().is_char_boundary(cut)) {
                    done = true;
                } else {
                    let (prefix, rest) = cur_text.as_str().split_at(cut);
                    let skip = sc_end - sc_start;
                    if !(skip <= rest.len() && rest.is_char_boundary(skip)) {
                        proof {
                            assert(rest.spec_bytes() =~= bv.subrange(
                                cur_start - range_start,
                                bv.len() as int,
                            ).subrange(
                                cut as int,
                                bv.subrange(
                                    cur_start - range_start,
                                    bv.len() as int,
                                ).len() as int,
                            ));
                        }
                        done = true;
                    } else {
                        let ghost pc = *cursor as int;
                        let ghost p0 = cur_start as int;
                        let ghost app0 = out@.skip(old(out)@.len() as int);
                        let ghost rem0 = bv.subrange(p0 - range_start, bv.len() as int);
                        if prefix.len() > 0 {
                            let ghost pre = out@;
                            if is_html {
                                out.push(Event::Html(prefix.to_owned()));
                            } else {
                                out.push(Event::Text(prefix.to_owned()));
                            }
                            proof {
                                assert(out@.take(old(out)@.len() as int) =~= pre.take(
                                    old(out)@.len() as int,
                                ));
                            }
                        }
                        match render_shortcode(tera, &shortcodes[*cursor]) {
                            Ok(s) => {
                                let ghost pre = out@;
                                out.push(Event::Html(s));
                                proof {
                                    assert(out@.take(old(out)@.len() as int) =~= pre.take(
                                        old(out)@.len() as int,
                                    ));
                                }
                                let (_, tail) = rest.split_at(skip);
                                cur_text = tail.to_owned();
                                cur_start = sc_end;
                                *cursor += 1;
                                proof {
                                    assert(prefix.spec_bytes() =~= rem0.subrange(0, cut as int));
                                    assert(rest.spec_bytes() =~= rem0.subrange(
                                        cut as int,
                                        rem0.len() as int,
                                    ));
                                    assert(encode_utf8(cur_text@) =~= bv.subrange(
                                        cur_start - range_start,
                                        bv.len() as int,
                                    ));
                                    let app1 = out@.skip(old(out)@.len() as int);
                                    let pieces = app1.skip(app0.len() as int);
                                    assert(app1 =~= app0 + pieces);
                                    if cut != 0 {
                                        assert(fragment_piece(
                                            pieces[0],
                                            is_html,
                                            bv.subrange(
                                                p0 - range_start,
                                                shortcodes@[pc].span_start - range_start,
                                            ),
                                        )) by {
                                            assert(rem0.subrange(0, cut as int) =~= bv.subrange(
                                                p0 - range_start,
                                                shortcodes@[pc].span_start - range_start,
                                            ));
                                        }
                                    }
                                    lemma_splice_extend(
                                        app0,
                                        pieces,
                                        app1,
                                        bv,
                                        range_start as int,
                                        p0,
                                        shortcodes@,
                                        *old(cursor) as int,
                                        pc,
                                        is_html,
                                    );
                                }
                            },
                            Err(e) => {
                                failure = Some(e);
                                done = true;
                            },
                        }
                    }
                }
            }
        }
    }
    let ghost app_pre = out@.skip(old(out)@.len() as int);
    let ghost pre = out@;
    if is_html {
        out.push(Event::Html(cur_text));
    } else {
        out.push(Event::Text(cur_text));
    }
    proof {
        assert(out@.take(old(out)@.len() as int) =~= pre.take(old(out)@.len() as int));
        if failure is None {
            assert(splice_shape(
                seq![out@.last()],
                bv,
                range_start as int,
                cur_start as int,
                shortcodes@,
                *cursor as int,
                *cursor as int,
                is_html,
            ));
            assert(out@.skip(old(out)@.len() as int) =~= app_pre + seq![out@.last()]);
        }
    }
    match failure {
        Some(e) => Err(e),
        None => Ok(()),
    }
}

} // verus!
