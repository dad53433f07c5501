//! Headings: finding them in the buffered stream, reading their titles,
//! picking out manually chosen ids, and choosing a fresh anchor when a slug
//! is already taken.

use vstd::prelude::*;

use crate::events::{Event, Tag};
use crate::strutil::{
    contains_string, dec_seq, lemma_dec_seq_injective, spec_contains_str, u64_dec,
};

verus! {

/// A heading found in the buffered stream: where it starts and ends, its
/// level, and its manually chosen id once one has been picked out.
#[derive(Debug)]
pub struct HeadingRef {
    pub start_idx: usize,
    pub end_idx: usize,
    pub level: u32,
    pub id: Option<String>,
}

impl HeadingRef {
    /// A heading that starts at `start` with the given level, its end not
    /// yet known and no manual id.
    pub fn new(start: usize, level: u32) -> (r: HeadingRef)
        ensures
            r.start_idx == start,
            r.end_idx == 0,
            r.level == level,
            r.id is None,
    {
        HeadingRef { start_idx: start, end_idx: 0, level, id: None }
    }
}

/// The visible text of a stretch of events: the text and inline-code
/// payloads, in order, everything else skipped.
pub open spec fn text_of(s: Seq<Event>) -> Seq<char>
    decreases s.len(),
{
    if s.len() == 0 {
        Seq::empty()
    } else {
        text_of(s.drop_last()) + match s.last() {
            Event::Text(t) => t@,
            Event::Code(t) => t@,
            _ => Seq::empty(),
        }
    }
}

/// Gathers the visible text of `events[from..to]`.
pub fn get_text(events: &Vec<Event>, from: usize, to: usize) -> (r: String)
    requires
        from <= to <= events@.len(),
    ensures
        r@ == text_of(events@.subrange(from as int, to as int)),
{
    let mut title = String::new();
    let mut i: usize = from;
    proof {
        assert(events@.subrange(from as int, from as int) =~= Seq::<Event>::empty());
    }
    while i < to
        invariant
            from <= i <= to <= events@.len(),
            title@ == text_of(events@.subrange(from as int, i as int)),
        decreases to - i,
    {
        proof {
            assert(events@.subrange(from as int, i as int + 1).drop_last() =~= events@.subrange(
                from as int,
                i as int,
            ));
            assert(events@.subrange(from as int, i as int + 1).last() == events@[i as int]);
        }
        match &events[i] {
            Event::Text(t) => title.append(t.as_str()),
            Event::Code(t) => title.append(t.as_str()),
            _ => {
                proof {
                    assert(title@ + Seq::<char>::empty() =~= title@);
                }
            },
        }
        i += 1;
    }
    title
}

/// How many events of `s` open a heading.
pub open spec fn starts_count(s: Seq<Event>) -> int
    decreases s.len(),
{
    if s.len() == 0 {
        0
    } else {
        starts_count(s.drop_last()) + if s.last().is_start_heading() {
            1int
        } else {
            0int
        }
    }
}

/// How many events of `s` close a heading.
pub open spec fn ends_count(s: Seq<Event>) -> int
    decreases s.len(),
{
    if s.len() == 0 {
        0
    } else {
        ends_count(s.drop_last()) + if s.last().is_end_heading() {
            1int
        } else {
            0int
        }
    }
}

proof fn lemma_counts_nonneg(s: Seq<Event>)
    ensures
        starts_count(s) >= 0,
        ends_count(s) >= 0,
    decreases s.len(),
{
    if s.len() > 0 {
        lemma_counts_nonneg(s.drop_last());
    }
}

/// Headings open and close strictly in turn and every one is closed: a
/// heading start arrives only with no heading open, a heading end only with
/// exactly one open, and none stays open at the end.
pub open spec fn headings_well_formed(s: Seq<Event>) -> bool {
    &&& forall|j: int|
        0 <= j < s.len() && s[j].is_start_heading() ==> starts_count(#[trigger] s.take(j))
            == ends_count(s.take(j))
    &&& forall|j: int|
        0 <= j < s.len() && s[j].is_end_heading() ==> starts_count(#[trigger] s.take(j))
            == ends_count(s.take(j)) + 1
    &&& starts_count(s) == ends_count(s)
}

/// Finds every heading of the stream: one record per heading start, in
/// order, each paired with the heading end that closes it.
pub fn get_heading_refs(events: &Vec<Event>) -> (refs: Vec<HeadingRef>)
    requires
        headings_well_formed(events@),
    ensures
        refs@.len() == starts_count(events@),
        forall|k: int|
            0 <= k < refs@.len() ==> {
                &&& (#[trigger] refs@[k]).start_idx < refs@[k].end_idx < events@.len()
                &&& events@[refs@[k].start_idx as int].is_start_heading()
                &&& events@[refs@[k].start_idx as int].heading_level() == refs@[k].level
                &&& events@[refs@[k].end_idx as int].is_end_heading()
                &&& refs@[k].id is None
            },
        forall|k1: int, k2: int|
            0 <= k1 < k2 < refs@.len() ==> (#[trigger] refs@[k1]).end_idx < (
            #[trigger] refs@[k2]).start_idx,
{
    let n = events.len();
    let mut refs: Vec<HeadingRef> = Vec::new();
    let mut i: usize = 0;
    proof {
        assert(events@.take(0) =~= Seq::<Event>::empty());
    }
    while i < n
        invariant
            n == events@.len(),
            i <= n,
            headings_well_formed(events@),
            refs@.len() == starts_count(events@.take(i as int)),
            starts_count(events@.take(i as int)) - ends_count(events@.take(i as int)) == 0
                || starts_count(events@.take(i as int)) - ends_count(events@.take(i as int)) == 1,
            forall|k: int|
                0 <= k < refs@.len() - 1 ==> {
                    &&& (#[trigger] refs@[k]).start_idx < refs@[k].end_idx < i
                    &&& events@[refs@[k].start_idx as int].is_start_heading()
                    &&& events@[refs@[k].start_idx as int].heading_level() == refs@[k].level
                    &&& events@[refs@[k].end_idx as int].is_end_heading()
                    &&& refs@[k].id is None
                },
            refs@.len() > 0 ==> {
                &&& (refs@.last().start_idx as int) < i
                &&& events@[refs@.last().start_idx as int].is_start_heading()
                &&& events@[refs@.last().start_idx as int].heading_level() == refs@.last().level
                &&& refs@.last().id is None
                &&& if starts_count(events@.take(i as int)) == ends_count(events@.take(i as int)) {
                    refs@.last().start_idx < refs@.last().end_idx < i && events@[refs@.last().end_idx as int].is_end_heading()
                } else {
                    true
                }
            },
            forall|k1: int, k2: int|
                0 <= k1 < k2 < refs@.len() ==> (#[trigger] refs@[k1]).end_idx < (
                #[trigger] refs@[k2]).start_idx,
            forall|k: int|
                0 <= k < refs@.len() - 1 ==> (#[trigger] refs@[k]).end_idx < refs@.last().start_idx,
            refs@.len() > 0 && starts_count(events@.take(i as int)) != ends_count(
                events@.take(i as int),
            ) ==> forall|j: int|
                refs@.last().start_idx < j < i ==> !(#[trigger] events@[j]).is_start_heading()
                    && !events@[j].is_end_heading(),
        decreases n - i,
    {
        proof {
            assert(events@.take(i as int + 1).drop_last() =~= events@.take(i as int));
            assert(events@.take(i as int + 1).last() == events@[i as int]);
        }
        let is_start: Option<u32> = match &events[i] {
            Event::Start(Tag::Heading(l)) => Some(*l),
            _ => None,
        };
        let is_end = match &events[i] {
            Event::End(Tag::Heading(_)) => true,
            _ => false,
        };
        match is_start {
            Some(l) => {
                refs.push(HeadingRef::new(i, l));
            },
            None => {
                if is_end {
                    proof {
                        assert(starts_count(events@.take(i as int)) == ends_count(
                            events@.take(i as int),
                        ) + 1);
                        lemma_counts_nonneg(events@.take(i as int));
                    }
                    let m = refs.len();
                    let last_start = refs[m - 1].start_idx;
                    let last_level = refs[m - 1].level;
                    refs.set(m - 1, HeadingRef {
                        start_idx: last_start,
                        end_idx: i,
                        level: last_level,
                        id: None,
                    });
                }
            },
        }
        i += 1;
    }
    proof {
        assert(events@.take(n as int) =~= events@);
    }
    refs
}

/// The `k`-th candidate for an anchor built from `name`: the name itself
/// first, then the name with `-k` appended.
pub open spec fn anchor_candidate(name: Seq<char>, k: int) -> Seq<char> {
    if k <= 0 {
        name
    } else {
        name + "-"@ + dec_seq(k as nat)
    }
}

proof fn lemma_candidate_injective(name: Seq<char>, i: int, j: int)
    requires
        i >= 1,
        j >= 1,
        anchor_candidate(name, i) == anchor_candidate(name, j),
    ensures
        i == j,
{
    let a = anchor_candidate(name, i);
    let b = anchor_candidate(name, j);
    let pre = name.len() + "-"@.len();
    assert(dec_seq(i as nat) =~= a.subrange(pre as int, a.len() as int));
    assert(dec_seq(j as nat) =~= b.subrange(pre as int, b.len() as int));
    lemma_dec_seq_injective(i as nat, j as nat);
}

/// Picks an anchor built from `name` that no string in `anchors` already
/// uses: the name itself when it is free, else the name with the smallest
/// free counter appended.
pub fn find_anchor(anchors: &Vec<String>, name: String, level: u16) -> (r: String)
    requires
        anchors@.len() + level + 2 < usize::MAX,
    ensures
        !spec_contains_str(anchors@, r@),
        level == 0 && !spec_contains_str(anchors@, name@) ==> r@ == name@,
        !(level == 0 && !spec_contains_str(anchors@, name@)) ==> exists|k: int|
            #![auto]
            level + 1 <= k && r@ == anchor_candidate(name@, k) && (forall|j: int|
                level + 1 <= j < k ==> spec_contains_str(anchors@, anchor_candidate(name@, j))),
{
    if level == 0 && !contains_string(anchors, &name) {
        return name;
    }
    let n = anchors.len();
    let mut j: usize = 0;
    while j <= n
        invariant
            anchors@.len() + level + 2 < usize::MAX,
            n == anchors@.len(),
            j <= n + 1,
            !(level == 0 && !spec_contains_str(anchors@, name@)),
            forall|t: int|
                0 <= t < j ==> spec_contains_str(
                    anchors@,
                    #[trigger] anchor_candidate(name@, level + 1 + t),
                ),
        decreases n + 1 - j,
    {
        let k: u64 = level as u64 + 1 + j as u64;
        let mut cand = name.clone();
        cand.append("-");
        cand.append(u64_dec(k).as_str());
        proof {
            assert(cand@ =~= anchor_candidate(name@, k as int));
        }
        if !contains_string(anchors, &cand) {
            proof {
                assert forall|t: int| level + 1 <= t < k as int implies spec_contains_str(
                    anchors@,
                    #[trigger] anchor_candidate(name@, t),
                ) by {
                    let u = t - (level as int) - 1;
                    assert(spec_contains_str(
                        anchors@,
                        anchor_candidate(name@, level + 1 + u),
                    ));
                }
                assert(level + 1 <= k as int && cand@ == anchor_candidate(name@, k as int));
            }
            return cand;
        }
        j += 1;
    }
    proof {
        let base = level as int + 1;
        let cands = Seq::new((n + 1) as nat, |t: int| anchor_candidate(name@, base + t));
        assert forall|t1: int, t2: int|
            0 <= t1 < cands.len() && 0 <= t2 < cands.len() && t1 != t2 implies cands[t1]
            != cands[t2] by {
            if cands[t1] == cands[t2] {
                lemma_candidate_injective(name@, base + t1, base + t2);
            }
        }
        assert(cands.no_duplicates());
        cands.unique_seq_to_set();
        let aviews = anchors@.map_values(|a: String| a@);
        assert forall|x: Seq<char>| cands.to_set().contains(x) implies aviews.to_set().contains(
            x,
        ) by {
            let t = choose|t: int| 0 <= t < cands.len() && cands[t] == x;
            assert(spec_contains_str(anchors@, anchor_candidate(name@, level + 1 + t)));
            assert(anchor_candidate(name@, level + 1 + t) == x);
            let w = choose|w: int| 0 <= w < anchors@.len() && anchors@[w]@ == x;
            assert(aviews[w] == x);
            assert(aviews.contains(x));
        }
        aviews.lemma_cardinality_of_set();
        vstd::seq_lib::seq_to_set_is_finite(aviews);
        vstd::set_lib::lemma_len_subset(cands.to_set(), aviews.to_set());
        assert(false);
    }
    vstd::pervasive::unreached()
}

} // verus!
