//! The table-of-contents tree: headings in document order, folded so that
//! a heading becomes a child of the nearest preceding heading of a more
//! significant level.

use vstd::prelude::*;

verus! {

/// One table-of-contents node: a heading with its resolved id, its deep
/// link, its visible title, and the headings nested under it.
#[derive(Debug)]
pub struct Heading {
    pub level: u32,
    pub id: String,
    pub permalink: String,
    pub title: String,
    pub children: Vec<Heading>,
}

/// A well-formed table-of-contents node: everything nested under a heading
/// is at a strictly less significant (numerically greater) level, all the
/// way down.
pub open spec fn tree_wf(h: Heading) -> bool
    decreases h,
{
    forall|i: int|
        0 <= i < h.children@.len() ==> (#[trigger] h.children@[i]).level > h.level && tree_wf(
            h.children@[i],
        )
}

/// The fields of a node that the fold carries over unchanged.
pub open spec fn node_of(h: Heading) -> (u32, Seq<char>, Seq<char>, Seq<char>) {
    (h.level, h.id@, h.permalink@, h.title@)
}

/// Whether the `k`-th heading starts a top-level node: no earlier heading
/// is at a more significant level, so nothing is open for it to nest
/// under.
pub open spec fn starts_top_level(hs: Seq<Heading>, k: int) -> bool {
    forall|j: int| 0 <= j < k ==> (#[trigger] hs[j]).level >= hs[k].level
}

/// The positions of the headings among the first `m` that start top-level
/// nodes, in document order.
pub open spec fn tops_upto(hs: Seq<Heading>, m: int) -> Seq<int>
    decreases m,
{
    if m <= 0 {
        Seq::empty()
    } else {
        tops_upto(hs, m - 1) + (if starts_top_level(hs, m - 1) {
            seq![m - 1]
        } else {
            Seq::empty()
        })
    }
}

/// The positions of the headings that become top-level nodes of the tree.
pub open spec fn top_level_indices(hs: Seq<Heading>) -> Seq<int> {
    tops_upto(hs, hs.len() as int)
}

proof fn lemma_tops_bounds(hs: Seq<Heading>, m: int)
    requires
        0 <= m <= hs.len(),
    ensures
        forall|i: int|
            0 <= i < tops_upto(hs, m).len() ==> 0 <= #[trigger] tops_upto(hs, m)[i] < m,
        tops_upto(hs, m).len() <= m,
    decreases m,
{
    if m > 0 {
        lemma_tops_bounds(hs, m - 1);
    }
}

/// Folds the flat, document-ordered heading list into a tree: a heading
/// of level L becomes a child of the nearest preceding open heading of a
/// level more significant than L; everything else starts a new top-level
/// node. The top-level nodes are exactly the headings that no earlier
/// heading could hold open, in document order, fields untouched; the rest
/// nest under them by level.
pub fn make_table_of_contents(headings: Vec<Heading>) -> (toc: Vec<Heading>)
    requires
        forall|k: int| 0 <= k < headings@.len() ==> (#[trigger] headings@[k]).children@.len() == 0,
    ensures
        toc@.len() <= headings@.len(),
        headings@.len() == 0 ==> toc@.len() == 0,
        headings@.len() > 0 ==> toc@.len() > 0,
        forall|k: int| 0 <= k < toc@.len() ==> tree_wf(#[trigger] toc@[k]),
        toc@.len() == top_level_indices(headings@).len(),
        forall|i: int|
            0 <= i < toc@.len() ==> node_of(#[trigger] toc@[i]) == node_of(
                headings@[top_level_indices(headings@)[i]],
            ),
{
    let ghost hs = headings@;
    let n = headings.len();
    let mut toc: Vec<Heading> = Vec::new();
    // The not-yet-closed rightmost chain, outermost first; each entry is
    // more nested than the one before it.
    let mut open: Vec<Heading> = Vec::new();
    let mut rest = headings;
    let ghost mut m: int = 0;
    proof {
        lemma_tops_bounds(hs, n as int);
        assert(rest@ =~= hs.skip(0));
    }
    while rest.len() > 0
        invariant
            n == hs.len(),
            0 <= m <= n,
            rest@ == hs.skip(m),
            forall|k: int| 0 <= k < hs.len() ==> (#[trigger] hs[k]).children@.len() == 0,
            m > 0 ==> open@.len() > 0,
            m == 0 ==> open@.len() == 0 && toc@.len() == 0,
            toc@.len() + (if open@.len() > 0 {
                1int
            } else {
                0int
            }) == tops_upto(hs, m).len(),
            forall|i: int|
                0 <= i < toc@.len() ==> node_of(#[trigger] toc@[i]) == node_of(
                    hs[tops_upto(hs, m)[i]],
                ),
            open@.len() > 0 ==> node_of(open@[0]) == node_of(
                hs[tops_upto(hs, m)[tops_upto(hs, m).len() - 1]],
            ),
            open@.len() > 0 ==> forall|j: int|
                0 <= j < m ==> (#[trigger] hs[j]).level >= open@[0].level,
            forall|s: int|
                0 <= s < open@.len() ==> exists|j: int|
                    0 <= j < m && hs[j].level == (#[trigger] open@[s]).level,
            forall|k: int| 0 <= k < open@.len() ==> tree_wf(#[trigger] open@[k]),
            forall|k1: int, k2: int|
                0 <= k1 < k2 < open@.len() ==> (#[trigger] open@[k1]).level < (
                #[trigger] open@[k2]).level,
            forall|k: int| 0 <= k < toc@.len() ==> tree_wf(#[trigger] toc@[k]),
        decreases rest@.len(),
    {
        let h = rest.remove(0);
        proof {
            assert(h == hs[m]);
            assert(rest@ =~= hs.skip(m + 1));
            assert(tree_wf(h));
            lemma_tops_bounds(hs, m + 1);
        }
        let ghost open_entry = open@;
        let ghost toc_entry = toc@;
        // Close every open heading at the same or a less significant level:
        // each closed one becomes a child of the next outer open heading,
        // or a top-level node when none is left open.
        while open.len() > 0 && h.level <= open[open.len() - 1].level
            invariant
                open@.len() <= open_entry.len(),
                forall|s: int|
                    0 <= s < open@.len() ==> node_of(#[trigger] open@[s]) == node_of(
                        open_entry[s],
                    ),
                forall|k: int| 0 <= k < open@.len() ==> tree_wf(#[trigger] open@[k]),
                forall|k1: int, k2: int|
                    0 <= k1 < k2 < open@.len() ==> (#[trigger] open@[k1]).level < (
                    #[trigger] open@[k2]).level,
                forall|k: int| 0 <= k < toc@.len() ==> tree_wf(#[trigger] toc@[k]),
                open@.len() > 0 ==> toc@ == toc_entry,
                open@.len() == 0 && open_entry.len() > 0 ==> toc@.len() == toc_entry.len() + 1
                    && toc@.take(toc_entry.len() as int) == toc_entry && node_of(toc@.last())
                    == node_of(open_entry[0]),
                open@.len() == 0 && open_entry.len() > 0 ==> h.level <= open_entry[0].level,
                open@.len() == 0 && open_entry.len() == 0 ==> toc@ == toc_entry,
            decreases open@.len(),
        {
            let closed = open.pop().unwrap();
            if open.len() > 0 {
                let mut parent = open.pop().unwrap();
                let ghost old_parent = parent;
                parent.children.push(closed);
                proof {
                    assert forall|i: int| 0 <= i < parent.children@.len() implies (
                    #[trigger] parent.children@[i]).level > parent.level && tree_wf(
                        parent.children@[i],
                    ) by {
                        if i < old_parent.children@.len() {
                            assert(parent.children@[i] == old_parent.children@[i]);
                            assert(tree_wf(old_parent));
                        } else {
                            assert(parent.children@[i] == closed);
                        }
                    }
                    assert(tree_wf(parent));
                }
                open.push(parent);
            } else {
                let ghost pre_toc = toc@;
                toc.push(closed);
                proof {
                    assert(toc@.take(toc_entry.len() as int) =~= toc_entry);
                }
            }
        }
        let at_top = open.len() == 0;
        proof {
            if !at_top {
                assert(node_of(open@[open@.len() - 1]) == node_of(open_entry[open@.len() - 1]));
                assert(exists|j: int|
                    0 <= j < m && hs[j].level == open_entry[open@.len() - 1].level);
            }
        }
        let ghost open_pre = open@;
        open.push(h);
        proof {
            if at_top {
                assert(starts_top_level(hs, m)) by {
                    if open_entry.len() > 0 {
                        assert forall|j: int| 0 <= j < m implies (#[trigger] hs[j]).level
                            >= hs[m].level by {
                            assert(hs[j].level >= open_entry[0].level);
                            assert(hs[m].level <= open_entry[0].level);
                        }
                    }
                }
                assert(tops_upto(hs, m + 1) =~= tops_upto(hs, m) + seq![m]);
                if open_entry.len() > 0 {
                    assert forall|i: int| 0 <= i < toc@.len() implies node_of(
                        #[trigger] toc@[i],
                    ) == node_of(hs[tops_upto(hs, m + 1)[i]]) by {
                        assert(toc@.len() == tops_upto(hs, m).len());
                        assert(tops_upto(hs, m + 1)[i] == tops_upto(hs, m)[i]);
                        if i < toc_entry.len() {
                            assert(toc@[i] == toc@.take(toc_entry.len() as int)[i]);
                            assert(toc@[i] == toc_entry[i]);
                        } else {
                            assert(i == toc_entry.len());
                            assert(node_of(toc@[i]) == node_of(open_entry[0]));
                            assert(i == tops_upto(hs, m).len() - 1);
                        }
                    }
                } else {
                    assert(toc@.len() == 0);
                }
            } else {
                assert(!starts_top_level(hs, m)) by {
                    let w = choose|j: int|
                        0 <= j < m && hs[j].level == open_entry[open_pre.len() - 1].level;
                    assert(hs[w].level == open_pre[open_pre.len() - 1].level);
                    assert(hs[w].level < hs[m].level);
                }
                assert(tops_upto(hs, m + 1) =~= tops_upto(hs, m));
            }
            m = m + 1;
        }
    }
    proof {
        assert(hs.skip(n as int).len() == 0);
    }
    // Close whatever is still open, innermost first.
    let ghost full = tops_upto(hs, n as int);
    while open.len() > 0
        invariant
            toc@.len() + (if open@.len() > 0 {
                1int
            } else {
                0int
            }) == full.len(),
            forall|i: int|
                0 <= i < toc@.len() ==> node_of(#[trigger] toc@[i]) == node_of(hs[full[i]]),
            open@.len() > 0 ==> node_of(open@[0]) == node_of(hs[full[full.len() - 1]]),
            forall|k: int| 0 <= k < open@.len() ==> tree_wf(#[trigger] open@[k]),
            forall|k1: int, k2: int|
                0 <= k1 < k2 < open@.len() ==> (#[trigger] open@[k1]).level < (
                #[trigger] open@[k2]).level,
            forall|k: int| 0 <= k < toc@.len() ==> tree_wf(#[trigger] toc@[k]),
        decreases open@.len(),
    {
        let closed = open.pop().unwrap();
        if open.len() > 0 {
            let mut parent = open.pop().unwrap();
            let ghost old_parent = parent;
            parent.children.push(closed);
            proof {
                assert forall|i: int| 0 <= i < parent.children@.len() implies (
                #[trigger] parent.children@[i]).level > parent.level && tree_wf(
                    parent.children@[i],
                ) by {
                    if i < old_parent.children@.len() {
                        assert(parent.children@[i] == old_parent.children@[i]);
                        assert(tree_wf(old_parent));
                    } else {
                        assert(parent.children@[i] == closed);
                    }
                }
                assert(tree_wf(parent));
            }
            open.push(parent);
        } else {
            toc.push(closed);
        }
    }
    proof {
        lemma_tops_bounds(hs, n as int);
    }
    toc
}

} // verus!
