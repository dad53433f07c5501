//! Link classification and rewriting: internal references against the
//! permalink table, bare fragments against the current document, external
//! targets into the link inventory.

use vstd::prelude::*;

use crate::errors::RenderError;
use crate::events::LinkKind;
use crate::strutil::{find_char, has_prefix, str_eq, str_has_prefix};

verus! {

/// Whether a link starts with an HTTP(S) scheme.
pub open spec fn spec_is_external(l: Seq<char>) -> bool {
    has_prefix(l, "http:"@) || has_prefix(l, "https:"@)
}

/// Returns whether a link starts with an HTTP(S) scheme.
pub fn is_external_link(link: &str) -> (r: bool)
    ensures
        r == spec_is_external(link@),
{
    str_has_prefix(link, "http:") || str_has_prefix(link, "https:")
}

/// The site's lookup table from document key to canonical URL. Earlier
/// entries win when a key is repeated.
#[derive(Clone, Debug)]
pub struct PermalinkTable {
    pub entries: Vec<(String, String)>,
}

/// The value for `k` in `entries`, front entries first.
pub open spec fn table_lookup(entries: Seq<(String, String)>, k: Seq<char>) -> Option<Seq<char>>
    decreases entries.len(),
{
    if entries.len() == 0 {
        None
    } else if entries[0].0@ == k {
        Some(entries[0].1@)
    } else {
        table_lookup(entries.drop_first(), k)
    }
}

impl PermalinkTable {
    /// The value this table maps `k` to.
    pub open spec fn spec_get(self, k: Seq<char>) -> Option<Seq<char>> {
        table_lookup(self.entries@, k)
    }

    /// An empty table.
    pub fn new() -> (r: PermalinkTable)
        ensures
            r.entries@.len() == 0,
    {
        PermalinkTable { entries: Vec::new() }
    }

    /// Adds a key and its permalink at the end of the table.
    pub fn insert(&mut self, key: String, permalink: String)
        ensures
            final(self).entries@ == old(self).entries@.push((key, permalink)),
    {
        self.entries.push((key, permalink));
    }

    /// Looks `k` up in the table.
    pub fn get(&self, k: &str) -> (r: Option<&String>)
        ensures
            match r {
                Some(v) => self.spec_get(k@) == Some(v@),
                None => self.spec_get(k@) is None,
            },
    {
        let n = self.entries.len();
        proof {
            assert(self.entries@.skip(0) =~= self.entries@);
        }
        let mut i: usize = 0;
        while i < n
            invariant
                n == self.entries@.len(),
                i <= n,
                table_lookup(self.entries@, k@) == table_lookup(self.entries@.skip(i as int), k@),
        decreases n - i,
        {
            proof {
                assert(self.entries@.skip(i as int).len() > 0);
                assert(self.entries@.skip(i as int)[0] == self.entries@[i as int]);
            }
            if str_eq(self.entries[i].0.as_str(), k) {
                return Some(&self.entries[i].1);
            }
            proof {
                assert(self.entries@.skip(i as int).drop_first() =~= self.entries@.skip(
                    i as int + 1,
                ));
            }
            i += 1;
        }
        proof {
            assert(self.entries@.skip(n as int).len() == 0);
        }
        None
    }
}

/// An internal reference, resolved.
#[derive(Clone, Debug)]
pub struct ResolvedInternalLink {
    /// The canonical URL, with the fragment appended when one was given.
    pub permalink: String,
    /// The document key that was looked up.
    pub md_path: String,
    /// The fragment after the document key, if any.
    pub anchor: Option<String>,
}

/// The reference with the internal marker removed.
pub open spec fn strip_internal_marker(l: Seq<char>) -> Seq<char> {
    if has_prefix(l, "@/"@) {
        l.skip(2)
    } else {
        l
    }
}

/// `i` is where `s` splits into document key and fragment: the first `#`,
/// or the end when there is none.
pub open spec fn hash_split_point(s: Seq<char>, i: int) -> bool {
    &&& 0 <= i <= s.len()
    &&& forall|j: int| 0 <= j < i ==> s[j] != '#'
    &&& i == s.len() || s[i] == '#'
}

/// The index of the first `#` in `s`, or the length of `s` when there is
/// none.
pub open spec fn first_hash(s: Seq<char>) -> int
    decreases s.len(),
{
    if s.len() == 0 {
        0
    } else if s[0] == '#' {
        0
    } else {
        1 + first_hash(s.drop_first())
    }
}

pub proof fn lemma_first_hash(s: Seq<char>)
    ensures
        hash_split_point(s, first_hash(s)),
    decreases s.len(),
{
    if s.len() == 0 {
    } else if s[0] == '#' {
    } else {
        lemma_first_hash(s.drop_first());
        assert forall|j: int| 0 <= j < first_hash(s) implies s[j] != '#' by {
            if j > 0 {
                assert(s.drop_first()[j - 1] == s[j]);
            }
        }
    }
}

/// There is exactly one place where a reference splits into key and
/// fragment.
pub proof fn lemma_hash_split_unique(s: Seq<char>, i: int)
    requires
        hash_split_point(s, i),
    ensures
        i == first_hash(s),
{
    lemma_first_hash(s);
    let f = first_hash(s);
    if i < f {
        assert(s[i] != '#');
    } else if i > f {
        assert(s[f] != '#');
    }
}

/// What resolving an internal reference yields: the looked-up key, the
/// fragment if any, and the rewritten target; nothing when the key is not
/// in the table.
pub open spec fn spec_resolved(link: Seq<char>, entries: Seq<(String, String)>) -> Option<
    (Seq<char>, Option<Seq<char>>, Seq<char>),
> {
    let clean = strip_internal_marker(link);
    let i = first_hash(clean);
    let path = clean.take(i);
    match table_lookup(entries, path) {
        None => None,
        Some(p) => if i == clean.len() {
            Some((path, None, p))
        } else {
            Some((path, Some(clean.skip(i + 1)), p + "#"@ + clean.skip(i + 1)))
        },
    }
}

/// Law: link classification is deterministic. Any two outcomes that meet
/// the resolver's contract for the same reference and table agree on the
/// looked-up key, the fragment, and the rewritten target: classifying the
/// same link twice yields the same result.
pub proof fn lemma_resolve_deterministic(
    link: Seq<char>,
    permalinks: PermalinkTable,
    r1: ResolvedInternalLink,
    r2: ResolvedInternalLink,
)
    requires
        resolve_post(link, permalinks, r1),
        resolve_post(link, permalinks, r2),
    ensures
        r1.md_path@ == r2.md_path@,
        r1.permalink@ == r2.permalink@,
        match (r1.anchor, r2.anchor) {
            (Some(a1), Some(a2)) => a1@ == a2@,
            (None, None) => true,
            _ => false,
        },
{
    let clean = strip_internal_marker(link);
    let i1 = choose|i: int|
        #![auto]
        hash_split_point(clean, i) && r1.md_path@ == clean.take(i) && (if i == clean.len() {
            r1.anchor is None
        } else {
            r1.anchor matches Some(a) && a@ == clean.skip(i + 1)
        });
    let i2 = choose|i: int|
        #![auto]
        hash_split_point(clean, i) && r2.md_path@ == clean.take(i) && (if i == clean.len() {
            r2.anchor is None
        } else {
            r2.anchor matches Some(a) && a@ == clean.skip(i + 1)
        });
    lemma_hash_split_unique(clean, i1);
    lemma_hash_split_unique(clean, i2);
}

/// What the resolver promises of a successful outcome, as one predicate,
/// so that the determinism law can speak of two outcomes at once.
pub open spec fn resolve_post(
    link: Seq<char>,
    permalinks: PermalinkTable,
    res: ResolvedInternalLink,
) -> bool {
    &&& exists|i: int|
        #![auto]
        hash_split_point(strip_internal_marker(link), i) && res.md_path@ == strip_internal_marker(
            link,
        ).take(i) && (if i == strip_internal_marker(link).len() {
            res.anchor is None
        } else {
            res.anchor matches Some(a) && a@ == strip_internal_marker(link).skip(i + 1)
        })
    &&& match res.anchor {
        None => permalinks.spec_get(res.md_path@) == Some(res.permalink@),
        Some(a) => permalinks.spec_get(res.md_path@) matches Some(p) && res.permalink@ == p + "#"@
            + a@,
    }
}

/// Resolves a reference of the form `@/key#fragment` (marker and fragment
/// optional) against the permalink table. Fails exactly when the key is not
/// in the table.
pub fn resolve_internal_link(link: &str, permalinks: &PermalinkTable) -> (r: Result<
    ResolvedInternalLink,
    RenderError,
>)
    ensures
        match r {
            Ok(res) => {
                &&& exists|i: int|
                    #![auto]
                    hash_split_point(strip_internal_marker(link@), i) && res.md_path@
                        == strip_internal_marker(link@).take(i) && (if i == strip_internal_marker(
                        link@,
                    ).len() {
                        res.anchor is None
                    } else {
                        res.anchor matches Some(a) && a@ == strip_internal_marker(link@).skip(i + 1)
                    })
                &&& match res.anchor {
                    None => permalinks.spec_get(res.md_path@) == Some(res.permalink@),
                    Some(a) => permalinks.spec_get(res.md_path@) matches Some(p) && res.permalink@
                        == p + "#"@ + a@,
                }
            },
            Err(e) => {
                &&& e matches RenderError::BrokenInternalLink(l) && l@ == link@
                &&& exists|i: int|
                    #![auto]
                    hash_split_point(strip_internal_marker(link@), i) && permalinks.spec_get(
                        strip_internal_marker(link@).take(i),
                    ) is None
            },
        },
{
    let clean: &str = if str_has_prefix(link, "@/") {
        proof {
            reveal_strlit("@/");
        }
        link.substring_char(2, link.unicode_len())
    } else {
        link
    };
    proof {
        assert(clean@ =~= strip_internal_marker(link@));
    }
    let clen = clean.unicode_len();
    let hash_idx = find_char(clean, '#');
    let (path, anchor): (&str, Option<&str>) = match hash_idx {
        Some(i) => (clean.substring_char(0, i), Some(clean.substring_char(i + 1, clen))),
        None => (clean, None),
    };
    proof {
        assert(clean@.take(clen as int) =~= clean@);
        match hash_idx {
            Some(i) => {
                assert(hash_split_point(clean@, i as int));
                assert(path@ =~= clean@.take(i as int));
            },
            None => {
                assert(hash_split_point(clean@, clen as int));
            },
        }
    }
    match permalinks.get(path) {
        Some(p) => {
            match anchor {
                Some(a) => {
                    let mut permalink = p.clone();
                    permalink.append("#");
                    permalink.append(a);
                    proof {
                        reveal_strlit("#");
                        assert(permalink@ =~= p@ + "#"@ + a@);
                    }
                    Ok(ResolvedInternalLink {
                        permalink,
                        md_path: path.to_owned(),
                        anchor: Some(a.to_owned()),
                    })
                },
                None => Ok(ResolvedInternalLink {
                    permalink: p.clone(),
                    md_path: path.to_owned(),
                    anchor: None,
                }),
            }
        },
        None => Err(RenderError::BrokenInternalLink(link.to_owned())),
    }
}

/// Classifies and rewrites one link target, recording it in the proper
/// inventory. Pure in the link string and the context values: the same
/// inputs always classify the same way.
///
/// Email links pass through. An internal reference resolves through the
/// permalink table or fails the render. An external target is inventoried
/// and passes through. A bare fragment resolves against the current
/// document when one is known. Anything else passes through unrecorded.
pub fn fix_link(
    link_type: LinkKind,
    link: &str,
    permalinks: &PermalinkTable,
    current_page_path: Option<&String>,
    current_page_permalink: &str,
    internal_links: &mut Vec<(String, Option<String>)>,
    external_links: &mut Vec<String>,
) -> (r: Result<String, RenderError>)
    ensures
        link_type == LinkKind::Email ==> (r matches Ok(l) && l@ == link@ && final(internal_links)@
            == old(internal_links)@ && final(external_links)@ == old(external_links)@),
        link_type != LinkKind::Email && has_prefix(link@, "@/"@) ==> match r {
            Ok(l) => {
                &&& exists|i: int|
                    #![auto]
                    {
                        &&& hash_split_point(strip_internal_marker(link@), i)
                        &&& final(internal_links)@.last().0@ == strip_internal_marker(link@).take(
                            i,
                        )
                        &&& permalinks.spec_get(strip_internal_marker(link@).take(i)) matches Some(
                            p,
                        )
                        &&& match final(internal_links)@.last().1 {
                            Some(a) => i < strip_internal_marker(link@).len() && a@
                                == strip_internal_marker(link@).skip(i + 1) && l@ == p + "#"@ + a@,
                            None => i == strip_internal_marker(link@).len() && l@ == p,
                        }
                    }
                &&& final(internal_links)@.len() == old(internal_links)@.len() + 1
                &&& final(internal_links)@.take(old(internal_links)@.len() as int) == old(internal_links)@
                &&& final(external_links)@ == old(external_links)@
            },
            Err(e) => e matches RenderError::BrokenInternalLink(l) && l@ == link@ && final(internal_links)@ == old(internal_links)@ && final(external_links)@ == old(external_links)@ && exists|i: int|
                #![auto]
                hash_split_point(strip_internal_marker(link@), i) && permalinks.spec_get(
                    strip_internal_marker(link@).take(i),
                ) is None,
        },
        link_type != LinkKind::Email && !has_prefix(link@, "@/"@) && spec_is_external(link@) ==> (r
            matches Ok(l) && l@ == link@ && final(external_links)@.len() == old(external_links)@.len() + 1 && final(external_links)@.take(old(external_links)@.len() as int) == old(external_links)@ && final(external_links)@.last()@ == link@ && final(internal_links)@ == old(internal_links)@),
        link_type != LinkKind::Email && !has_prefix(link@, "@/"@) && !spec_is_external(link@)
            && has_prefix(link@, "#"@) ==> match r {
            Ok(l) => match current_page_path {
                Some(p) => {
                    &&& l@ == current_page_permalink@ + link@
                    &&& final(internal_links)@.len() == old(internal_links)@.len() + 1
                    &&& final(internal_links)@.take(old(internal_links)@.len() as int) == old(internal_links)@
                    &&& final(internal_links)@.last().0@ == p@
                    &&& final(internal_links)@.last().1 matches Some(a) && a@ == link@.skip(1)
                    &&& final(external_links)@ == old(external_links)@
                },
                None => l@ == link@ && final(internal_links)@ == old(internal_links)@ && final(external_links)@ == old(external_links)@,
            },
            Err(_) => false,
        },
        link_type != LinkKind::Email && !has_prefix(link@, "@/"@) && !spec_is_external(link@)
            && !has_prefix(link@, "#"@) ==> (r matches Ok(l) && l@ == link@ && final(internal_links)@ == old(internal_links)@ && final(external_links)@ == old(external_links)@),
{
    if link_type == LinkKind::Email {
        return Ok(link.to_owned());
    }
    if str_has_prefix(link, "@/") {
        match resolve_internal_link(link, permalinks) {
            Ok(resolved) => {
                internal_links.push((resolved.md_path, resolved.anchor));
                proof {
                    assert(final(internal_links)@.take(old(internal_links)@.len() as int)
                        =~= old(internal_links)@);
                }
                Ok(resolved.permalink)
            },
            Err(e) => Err(e),
        }
    } else if is_external_link(link) {
        external_links.push(link.to_owned());
        proof {
            assert(final(external_links)@.take(old(external_links)@.len() as int)
                =~= old(external_links)@);
        }
        Ok(link.to_owned())
    } else if str_has_prefix(link, "#") {
        match current_page_path {
            Some(current_path) => {
                proof {
                    reveal_strlit("#");
                }
                let anchor = link.substring_char(1, link.unicode_len());
                internal_links.push((current_path.clone(), Some(anchor.to_owned())));
                let mut l = current_page_permalink.to_owned();
                l.append(link);
                proof {
                    assert(final(internal_links)@.take(old(internal_links)@.len() as int)
                        =~= old(internal_links)@);
                }
                Ok(l)
            },
            None => Ok(link.to_owned()),
        }
    } else {
        Ok(link.to_owned())
    }
}

} // verus!
