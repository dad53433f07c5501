//! The markup configuration: which rendering options are active, and the
//! literal anchor tag written for decorated external links.

use vstd::prelude::*;

verus! {

/// How headings and their content are wrapped into structural blocks.
#[derive(Clone, Copy, PartialEq, Eq, Structural, Debug)]
pub enum SectionTagsMode {
    Hierarchical,
    Flat,
}

/// The active Markdown rendering options.
#[derive(Clone, Debug)]
pub struct Markdown {
    /// Whether fenced code blocks are highlighted.
    pub highlight_code: bool,
    /// The name of the highlight theme to use.
    pub highlight_theme: String,
    /// Whether emoji aliases are substituted in text.
    pub render_emoji: bool,
    /// Whether external links open in a new tab; implies `rel="noopener"`.
    pub external_links_target_blank: bool,
    /// Whether external links carry `rel="nofollow"`.
    pub external_links_no_follow: bool,
    /// Whether external links carry `rel="noreferrer"`.
    pub external_links_no_referrer: bool,
    /// Whether quotes, dashes and dots take their typographic form.
    pub smart_punctuation: bool,
    /// Directories searched for additional syntax definitions.
    pub extra_syntaxes: Vec<String>,
    /// Directories searched for additional highlight themes.
    pub extra_highlight_themes: Vec<String>,
    /// Whether and how sections are wrapped into structural tags.
    pub render_with_section_tags: Option<SectionTagsMode>,
}

/// The space-joined `rel` clauses for the given link-decoration flags, in
/// the fixed order noopener, nofollow, noreferrer.
pub open spec fn rel_clauses(tb: bool, nf: bool, nr: bool) -> Seq<char> {
    if tb && nf && nr {
        "noopener nofollow noreferrer"@
    } else if tb && nf {
        "noopener nofollow"@
    } else if tb && nr {
        "noopener noreferrer"@
    } else if tb {
        "noopener"@
    } else if nf && nr {
        "nofollow noreferrer"@
    } else if nf {
        "nofollow"@
    } else if nr {
        "noreferrer"@
    } else {
        Seq::empty()
    }
}

/// The `rel="…" ` attribute group, absent when no flag asks for it.
pub open spec fn rel_attr(tb: bool, nf: bool, nr: bool) -> Seq<char> {
    if tb || nf || nr {
        "rel=\""@ + rel_clauses(tb, nf, nr) + "\" "@
    } else {
        Seq::empty()
    }
}

/// The `target="_blank" ` attribute group, present only for target-blank.
pub open spec fn target_attr(tb: bool) -> Seq<char> {
    if tb {
        "target=\"_blank\" "@
    } else {
        Seq::empty()
    }
}

/// The `title="…" ` attribute group, absent for an empty title.
pub open spec fn title_attr(title: Seq<char>) -> Seq<char> {
    if title.len() == 0 {
        Seq::empty()
    } else {
        "title=\""@ + title + "\" "@
    }
}

/// The literal anchor tag written for a decorated external link: attribute
/// groups in fixed order, each omitted entirely when not applicable.
pub open spec fn external_link_tag(
    tb: bool,
    nf: bool,
    nr: bool,
    url: Seq<char>,
    title: Seq<char>,
) -> Seq<char> {
    "<a "@ + rel_attr(tb, nf, nr) + target_attr(tb) + title_attr(title) + "href=\""@ + url
        + "\">"@
}

fn rel_clauses_str(tb: bool, nf: bool, nr: bool) -> (r: &'static str)
    ensures
        r@ == rel_clauses(tb, nf, nr),
{
    if tb && nf && nr {
        "noopener nofollow noreferrer"
    } else if tb && nf {
        "noopener nofollow"
    } else if tb && nr {
        "noopener noreferrer"
    } else if tb {
        "noopener"
    } else if nf && nr {
        "nofollow noreferrer"
    } else if nf {
        "nofollow"
    } else if nr {
        "noreferrer"
    } else {
        proof {
            reveal_strlit("");
        }
        ""
    }
}

impl Markdown {
    /// Whether any external-link decoration option is enabled.
    pub fn has_external_link_tweaks(&self) -> (r: bool)
        ensures
            r == (self.external_links_target_blank || self.external_links_no_follow
                || self.external_links_no_referrer),
    {
        self.external_links_target_blank || self.external_links_no_follow
            || self.external_links_no_referrer
    }

    /// Builds the literal anchor tag for a decorated external link. The
    /// caller passes the URL already escaped for an href position.
    pub fn construct_external_link_tag(&self, url: &str, title: &str) -> (r: String)
        ensures
            r@ == external_link_tag(
                self.external_links_target_blank,
                self.external_links_no_follow,
                self.external_links_no_referrer,
                url@,
                title@,
            ),
    {
        proof {
            reveal_strlit("<a ");
            reveal_strlit("rel=\"");
            reveal_strlit("\" ");
            reveal_strlit("target=\"_blank\" ");
            reveal_strlit("title=\"");
            reveal_strlit("href=\"");
            reveal_strlit("\">");
        }
        let tb = self.external_links_target_blank;
        let nf = self.external_links_no_follow;
        let nr = self.external_links_no_referrer;
        let mut r = String::new();
        r.append("<a ");
        if tb || nf || nr {
            r.append("rel=\"");
            r.append(rel_clauses_str(tb, nf, nr));
            r.append("\" ");
        }
        proof {
            assert(r@ =~= "<a "@ + rel_attr(tb, nf, nr));
        }
        if tb {
            r.append("target=\"_blank\" ");
        }
        proof {
            assert(r@ =~= "<a "@ + rel_attr(tb, nf, nr) + target_attr(tb));
        }
        if !title.is_empty() {
            r.append("title=\"");
            r.append(title);
            r.append("\" ");
        }
        proof {
            assert(r@ =~= "<a "@ + rel_attr(tb, nf, nr) + target_attr(tb) + title_attr(title@));
        }
        r.append("href=\"");
        r.append(url);
        r.append("\">");
        proof {
            assert(r@ =~= external_link_tag(tb, nf, nr, url@, title@));
        }
        r
    }
}

impl Default for Markdown {
    /// All options off, the default highlight theme, no extra directories.
    fn default() -> (r: Markdown)
        ensures
            !r.highlight_code,
            r.highlight_theme@ == "base16-ocean-dark"@,
            !r.render_emoji,
            !r.external_links_target_blank,
            !r.external_links_no_follow,
            !r.external_links_no_referrer,
            !r.smart_punctuation,
            r.extra_syntaxes@ =~= Seq::<String>::empty(),
            r.extra_highlight_themes@ =~= Seq::<String>::empty(),
            r.render_with_section_tags is None,
    {
        Markdown {
            highlight_code: false,
            highlight_theme: "base16-ocean-dark".to_owned(),
            render_emoji: false,
            external_links_target_blank: false,
            external_links_no_follow: false,
            external_links_no_referrer: false,
            smart_punctuation: false,
            extra_syntaxes: Vec::new(),
            extra_highlight_themes: Vec::new(),
            render_with_section_tags: None,
        }
    }
}

} // verus!
