//! The highlight dispatcher: choosing a grammar source and a theme for a
//! fenced code block. The grammar and theme registries come from the
//! syntect crate and are opaque here; what is verified is which registry a
//! language token resolves through, and when theme selection can fail.

use vstd::prelude::*;

use crate::errors::RenderError;
use crate::markup::Markdown;

verus! {

#[verifier::external_type_specification]
#[verifier::external_body]
pub struct ExSyntaxSet(syntect::parsing::SyntaxSet);

#[verifier::external_type_specification]
#[verifier::external_body]
pub struct ExSyntaxReference(syntect::parsing::SyntaxReference);

#[verifier::external_type_specification]
#[verifier::external_body]
pub struct ExThemeSet(syntect::highlighting::ThemeSet);

#[verifier::external_type_specification]
#[verifier::external_body]
pub struct ExTheme(syntect::highlighting::Theme);

#[verifier::external_type_specification]
#[verifier::external_body]
pub struct ExHighlightLines<'a>(syntect::easy::HighlightLines<'a>);

#[verifier::external_type_specification]
#[verifier::external_body]
pub struct ExSyntectError(syntect::Error);

/// Whether the theme set holds a theme under this name.
pub uninterp spec fn theme_known(ts: syntect::highlighting::ThemeSet, name: Seq<char>) -> bool;

/// Whether the syntax set resolves this language token to a grammar.
pub uninterp spec fn syntax_known(ss: syntect::parsing::SyntaxSet, token: Seq<char>) -> bool;

/// Relies on the public `themes` map of syntect's ThemeSet: a lookup by
/// theme name.
#[verifier::external_body]
pub(crate) fn theme_set_get<'a>(
    ts: &'a syntect::highlighting::ThemeSet,
    name: &str,
) -> (r: Option<&'a syntect::highlighting::Theme>)
    ensures
        r is Some <==> theme_known(*ts, name@),
{
    ts.themes.get(name)
}

/// Relies on SyntaxSet::find_syntax_by_token: a lookup by file extension,
/// then by case-insensitive name.
#[verifier::external_body]
pub(crate) fn find_syntax<'a>(
    ss: &'a syntect::parsing::SyntaxSet,
    token: &str,
) -> (r: Option<&'a syntect::parsing::SyntaxReference>)
    ensures
        r is Some <==> syntax_known(*ss, token@),
{
    ss.find_syntax_by_token(token)
}

/// Whether the syntax set ships the plain-text grammar.
pub uninterp spec fn has_plain_text_syntax(ss: syntect::parsing::SyntaxSet) -> bool;

/// Relies on SyntaxSet::load_defaults_newlines: the grammar registry baked
/// into the crate, which ships the plain-text grammar.
#[verifier::external_body]
pub fn load_builtin_syntaxes() -> (r: syntect::parsing::SyntaxSet)
    ensures
        has_plain_text_syntax(r),
{
    syntect::parsing::SyntaxSet::load_defaults_newlines()
}

/// Relies on ThemeSet::load_defaults: the theme registry baked into the
/// crate.
#[verifier::external_body]
pub fn load_builtin_themes() -> syntect::highlighting::ThemeSet {
    syntect::highlighting::ThemeSet::load_defaults()
}

/// Relies on SyntaxSet::find_syntax_plain_text, which asks for a set that
/// ships the plain-text grammar and would not return without one.
#[verifier::external_body]
pub(crate) fn plain_text_syntax<'a>(
    ss: &'a syntect::parsing::SyntaxSet,
) -> &'a syntect::parsing::SyntaxReference
    requires
        has_plain_text_syntax(*ss),
{
    ss.find_syntax_plain_text()
}

/// Relies on HighlightLines::new: a fresh highlighter session over the
/// given grammar and theme.
#[verifier::external_body]
pub(crate) fn new_highlight_lines<'a>(
    syntax: &syntect::parsing::SyntaxReference,
    theme: &'a syntect::highlighting::Theme,
) -> syntect::easy::HighlightLines<'a> {
    syntect::easy::HighlightLines::new(syntax, theme)
}

/// Relies on HighlightLines::highlight_line to style one fragment and on
/// styled_line_to_highlighted_html to write the styled spans as markup.
#[verifier::external_body]
pub(crate) fn highlight_fragment<'a>(
    hl: &mut syntect::easy::HighlightLines<'a>,
    ss: &syntect::parsing::SyntaxSet,
    text: &str,
) -> Result<String, syntect::Error> {
    let regions = hl.highlight_line(text, ss)?;
    syntect::html::styled_line_to_highlighted_html(
        &regions,
        syntect::html::IncludeBackground::No,
    )
}

/// The grammar and theme registries a render works against: the built-in
/// sets, and the optional supplementary sets loaded at site setup.
pub struct HighlightRegistries {
    pub builtin_syntaxes: syntect::parsing::SyntaxSet,
    pub builtin_themes: syntect::highlighting::ThemeSet,
    pub extra_syntaxes: Option<syntect::parsing::SyntaxSet>,
    pub extra_themes: Option<syntect::highlighting::ThemeSet>,
}

/// Where a grammar was found: the supplementary registry, the built-in one,
/// the deliberate plain-text fallback for an absent language token, or the
/// plain-text fallback for a token no registry knows.
pub enum SyntaxSource {
    BuiltIn,
    Extra,
    Plain,
    NotFound,
}

impl SyntaxSource {
    /// The syntax set this source resolves through: the supplementary set
    /// for `Extra`, the built-in set for everything else.
    pub fn syntax_set<'r>(&self, regs: &'r HighlightRegistries) -> (r: &'r syntect::parsing::SyntaxSet)
        requires
            self matches SyntaxSource::Extra ==> regs.extra_syntaxes is Some,
        ensures
            match self {
                SyntaxSource::Extra => Some(*r) == regs.extra_syntaxes,
                _ => *r == regs.builtin_syntaxes,
            },
    {
        match self {
            SyntaxSource::Extra => regs.extra_syntaxes.as_ref().unwrap(),
            _ => &regs.builtin_syntaxes,
        }
    }
}

/// Whether the configured highlight theme can be resolved at all.
pub open spec fn theme_available(config: Markdown, regs: HighlightRegistries) -> bool {
    theme_known(regs.builtin_themes, config.highlight_theme@) || (regs.extra_themes matches Some(
        t,
    ) && theme_known(t, config.highlight_theme@))
}

/// The legacy language-name normalization: a couple of JavaScript tokens
/// are looked up as their superset syntax.
pub open spec fn normalized_token(l: Seq<char>) -> Seq<char> {
    if l == "js"@ || l == "javascript"@ {
        "ts"@
    } else {
        l
    }
}

impl Markdown {
    /// Gets the configured highlight theme, preferring the built-in theme
    /// registry over the supplementary one. The returned theme is opaque
    /// here, so the built-in-first preference is enforced by this body
    /// alone and is not part of the contract.
    pub fn get_highlight_theme<'r>(&self, regs: &'r HighlightRegistries) -> (r: &'r syntect::highlighting::Theme)
        requires
            theme_available(*self, *regs),
    {
        match theme_set_get(&regs.builtin_themes, self.highlight_theme.as_str()) {
            Some(t) => t,
            None => theme_set_get(
                regs.extra_themes.as_ref().unwrap(),
                self.highlight_theme.as_str(),
            ).unwrap(),
        }
    }

    /// Checks at configuration time that the configured highlight theme is
    /// in one of the theme registries; an unresolvable name is fatal to
    /// site setup, not to an individual render.
    pub fn validate_highlight_theme(&self, regs: &HighlightRegistries) -> (r: Result<
        (),
        RenderError,
    >)
        ensures
            r is Ok <==> theme_available(*self, *regs),
            r matches Err(e) ==> e matches RenderError::ThemeNotFound { theme } && theme@
                == self.highlight_theme@,
    {
        match theme_set_get(&regs.builtin_themes, self.highlight_theme.as_str()) {
            Some(_) => Ok(()),
            None => match &regs.extra_themes {
                Some(extra) => match theme_set_get(extra, self.highlight_theme.as_str()) {
                    Some(_) => Ok(()),
                    None => Err(RenderError::ThemeNotFound { theme: self.highlight_theme.clone() }),
                },
                None => Err(RenderError::ThemeNotFound { theme: self.highlight_theme.clone() }),
            },
        }
    }
}

/// Picks the highlighter for a code block: a grammar from the supplementary
/// registry when one matches, else from the built-in registry under the
/// normalized token, else the plain-text grammar; and reports which of
/// those happened, telling the deliberate plain-text fallback for a missing
/// token apart from an unknown one.
pub fn get_highlighter<'r>(
    language: Option<&str>,
    config: &Markdown,
    regs: &'r HighlightRegistries,
) -> (r: (syntect::easy::HighlightLines<'r>, SyntaxSource))
    requires
        theme_available(*config, *regs),
        has_plain_text_syntax(regs.builtin_syntaxes),
    ensures
        match language {
            None => r.1 matches SyntaxSource::Plain,
            Some(l) => {
                if regs.extra_syntaxes matches Some(extra) && syntax_known(extra, l@) {
                    r.1 matches SyntaxSource::Extra
                } else if syntax_known(regs.builtin_syntaxes, normalized_token(l@)) {
                    r.1 matches SyntaxSource::BuiltIn
                } else {
                    r.1 matches SyntaxSource::NotFound
                }
            },
        },
{
    let theme = config.get_highlight_theme(regs);
    match language {
        Some(lang) => {
            let from_extra = match &regs.extra_syntaxes {
                Some(extra) => find_syntax(extra, lang),
                None => None,
            };
            match from_extra {
                Some(syntax) => (new_highlight_lines(syntax, theme), SyntaxSource::Extra),
                None => {
                    let hacked_lang = if crate::strutil::str_eq(lang, "js")
                        || crate::strutil::str_eq(lang, "javascript") {
                        "ts"
                    } else {
                        lang
                    };
                    proof {
                        assert(hacked_lang@ == normalized_token(lang@));
                    }
                    match find_syntax(&regs.builtin_syntaxes, hacked_lang) {
                        Some(syntax) => (
                            new_highlight_lines(syntax, theme),
                            SyntaxSource::BuiltIn,
                        ),
                        None => (
                            new_highlight_lines(plain_text_syntax(&regs.builtin_syntaxes), theme),
                            SyntaxSource::NotFound,
                        ),
                    }
                },
            }
        },
        None => (
            new_highlight_lines(plain_text_syntax(&regs.builtin_syntaxes), theme),
            SyntaxSource::Plain,
        ),
    }
}

} // verus!
