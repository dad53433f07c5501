//! The errors a render can end in.

use vstd::prelude::*;

verus! {

/// Everything that can go wrong while rendering one document, plus the one
/// configuration-time failure (an unknown highlight theme).
#[derive(Clone, Debug)]
pub enum RenderError {
    /// A link token carried an empty target. Recorded while the pass goes
    /// on with a placeholder target, and reported when the pass is done.
    MissingLinkUrl,
    /// An internal reference that the permalink table does not know. Carries
    /// the offending link as written.
    BrokenInternalLink(String),
    /// The template engine failed to render a macro call. Carries the name
    /// of the failing call and the engine's description of the failure.
    ShortcodeRender { name: String, detail: String },
    /// The template engine failed to render the anchor-link fragment.
    AnchorTemplateRender { detail: String },
    /// The configured highlight theme is in none of the theme registries.
    ThemeNotFound { theme: String },
}

} // verus!
