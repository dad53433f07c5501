//! The content-rendering core of a static site: Markdown parse events in,
//! final HTML events out, with macro splicing, heading anchors, a table of
//! contents, section wrapping, link resolution and highlight dispatch.

pub mod errors;
pub mod events;
pub mod headings;
pub mod highlighting;
pub mod links;
pub mod markdown;
pub mod markup;
pub mod sections;
pub mod shortcode;
pub mod strutil;
pub mod templates;
pub mod toc;
