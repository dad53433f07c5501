//! The template engine, as this crate sees it: an opaque handle that can
//! render a named template with a few string and integer values. Everything
//! here is a thin trusted skin over the tera crate; what a template expands
//! to is the engine's business alone.

use vstd::prelude::*;

use crate::errors::RenderError;

verus! {

#[verifier::external_type_specification]
#[verifier::external_body]
pub struct ExTera(tera::Tera);

#[verifier::external_type_specification]
#[verifier::external_body]
pub struct ExTeraContext(tera::Context);

#[verifier::external_type_specification]
#[verifier::external_body]
pub struct ExTeraError(tera::Error);

/// Relies on tera::Context::new: a fresh, empty render context.
#[verifier::external_body]
pub(crate) fn tera_context_new() -> tera::Context {
    tera::Context::new()
}

/// Relies on tera::Context::insert with a string value; serializing a
/// string cannot fail, so the call cannot panic.
#[verifier::external_body]
pub(crate) fn tera_context_insert_str(c: &mut tera::Context, key: &str, val: &str) {
    c.insert(key, val)
}

/// Relies on tera::Context::insert with an integer value; serializing an
/// integer cannot fail, so the call cannot panic.
#[verifier::external_body]
pub(crate) fn tera_context_insert_u32(c: &mut tera::Context, key: &str, val: u32) {
    c.insert(key, &val)
}

/// Relies on tera::Tera::render: renders the named template with the given
/// context. What comes back is the engine's output alone.
#[verifier::external_body]
pub(crate) fn tera_render(t: &tera::Tera, name: &str, c: &tera::Context) -> Result<
    String,
    tera::Error,
> {
    t.render(name, c)
}

/// Relies on the Display impl of tera::Error for a readable description.
#[verifier::external_body]
pub(crate) fn describe_tera_error(e: &tera::Error) -> String {
    format!("{}", e)
}

/// Renders the anchor-link fragment for one heading through the fixed
/// template, handing it the id, the heading level and the language tag.
/// Failing to render it is fatal to the render.
pub fn render_anchor_link(tera: &tera::Tera, id: &str, level: u32, lang: &str) -> (r: Result<
    String,
    RenderError,
>)
    ensures
        r matches Err(e) ==> e matches RenderError::AnchorTemplateRender { .. },
{
    let mut c = tera_context_new();
    tera_context_insert_str(&mut c, "id", id);
    tera_context_insert_u32(&mut c, "level", level);
    tera_context_insert_str(&mut c, "lang", lang);
    match tera_render(tera, "anchor-link.html", &c) {
        Ok(s) => Ok(s),
        Err(e) => Err(RenderError::AnchorTemplateRender { detail: describe_tera_error(&e) }),
    }
}

} // verus!
