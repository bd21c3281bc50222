//! The render adapter: wraps the external diagram renderer and normalizes
//! its result into a success/error outcome. Successful output is sanitized
//! of blank lines; a failure is wrapped into a visible HTML fragment.
use crate::text::blank_line_remover;
use crate::text::error_format;
use crate::text::error_html;
use crate::text::sanitize;
use vstd::prelude::*;

verus! {

/// The outcome of rendering one marked node's content.
#[derive(Debug, PartialEq, Eq)]
pub enum TransformResult {
    /// sanitized vector markup, ready to embed or write out
    Svg(String),
    /// a formatted HTML error fragment describing the failure
    Error(String),
}

/// What the external renderer returns for the marked content `s`: the
/// rendered vector markup, or the renderer's error message.
pub uninterp spec fn svgdx_transform(s: Seq<char>) -> Result<Seq<char>, Seq<char>>;

/// Relies on svgdx::transform_str_default: transforms the input with the
/// default configuration, under which the result is a function of the
/// input text alone (the random seed is fixed and the generator portable,
/// and combined error reports are sorted before they are formatted).
#[verifier::external_body]
fn transform_source(s: &str) -> (r: Result<String, String>)
    ensures
        r is Ok <==> svgdx_transform(s@) is Ok,
        r matches Ok(out) ==> out@ == svgdx_transform(s@)->Ok_0,
        r matches Err(msg) ==> msg@ == svgdx_transform(s@)->Err_0,
{
    match svgdx::transform_str_default(s) {
        Ok(out) => Ok(out),
        Err(e) => Err(e.to_string()),
    }
}

/// Whether `r` is the outcome owed for rendering content `s`: the
/// sanitized markup when the render succeeds, the formatted error
/// fragment when it fails.
pub open spec fn is_render_outcome(r: TransformResult, s: Seq<char>) -> bool {
    match svgdx_transform(s) {
        Ok(svg) => r matches TransformResult::Svg(t) && t@ == sanitize(svg),
        Err(e) => r matches TransformResult::Error(t) && t@ == error_html(e),
    }
}

/// Render marked content through the external renderer: on success the
/// markup is sanitized of blank lines, on failure the error message is
/// wrapped into a visible HTML fragment.
pub fn svgdx_handler(s: &str) -> (r: TransformResult)
    ensures
        is_render_outcome(r, s@),
{
    match transform_source(s) {
        Ok(out) => TransformResult::Svg(blank_line_remover(out.as_str())),
        Err(e) => TransformResult::Error(error_format(e.as_str())),
    }
}

} // verus!
