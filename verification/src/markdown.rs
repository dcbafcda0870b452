//! Markdown to HTML.

use vstd::prelude::*;

verus! {

/// The HTML that the Markdown text stands for.
pub uninterp spec fn markdown_html(text: Seq<char>) -> Seq<char>;

/// `markdown::to_html_with_options`, with GitHub's extensions and math on,
/// single tildes and single dollars accepted, MDX off, and raw HTML and any
/// link protocol let through: the author's own text is trusted. The result
/// depends on `text` alone. Without MDX the conversion has no error to
/// return.
#[verifier::external_body]
pub(crate) fn to_html(text: &str) -> (html: String)
    ensures
        html@ == markdown_html(text@),
{
    let constructs = markdown::Constructs {
        attention: true, autolink: true, definition: true, html_flow: true, html_text: true,
        math_flow: true, math_text: true, ..markdown::Constructs::gfm()
    };
    let parse = markdown::ParseOptions {
        constructs, gfm_strikethrough_single_tilde: true, math_text_single_dollar: true,
        mdx_esm_parse: None, mdx_expression_parse: None,
    };
    let compile = markdown::CompileOptions {
        allow_dangerous_html: true, allow_dangerous_protocol: true, ..markdown::CompileOptions::default()
    };
    markdown::to_html_with_options(text, &markdown::Options { parse, compile }).unwrap_or_default()
}

} // verus!
