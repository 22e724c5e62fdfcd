//! Markdown rendered to HTML.
//!
//! Notes are written in CommonMark with four extensions: strikethrough,
//! tables, task lists and footnotes.

use vstd::prelude::*;

verus! {

/// The HTML that the renderer makes of `markdown` with the given extensions
/// switched on or off.
pub uninterp spec fn rendered_markdown(
    markdown: Seq<char>,
    strikethrough: bool,
    tables: bool,
    tasklists: bool,
    footnotes: bool,
) -> Seq<char>;

/// Calls `html::push_html` of the crate `pulldown_cmark` on an empty string
/// and a `Parser::new_ext` over `markdown`, with options in which exactly
/// the given extensions are set. The call reads nothing else, so its result
/// is named by [`rendered_markdown`].
#[verifier::external_body]
fn render(
    markdown: &str,
    strikethrough: bool,
    tables: bool,
    tasklists: bool,
    footnotes: bool,
) -> (html: String)
    ensures
        html@ == rendered_markdown(markdown@, strikethrough, tables, tasklists, footnotes),
{
    let mut options = pulldown_cmark::Options::empty();
    options.set(pulldown_cmark::Options::ENABLE_STRIKETHROUGH, strikethrough);
    options.set(pulldown_cmark::Options::ENABLE_TABLES, tables);
    options.set(pulldown_cmark::Options::ENABLE_TASKLISTS, tasklists);
    options.set(pulldown_cmark::Options::ENABLE_FOOTNOTES, footnotes);
    let mut html = String::new();
    pulldown_cmark::html::push_html(&mut html, pulldown_cmark::Parser::new_ext(markdown, options));
    html
}

/// The HTML of a note's content: its Markdown rendered with strikethrough,
/// tables, task lists and footnotes.
pub open spec fn note_html(markdown: Seq<char>) -> Seq<char> {
    rendered_markdown(markdown, true, true, true, true)
}

/// Renders the Markdown of a note to HTML.
pub fn markdown_to_html(markdown: &str) -> (html: String)
    ensures
        html@ == note_html(markdown@),
{
    render(markdown, true, true, true, true)
}

} // verus!
