use vstd::prelude::*;
use crate::paragraphs::ParagraphType;

verus! {

/// The HTML the markdown converter produces for the given source text.
pub uninterp spec fn md_html_of(s: Seq<char>) -> Seq<char>;

/// Relies on markdown's `to_html`: the conversion is a pure function of
/// the source text alone.
#[verifier::external_body]
pub(crate) fn markdown_to_html(s: &str) -> (r: String)
    ensures
        r@ == md_html_of(s@),
{
    markdown::to_html(s)
}

/// The rendered form a paragraph of the given type gets at read time:
/// markdown source is converted to HTML; any other type passes through
/// with no rendered form, and the consumer falls back to the raw content.
pub open spec fn render_spec(content: Seq<char>, t: ParagraphType) -> Option<Seq<char>> {
    match t {
        ParagraphType::Markdown => Some(md_html_of(content)),
        ParagraphType::Html => None,
    }
}

/// Render-on-read: a deterministic, side-effect-free transform from raw
/// source and declared type to the optional display HTML.
pub fn render(content: &str, paragraph_type: &ParagraphType) -> (r: Option<String>)
    ensures
        match r {
            Some(h) => render_spec(content@, *paragraph_type) == Some(h@),
            None => render_spec(content@, *paragraph_type) is None,
        },
{
    match paragraph_type {
        ParagraphType::Markdown => Some(markdown_to_html(content)),
        ParagraphType::Html => None,
    }
}

} // verus!
