//! Rendering support for a quotation: the reflowed (wrapped, indented)
//! rendering with its highlight positions, and the unwrapped rendering with
//! its highlight range.

use vstd::prelude::*;
use crate::align::{wrapped_highlights, wrapped_highlights_of, find_phrase, matches_at, has_match};
use crate::record::QuoteRecord;
use crate::text::{canon, canon_chars, chars_of, normalize_apostrophe, normalize_chars,
    restore_apostrophe, restore_chars};

verus! {

/// What textwrap makes of a text at a given width: the reflowed rendering,
/// a function of the text and the width alone.
pub uninterp spec fn wrapped_rendering(text: Seq<char>, width: int) -> Seq<char>;

/// Relies on textwrap::fill: reflows `text` into lines at most `width`
/// columns wide, with a two-space initial indent and a four-space hanging
/// indent, joined by single newlines. The result depends on the text and
/// the width alone.
#[verifier::external_body]
fn fill_indented(text: &Vec<char>, width: usize) -> (r: String)
    ensures
        r@ == wrapped_rendering(text@, width as int),
{
    let s: String = text.iter().collect();
    let opts = textwrap::Options::new(width).initial_indent("  ").subsequent_indent("    ");
    textwrap::fill(&s, opts)
}

/// The alignment of the exact-substring variant failed: the context phrase
/// does not occur verbatim (case-insensitively) in the quotation, a
/// data-integrity violation of the corpus.
#[derive(Debug, Clone, Copy, PartialEq, Eq, Structural)]
pub enum AlignmentError {
    NotFound,
}

impl QuoteRecord {
    /// The wrapped rendering of this record's quotation: the quotation,
    /// apostrophe-normalized, reflowed to `width` columns.
    pub open spec fn rendering(self, width: int) -> Seq<char> {
        wrapped_rendering(self.quote@.map_values(|c: char| normalize_apostrophe(c)), width)
    }

    /// This record's context phrase in canonical (apostrophe-normalized,
    /// lowercased) form.
    pub open spec fn canon_context(self) -> Seq<char> {
        self.context@.map_values(|c: char| canon(c))
    }

    /// The wrapped presentation of this record: the display text (the
    /// rendering with apostrophes restored to their typographic form, one
    /// character for one) and the highlight positions that the wrapped
    /// alignment scan finds for the context phrase in the rendering.
    pub fn format(&self, width: usize) -> (out: (Vec<char>, Vec<usize>))
        ensures
            out.0@ == self.rendering(width as int).map_values(|c: char| restore_apostrophe(c)),
            out.1@ == wrapped_highlights_of(self.rendering(width as int), self.canon_context()),
    {
        let q = chars_of(self.quote.as_str());
        let qn = normalize_chars(&q);
        let rendered_s = fill_indented(&qn, width);
        let rendered = chars_of(rendered_s.as_str());
        let c = chars_of(self.context.as_str());
        let phrase = canon_chars(&c);
        let highlights = wrapped_highlights(&rendered, &phrase);
        let display = restore_chars(&rendered);
        (display, highlights)
    }

    /// The unwrapped presentation of this record: the half-open character
    /// range of the first case-insensitive occurrence of the context phrase
    /// in the raw quotation, or `AlignmentError::NotFound` when the phrase
    /// does not occur, exactly then.
    pub fn format_no_wrap(&self) -> (r: Result<(usize, usize), AlignmentError>)
        ensures
            match r {
                Ok(range) => {
                    &&& matches_at(self.quote@, self.context@, range.0 as int)
                    &&& forall|s2: int| 0 <= s2 < range.0 ==> !matches_at(self.quote@, self.context@, s2)
                    &&& range.1 == range.0 + self.context@.len()
                },
                Err(e) => e == AlignmentError::NotFound && !has_match(self.quote@, self.context@),
            },
    {
        let q = chars_of(self.quote.as_str());
        let p = chars_of(self.context.as_str());
        match find_phrase(&q, &p) {
            Some(s) => {
                proof {
                    assert(s + p@.len() <= q@.len() && q@.len() == q.len());
                }
                Ok((s, s + p.len()))
            },
            None => Err(AlignmentError::NotFound),
        }
    }
}

} // verus!
