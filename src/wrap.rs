//! Wrapping the text of cells to a width, and narrowing a whole table.

use std::marker::PhantomData;
use vstd::prelude::*;
use vstd::string::StringExecFns;
use crate::allocate::{allocation, decrease_widths, sum};
use crate::layout::{
    Glyph, lay_chunks, lay_words, layout_lines, lemma_lines_within_width,
    lemma_word_lines_exact, line_width, word_lines,
};
use crate::peaker::{Peaker, PriorityNone};
use crate::render::{SpanChars, SpanView, render_lines, span_views};
use crate::segment::{
    osc_split_of, opt_view, replace_tab, span_strings_view, strip_osc, style_spans,
    style_spans_of, tabs_expanded_of,
};
use crate::select::{decrease_list, get_decrease_cell_list, rows_match};
use crate::text::{chars_of, string_of};
use crate::width::unit_widths;

verus! {

/// The glyphs of the spans' texts, in order, each with the index of its span.
pub open spec fn glyphs_of(spans: Seq<SpanView>) -> Seq<Glyph>
    decreases spans.len(),
{
    if spans.len() == 0 {
        Seq::empty()
    } else {
        glyphs_of(spans.drop_last()) + spans.last().0.map_values(
            |c: char| (c, (spans.len() - 1) as usize),
        )
    }
}

/// The text that wrapping the spans to `w` columns yields, each line between
/// `prefix` and `suffix`; nothing at all for a width of zero.
pub open spec fn wrap_view(
    spans: Seq<SpanView>,
    w: nat,
    keep_words: bool,
    prefix: Seq<char>,
    suffix: Seq<char>,
) -> Seq<char> {
    if w == 0 {
        Seq::empty()
    } else {
        render_lines(spans, prefix, suffix, layout_lines(w, keep_words, glyphs_of(spans)))
    }
}

/// The sequences that open and close an OSC 8 hyperlink to `url`; none
/// without a target.
pub open spec fn link_affixes(url: Option<Seq<char>>) -> (Seq<char>, Seq<char>) {
    match url {
        Some(u) => ("\x1b]8;;"@ + u + "\x1b\\"@, "\x1b]8;;"@ + "\x1b\\"@),
        None => (Seq::empty(), Seq::empty()),
    }
}

/// The text that wrapping `text` to `w` columns yields: hyperlinks are taken
/// out and put back around every line, and the rest is wrapped span by span.
pub open spec fn wrapped(text: Seq<char>, w: nat, keep_words: bool) -> Seq<char> {
    let (plain, url) = osc_split_of(text);
    let (prefix, suffix) = link_affixes(url);
    wrap_view(style_spans_of(plain), w, keep_words, prefix, suffix)
}

/// The glyphs that wrapping `text` lays out: those of its style spans once
/// hyperlinks are taken out.
pub open spec fn text_glyphs(text: Seq<char>) -> Seq<Glyph> {
    glyphs_of(style_spans_of(osc_split_of(text).0))
}

/// The sequences that open and close a hyperlink to `url` on every line.
pub fn build_link_prefix_suffix(url: Option<String>) -> (r: (String, String))
    ensures
        (r.0@, r.1@) == link_affixes(opt_view(url)),
{
    match url {
        Some(url) => {
            let mut prefix = String::from_str("\x1b]8;;");
            prefix.append(url.as_str());
            prefix.append("\x1b\\");
            let mut suffix = String::from_str("\x1b]8;;");
            suffix.append("\x1b\\");
            (prefix, suffix)
        },
        None => (String::new(), String::new()),
    }
}

/// Wraps styled spans to `width` columns, each line between `prefix` and
/// `suffix`. Every line takes at most `width` columns, and exactly `width`
/// when words are kept.
pub fn wrap_spans(
    spans: &Vec<(String, String, String)>,
    width: usize,
    keep_words: bool,
    prefix: &str,
    suffix: &str,
) -> (r: String)
    ensures
        r@ == wrap_view(span_strings_view(spans@), width as nat, keep_words, prefix@, suffix@),
        width > 0 ==> forall|i: int|
            0 <= i < layout_lines(width as nat, keep_words, glyphs_of(span_strings_view(spans@))).len()
                ==> line_width(
                #[trigger] layout_lines(
                    width as nat,
                    keep_words,
                    glyphs_of(span_strings_view(spans@)),
                )[i],
            ) <= width,
        width > 0 && keep_words ==> forall|i: int|
            0 <= i < word_lines(width as nat, glyphs_of(span_strings_view(spans@))).len()
                ==> line_width(
                #[trigger] word_lines(width as nat, glyphs_of(span_strings_view(spans@)))[i],
            ) == width,
{
    if width == 0 {
        return String::new();
    }
    let ghost sv = span_strings_view(spans@);
    let mut chars: Vec<SpanChars> = Vec::new();
    let mut glyphs: Vec<Glyph> = Vec::new();
    let mut k: usize = 0;
    while k < spans.len()
        invariant
            k <= spans@.len(),
            sv == span_strings_view(spans@),
            span_views(chars@) == sv.take(k as int),
            glyphs@ == glyphs_of(sv.take(k as int)),
        decreases spans@.len() - k,
    {
        let text = chars_of(spans[k].0.as_str());
        let start = chars_of(spans[k].1.as_str());
        let end = chars_of(spans[k].2.as_str());
        let ghost g0 = glyphs@;
        let mut j: usize = 0;
        while j < text.len()
            invariant
                j <= text@.len(),
                glyphs@ == g0 + text@.take(j as int).map_values(|c: char| (c, k)),
            decreases text@.len() - j,
        {
            glyphs.push((text[j], k));
            j += 1;
            assert(glyphs@ =~= g0 + text@.take(j as int).map_values(|c: char| (c, k)));
        }
        assert(text@.take(j as int) =~= text@);
        let ghost kk = k;
        chars.push(SpanChars { text, start, end });
        k += 1;
        assert(sv.take(k as int).drop_last() =~= sv.take(k - 1));
        assert(span_views(chars@) =~= sv.take(k as int));
        assert(sv.take(k as int).last().0 == text@);
        assert(text@.map_values(|c: char| (c, kk)) =~= sv.take(k as int).last().0.map_values(
            |c: char| (c, (sv.take(k as int).len() - 1) as usize),
        ));
    }
    assert(sv.take(k as int) =~= sv);
    let p = chars_of(prefix);
    let s = chars_of(suffix);
    unit_widths();
    proof {
        lemma_lines_within_width(width as nat, keep_words, glyphs@);
        lemma_word_lines_exact(width as nat, glyphs@);
    }
    let out = if keep_words {
        lay_words(&glyphs, width, &chars, &p, &s)
    } else {
        lay_chunks(&glyphs, width, &chars, &p, &s)
    };
    string_of(&out)
}

/// Wraps `text` to `width` columns: cut at every `width` columns, or, when
/// `keep_words` is set, broken between words and padded to full lines. Style
/// sequences are closed before each inserted break and reopened after it; a
/// text that is one hyperlink has it around every line. A width of zero
/// yields an empty text.
pub fn wrap_text(text: &str, width: usize, keep_words: bool) -> (r: String)
    ensures
        r@ == wrapped(text@, width as nat, keep_words),
        width == 0 ==> r@ == Seq::<char>::empty(),
        width > 0 ==> forall|i: int|
            0 <= i < layout_lines(width as nat, keep_words, text_glyphs(text@)).len() ==> line_width(
                #[trigger] layout_lines(width as nat, keep_words, text_glyphs(text@))[i],
            ) <= width,
        width > 0 && keep_words ==> forall|i: int|
            0 <= i < word_lines(width as nat, text_glyphs(text@)).len() ==> line_width(
                #[trigger] word_lines(width as nat, text_glyphs(text@))[i],
            ) == width,
{
    if width == 0 {
        return String::new();
    }
    let (plain, url) = strip_osc(text);
    let (prefix, suffix) = build_link_prefix_suffix(url);
    let spans = style_spans(plain.as_str());
    wrap_spans(&spans, width, keep_words, prefix.as_str(), suffix.as_str())
}

/// Wraps the content of cells that exceed a width onto new lines; content
/// that fits is left as it is. `P` is the policy by which the columns of a
/// whole table are narrowed.
pub struct Wrap<P = PriorityNone> {
    width: usize,
    keep_words: bool,
    _priority: PhantomData<P>,
}

impl<P> View for Wrap<P> {
    type V = (usize, bool);

    /// The width and whether words are kept.
    closed spec fn view(&self) -> (usize, bool) {
        (self.width, self.keep_words)
    }
}

impl Wrap {
    /// A wrap to `width` columns that cuts words.
    pub fn new(width: usize) -> (r: Self)
        ensures
            r@ == (width, false),
    {
        Wrap { width, keep_words: false, _priority: PhantomData }
    }
}

impl<P> Wrap<P> {
    /// The same wrap, with `PP` as the policy for narrowing a whole table.
    pub fn priority<PP>(self) -> (r: Wrap<PP>)
        ensures
            r@ == self@,
    {
        Wrap { width: self.width, keep_words: self.keep_words, _priority: PhantomData }
    }

    /// The same wrap to another width.
    pub fn with_width(&self, width: usize) -> (r: Wrap<P>)
        ensures
            r@ == (width, self@.1),
    {
        Wrap { width, keep_words: self.keep_words, _priority: PhantomData }
    }

    /// The same wrap, keeping words whole where they fit on a line.
    pub fn keep_words(self) -> (r: Self)
        ensures
            r@ == (self@.0, true),
    {
        Wrap { width: self.width, keep_words: true, _priority: self._priority }
    }
}

impl<P: Peaker> Wrap<P> {
    /// The new text of a cell whose content is `cell_width` columns wide:
    /// `None` when it fits, else its text with tabs expanded to `tab_width`
    /// spaces, wrapped.
    pub fn change_cell(&self, text: &str, cell_width: usize, tab_width: usize) -> (r: Option<
        String,
    >)
        ensures
            cell_width <= self@.0 ==> r is None,
            cell_width > self@.0 ==> (r matches Some(t) && t@ == wrapped(
                tabs_expanded_of(text@, tab_width),
                self@.0 as nat,
                self@.1,
            )),
    {
        if cell_width <= self.width {
            return None;
        }
        let text = replace_tab(text, tab_width);
        Some(wrap_text(text.as_str(), self.width, self.keep_words))
    }

    /// Narrows a whole table to the wrap's width: `None` when its columns,
    /// `widths` adding up to `total_width`, already fit. Else the narrowed
    /// widths, under the policy `P` and never below `min_widths`, and the
    /// cells whose content (`cell_widths`, row by row) must be wrapped, each
    /// with its new width once `paddings` are taken off.
    pub fn change(
        &self,
        widths: &Vec<usize>,
        total_width: usize,
        min_widths: &Vec<usize>,
        paddings: &Vec<usize>,
        cell_widths: &Vec<Vec<usize>>,
    ) -> (r: Option<(Vec<usize>, Vec<((usize, usize), usize)>)>)
        requires
            min_widths@.len() == widths@.len(),
            paddings@.len() == widths@.len(),
            sum(widths@) == total_width,
            rows_match(cell_widths@, widths@.len()),
        ensures
            self@.0 >= total_width ==> r is None,
            self@.0 < total_width ==> (r matches Some((nw, items)) && nw@ == allocation(
                P::initial(),
                widths@,
                min_widths@,
                self@.0 as int,
            ) && items@ == decrease_list(
                nw@,
                min_widths@,
                paddings@,
                cell_widths@,
                widths@.len() as int,
            )),
    {
        if self.width >= total_width {
            return None;
        }
        let mut new_widths = widths.clone();
        assert(new_widths@ == widths@);
        decrease_widths(&mut new_widths, min_widths, total_width, self.width, P::create());
        let items = get_decrease_cell_list(&new_widths, min_widths, paddings, cell_widths);
        Some((new_widths, items))
    }
}

} // verus!
