//! Turning laid-out lines back into text with their style sequences.

use vstd::prelude::*;

verus! {

/// A character placed on a line, with the index of the style span it is
/// drawn in; padding belongs to no span.
pub type Cell = (char, Option<usize>);

/// A style span as plain values: its text, the sequence that opens its style
/// and the sequence that closes it.
pub type SpanView = (Seq<char>, Seq<char>, Seq<char>);

/// A style span held as characters.
pub struct SpanChars {
    pub text: Vec<char>,
    pub start: Vec<char>,
    pub end: Vec<char>,
}

impl View for SpanChars {
    type V = SpanView;

    open spec fn view(&self) -> SpanView {
        (self.text@, self.start@, self.end@)
    }
}

/// The views of a sequence of spans.
pub open spec fn span_views(spans: Seq<SpanChars>) -> Seq<SpanView> {
    spans.map_values(|s: SpanChars| s@)
}

/// The sequence that opens the style of span `t`, if any.
pub open spec fn open_seq(spans: Seq<SpanView>, t: Option<usize>) -> Seq<char> {
    match t {
        Some(k) => if k < spans.len() {
            spans[k as int].1
        } else {
            Seq::empty()
        },
        None => Seq::empty(),
    }
}

/// The sequence that closes the style of span `t`, if any.
pub open spec fn close_seq(spans: Seq<SpanView>, t: Option<usize>) -> Seq<char> {
    match t {
        Some(k) => if k < spans.len() {
            spans[k as int].2
        } else {
            Seq::empty()
        },
        None => Seq::empty(),
    }
}

/// The text of a line without its final closing sequence, and the span whose
/// style is still open at its end. A style is opened where a run of cells of
/// one span begins and closed where it ends, never more often.
pub open spec fn line_body(spans: Seq<SpanView>, cells: Seq<Cell>) -> (Seq<char>, Option<usize>)
    decreases cells.len(),
{
    if cells.len() == 0 {
        (Seq::empty(), None)
    } else {
        let (s, cur) = line_body(spans, cells.drop_last());
        let c = cells.last();
        let s2 = if cur == c.1 {
            s
        } else {
            s + close_seq(spans, cur) + open_seq(spans, c.1)
        };
        (s2.push(c.0), c.1)
    }
}

/// One line as text, between the prefix and the suffix that every line gets.
pub open spec fn render_line(
    spans: Seq<SpanView>,
    prefix: Seq<char>,
    suffix: Seq<char>,
    cells: Seq<Cell>,
) -> Seq<char> {
    let (s, cur) = line_body(spans, cells);
    prefix + s + close_seq(spans, cur) + suffix
}

/// All lines as text, separated by line breaks.
pub open spec fn render_lines(
    spans: Seq<SpanView>,
    prefix: Seq<char>,
    suffix: Seq<char>,
    lines: Seq<Seq<Cell>>,
) -> Seq<char>
    decreases lines.len(),
{
    if lines.len() == 0 {
        Seq::empty()
    } else if lines.len() == 1 {
        render_line(spans, prefix, suffix, lines[0])
    } else {
        render_lines(spans, prefix, suffix, lines.drop_last()) + seq!['\n'] + render_line(
            spans,
            prefix,
            suffix,
            lines.last(),
        )
    }
}

/// Appends `s` to `out`.
pub fn append_chars(out: &mut Vec<char>, s: &Vec<char>)
    ensures
        final(out)@ == old(out)@ + s@,
{
    let mut i: usize = 0;
    while i < s.len()
        invariant
            i <= s@.len(),
            out@ == old(out)@ + s@.take(i as int),
        decreases s@.len() - i,
    {
        out.push(s[i]);
        i += 1;
        assert(s@.take(i as int) =~= s@.take(i - 1).push(s@[i - 1]));
    }
    assert(s@.take(i as int) =~= s@);
}

fn append_close(out: &mut Vec<char>, spans: &Vec<SpanChars>, t: Option<usize>)
    ensures
        final(out)@ == old(out)@ + close_seq(span_views(spans@), t),
{
    if let Some(k) = t {
        if k < spans.len() {
            append_chars(out, &spans[k].end);
            return;
        }
    }
    assert(old(out)@ + Seq::<char>::empty() =~= old(out)@);
}

fn append_open(out: &mut Vec<char>, spans: &Vec<SpanChars>, t: Option<usize>)
    ensures
        final(out)@ == old(out)@ + open_seq(span_views(spans@), t),
{
    if let Some(k) = t {
        if k < spans.len() {
            append_chars(out, &spans[k].start);
            return;
        }
    }
    assert(old(out)@ + Seq::<char>::empty() =~= old(out)@);
}

/// Appends one rendered line to `out`.
pub fn append_line(
    out: &mut Vec<char>,
    spans: &Vec<SpanChars>,
    prefix: &Vec<char>,
    suffix: &Vec<char>,
    cells: &Vec<Cell>,
)
    ensures
        final(out)@ == old(out)@ + render_line(span_views(spans@), prefix@, suffix@, cells@),
{
    let ghost sv = span_views(spans@);
    append_chars(out, prefix);
    let mut cur: Option<usize> = None;
    let mut i: usize = 0;
    while i < cells.len()
        invariant
            i <= cells@.len(),
            sv == span_views(spans@),
            (out@, cur) == ({
                let (s, c) = line_body(sv, cells@.take(i as int));
                (old(out)@ + prefix@ + s, c)
            }),
        decreases cells@.len() - i,
    {
        let c = cells[i];
        assert(cells@.take(i + 1).drop_last() =~= cells@.take(i as int));
        if cur != c.1 {
            append_close(out, spans, cur);
            append_open(out, spans, c.1);
        }
        out.push(c.0);
        cur = c.1;
        i += 1;
    }
    assert(cells@.take(i as int) =~= cells@);
    append_close(out, spans, cur);
    append_chars(out, suffix);
}

} // verus!
