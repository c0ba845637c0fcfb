//! Placing characters on lines of a fixed number of columns.

use vstd::prelude::*;
use crate::render::{Cell, SpanChars, SpanView, append_line, render_lines, span_views};
use crate::width::{glyph_width, glyph_width_exec};

verus! {

/// A visible character and the index of the style span it came from.
pub type Glyph = (char, usize);

/// The character that stands for columns of a glyph that did not fit.
pub const REPLACEMENT: char = '\u{FFFD}';

/// The lines finished so far, the line being filled, the columns it takes,
/// and whether the next word starts a fresh run (no space is put before it).
pub struct Layout {
    pub lines: Seq<Seq<Cell>>,
    pub line: Seq<Cell>,
    pub used: nat,
    pub first: bool,
}

pub open spec fn empty_layout() -> Layout {
    Layout { lines: Seq::empty(), line: Seq::empty(), used: 0, first: true }
}

/// The number of columns a line takes.
pub open spec fn line_width(cells: Seq<Cell>) -> nat
    decreases cells.len(),
{
    if cells.len() == 0 {
        0
    } else {
        line_width(cells.drop_last()) + glyph_width(cells.last().0)
    }
}

/// `n` replacement characters in the style of span `t`.
pub open spec fn markers(n: nat, t: usize) -> Seq<Cell> {
    Seq::new(n, |_i: int| (REPLACEMENT, Some(t)))
}

/// `n` unstyled spaces.
pub open spec fn padding(n: nat) -> Seq<Cell> {
    Seq::new(n, |_i: int| (' ', None::<usize>))
}

/// The glyphs of a word as cells in their own spans.
pub open spec fn cells_of(word: Seq<Glyph>) -> Seq<Cell> {
    word.map_values(|g: Glyph| (g.0, Some(g.1)))
}

/// Moves a full line to the finished ones.
pub open spec fn close_if_full(w: nat, st: Layout) -> Layout {
    if st.used == w {
        Layout { lines: st.lines.push(st.line), line: Seq::empty(), used: 0, first: true }
    } else {
        st
    }
}

/// Puts one glyph on the current line. A glyph wider than the columns left
/// is dropped, and the columns left are filled with replacement characters;
/// a line that becomes full is finished.
pub open spec fn place(w: nat, st: Layout, g: Glyph) -> Layout {
    let cw = glyph_width(g.0);
    if st.used + cw > w {
        close_if_full(
            w,
            Layout {
                lines: st.lines,
                line: st.line + markers((w - st.used) as nat, g.1),
                used: w,
                first: false,
            },
        )
    } else {
        close_if_full(
            w,
            Layout {
                lines: st.lines,
                line: st.line.push((g.0, Some(g.1))),
                used: st.used + cw,
                first: false,
            },
        )
    }
}

/// Places glyph after glyph.
pub open spec fn place_all(w: nat, st: Layout, gs: Seq<Glyph>) -> Layout
    decreases gs.len(),
{
    if gs.len() == 0 {
        st
    } else {
        place(w, place_all(w, st, gs.drop_last()), gs.last())
    }
}

/// The lines of the plain mode: glyphs cut into lines of `w` columns; the
/// last line is kept when it holds anything, and is not padded.
pub open spec fn chunk_lines(w: nat, gs: Seq<Glyph>) -> Seq<Seq<Cell>> {
    let st = place_all(w, empty_layout(), gs);
    if st.line.len() > 0 {
        st.lines.push(st.line)
    } else {
        st.lines
    }
}

/// What comes before a word: a space from span `sep` when the line has room
/// and the word does not start a fresh run.
pub open spec fn before_word(w: nat, st: Layout, sep: usize) -> Layout {
    if !st.first && st.used < w {
        Layout { lines: st.lines, line: st.line.push((' ', Some(sep))), used: st.used + 1, first: false }
    } else {
        Layout { lines: st.lines, line: st.line, used: st.used, first: false }
    }
}

/// Puts a word: on the current line when it fits there; else, when it fits
/// on a line of its own, on a new line after padding the current one with
/// spaces; else glyph by glyph over as many lines as it takes.
pub open spec fn put_word(w: nat, st: Layout, word: Seq<Glyph>) -> Layout {
    let ww = line_width(cells_of(word));
    if st.used + ww <= w {
        Layout { lines: st.lines, line: st.line + cells_of(word), used: st.used + ww, first: st.first }
    } else if ww <= w {
        Layout {
            lines: st.lines.push(st.line + padding((w - st.used) as nat)),
            line: cells_of(word),
            used: ww,
            first: false,
        }
    } else {
        place_all(w, close_if_full(w, st), word)
    }
}

/// The state after the glyphs `gs` in the word-keeping mode: the layout of
/// the words that a space has ended, the word still open, and the span of
/// the space before it.
pub open spec fn word_fold(w: nat, gs: Seq<Glyph>) -> (Layout, Seq<Glyph>, usize)
    decreases gs.len(),
{
    if gs.len() == 0 {
        (empty_layout(), Seq::empty(), 0)
    } else {
        let (st, cur, sep) = word_fold(w, gs.drop_last());
        let g = gs.last();
        if g.0 == ' ' {
            (put_word(w, before_word(w, st, sep), cur), Seq::empty(), g.1)
        } else {
            (st, cur.push(g), sep)
        }
    }
}

/// Finishes the word-keeping mode: a line that holds columns is padded with
/// spaces to the full width.
pub open spec fn finish(w: nat, st: Layout) -> Seq<Seq<Cell>> {
    if st.used > 0 {
        st.lines.push(st.line + padding((w - st.used) as nat))
    } else {
        st.lines
    }
}

/// The lines of the word-keeping mode.
pub open spec fn word_lines(w: nat, gs: Seq<Glyph>) -> Seq<Seq<Cell>> {
    let (st, cur, sep) = word_fold(w, gs);
    finish(w, put_word(w, before_word(w, st, sep), cur))
}

/// The lines for `gs` in either mode.
pub open spec fn layout_lines(w: nat, keep_words: bool, gs: Seq<Glyph>) -> Seq<Seq<Cell>> {
    if keep_words {
        word_lines(w, gs)
    } else {
        chunk_lines(w, gs)
    }
}

/// The lines being built, with the finished ones already rendered.
struct Sink {
    out: Vec<char>,
    line: Vec<Cell>,
    used: usize,
    first: bool,
    any: bool,
    lines: Ghost<Seq<Seq<Cell>>>,
}

impl Sink {
    spec fn layout(&self) -> Layout {
        Layout { lines: self.lines@, line: self.line@, used: self.used as nat, first: self.first }
    }

    spec fn rendered(&self, sv: Seq<SpanView>, prefix: Seq<char>, suffix: Seq<char>) -> bool {
        &&& self.out@ == render_lines(sv, prefix, suffix, self.lines@)
        &&& self.any == (self.lines@.len() > 0)
    }

    fn new() -> (r: Sink)
        ensures
            r.layout() == empty_layout(),
            r.out@ == Seq::<char>::empty(),
            r.any == false,
    {
        Sink {
            out: Vec::new(),
            line: Vec::new(),
            used: 0,
            first: true,
            any: false,
            lines: Ghost(Seq::empty()),
        }
    }

    fn close_line(&mut self, spans: &Vec<SpanChars>, prefix: &Vec<char>, suffix: &Vec<char>)
        requires
            old(self).rendered(span_views(spans@), prefix@, suffix@),
        ensures
            final(self).rendered(span_views(spans@), prefix@, suffix@),
            final(self).layout() == (Layout {
                lines: old(self).lines@.push(old(self).line@),
                line: Seq::empty(),
                used: 0,
                first: true,
            }),
    {
        let ghost sv = span_views(spans@);
        let ghost lines2 = self.lines@.push(self.line@);
        assert(lines2.drop_last() =~= self.lines@);
        let ghost out0 = self.out@;
        let ghost rl = crate::render::render_line(sv, prefix@, suffix@, self.line@);
        if self.any {
            self.out.push('\n');
        }
        append_line(&mut self.out, spans, prefix, suffix, &self.line);
        proof {
            assert(lines2.last() == self.line@);
            if self.any {
                assert(self.out@ =~= out0 + seq!['\n'] + rl);
            } else {
                assert(lines2[0] == self.line@);
                assert(self.out@ =~= rl);
            }
        }
        self.lines = Ghost(lines2);
        self.any = true;
        self.line = Vec::new();
        self.used = 0;
        self.first = true;
    }

    fn place(
        &mut self,
        g: Glyph,
        w: usize,
        spans: &Vec<SpanChars>,
        prefix: &Vec<char>,
        suffix: &Vec<char>,
    )
        requires
            old(self).rendered(span_views(spans@), prefix@, suffix@),
            old(self).used < w,
        ensures
            final(self).rendered(span_views(spans@), prefix@, suffix@),
            final(self).layout() == place(w as nat, old(self).layout(), g),
            final(self).used < w,
    {
        let ghost st = self.layout();
        let cw = glyph_width_exec(g.0);
        if cw > w - self.used {
            let n = w - self.used;
            let ghost line0 = self.line@;
            let mut k: usize = 0;
            while k < n
                invariant
                    k <= n,
                    self.line@ == line0 + markers(k as nat, g.1),
                    self.out@ == old(self).out@,
                    self.lines@ == old(self).lines@,
                    self.used == old(self).used,
                    self.any == old(self).any,
                decreases n - k,
            {
                self.line.push((REPLACEMENT, Some(g.1)));
                k += 1;
                assert(line0 + markers(k as nat, g.1) =~= (line0 + markers((k - 1) as nat, g.1)).push(
                    (REPLACEMENT, Some(g.1)),
                ));
            }
            self.used = w;
        } else {
            self.line.push((g.0, Some(g.1)));
            self.used = self.used + cw;
        }
        self.first = false;
        if self.used == w {
            self.close_line(spans, prefix, suffix);
        }
    }

    fn pad(&mut self, w: usize)
        requires
            old(self).used <= w,
        ensures
            final(self).line@ == old(self).line@ + padding((w - old(self).used) as nat),
            final(self).used == w,
            final(self).out@ == old(self).out@,
            final(self).lines@ == old(self).lines@,
            final(self).first == old(self).first,
            final(self).any == old(self).any,
    {
        let n = w - self.used;
        let ghost line0 = self.line@;
        let mut k: usize = 0;
        while k < n
            invariant
                k <= n,
                self.line@ == line0 + padding(k as nat),
                self.out@ == old(self).out@,
                self.lines@ == old(self).lines@,
                self.used == old(self).used,
                self.first == old(self).first,
                self.any == old(self).any,
            decreases n - k,
        {
            self.line.push((' ', None));
            k += 1;
            assert(line0 + padding(k as nat) =~= (line0 + padding((k - 1) as nat)).push((' ', None)));
        }
        self.used = w;
    }
}


pub(crate) proof fn lemma_line_width_concat(a: Seq<Cell>, b: Seq<Cell>)
    ensures
        line_width(a + b) == line_width(a) + line_width(b),
    decreases b.len(),
{
    if b.len() > 0 {
        assert((a + b).drop_last() =~= a + b.drop_last());
        lemma_line_width_concat(a, b.drop_last());
    }
}

proof fn lemma_cells_of_take(word: Seq<Glyph>, i: int)
    requires
        0 <= i < word.len(),
    ensures
        cells_of(word.take(i + 1)) == cells_of(word.take(i)).push((word[i].0, Some(word[i].1))),
        cells_of(word.take(i + 1)).drop_last() == cells_of(word.take(i)),
{
    assert(cells_of(word.take(i + 1)) =~= cells_of(word.take(i)).push((word[i].0, Some(word[i].1))));
    assert(cells_of(word.take(i + 1)).drop_last() =~= cells_of(word.take(i)));
}

/// The columns that `word` takes, when they are at most `budget`.
fn measure(word: &Vec<Glyph>, budget: usize) -> (r: Option<usize>)
    ensures
        r == if line_width(cells_of(word@)) <= budget {
            Some(line_width(cells_of(word@)) as usize)
        } else {
            None::<usize>
        },
{
    let mut rem = budget;
    let mut i: usize = 0;
    while i < word.len()
        invariant
            i <= word@.len(),
            line_width(cells_of(word@.take(i as int))) + rem == budget,
        decreases word@.len() - i,
    {
        let cw = glyph_width_exec(word[i].0);
        proof {
            lemma_cells_of_take(word@, i as int);
        }
        if cw > rem {
            proof {
                assert(cells_of(word@) =~= cells_of(word@.take(i + 1)) + cells_of(word@.skip(i + 1)));
                lemma_line_width_concat(cells_of(word@.take(i + 1)), cells_of(word@.skip(i + 1)));
            }
            return None;
        }
        rem = rem - cw;
        i += 1;
    }
    assert(word@.take(i as int) =~= word@);
    Some(budget - rem)
}

impl Sink {
    fn push_cells(&mut self, word: &Vec<Glyph>)
        ensures
            final(self).line@ == old(self).line@ + cells_of(word@),
            final(self).out@ == old(self).out@,
            final(self).lines@ == old(self).lines@,
            final(self).used == old(self).used,
            final(self).first == old(self).first,
            final(self).any == old(self).any,
    {
        let ghost line0 = self.line@;
        let mut k: usize = 0;
        while k < word.len()
            invariant
                k <= word@.len(),
                self.line@ == line0 + cells_of(word@.take(k as int)),
                self.out@ == old(self).out@,
                self.lines@ == old(self).lines@,
                self.used == old(self).used,
                self.first == old(self).first,
                self.any == old(self).any,
            decreases word@.len() - k,
        {
            let g = word[k];
            self.line.push((g.0, Some(g.1)));
            proof {
                lemma_cells_of_take(word@, k as int);
            }
            k += 1;
            assert(self.line@ =~= line0 + cells_of(word@.take(k as int)));
        }
        assert(word@.take(k as int) =~= word@);
    }

    fn before_word(&mut self, w: usize, sep: usize)
        requires
            old(self).used <= w,
        ensures
            final(self).layout() == before_word(w as nat, old(self).layout(), sep),
            final(self).out@ == old(self).out@,
            final(self).any == old(self).any,
            final(self).used <= w,
    {
        if !self.first && self.used < w {
            self.line.push((' ', Some(sep)));
            self.used = self.used + 1;
        }
        self.first = false;
    }

    fn put_word(
        &mut self,
        word: &Vec<Glyph>,
        w: usize,
        spans: &Vec<SpanChars>,
        prefix: &Vec<char>,
        suffix: &Vec<char>,
    )
        requires
            old(self).rendered(span_views(spans@), prefix@, suffix@),
            old(self).used <= w,
            w > 0,
        ensures
            final(self).rendered(span_views(spans@), prefix@, suffix@),
            final(self).layout() == put_word(w as nat, old(self).layout(), word@),
            final(self).used <= w,
    {
        let ghost st = self.layout();
        match measure(word, w - self.used) {
            Some(ww) => {
                self.push_cells(word);
                self.used = self.used + ww;
            },
            None => match measure(word, w) {
                Some(ww) => {
                    self.pad(w);
                    self.close_line(spans, prefix, suffix);
                    self.push_cells(word);
                    assert(self.line@ =~= cells_of(word@));
                    self.used = ww;
                    self.first = false;
                },
                None => {
                    if self.used == w {
                        self.close_line(spans, prefix, suffix);
                    }
                    let ghost st1 = self.layout();
                    assert(st1 == close_if_full(w as nat, st));
                    let mut k: usize = 0;
                    while k < word.len()
                        invariant
                            k <= word@.len(),
                            self.rendered(span_views(spans@), prefix@, suffix@),
                            self.layout() == place_all(w as nat, st1, word@.take(k as int)),
                            self.used < w,
                        decreases word@.len() - k,
                    {
                        self.place(word[k], w, spans, prefix, suffix);
                        k += 1;
                        assert(word@.take(k as int).drop_last() =~= word@.take(k - 1));
                    }
                    assert(word@.take(k as int) =~= word@);
                },
            },
        }
    }
}

/// Renders the plain mode's lines of `glyphs`.
pub fn lay_chunks(
    glyphs: &Vec<Glyph>,
    w: usize,
    spans: &Vec<SpanChars>,
    prefix: &Vec<char>,
    suffix: &Vec<char>,
) -> (r: Vec<char>)
    requires
        w > 0,
    ensures
        r@ == render_lines(span_views(spans@), prefix@, suffix@, chunk_lines(w as nat, glyphs@)),
{
    let mut sink = Sink::new();
    let mut i: usize = 0;
    while i < glyphs.len()
        invariant
            i <= glyphs@.len(),
            sink.rendered(span_views(spans@), prefix@, suffix@),
            sink.layout() == place_all(w as nat, empty_layout(), glyphs@.take(i as int)),
            sink.used < w,
        decreases glyphs@.len() - i,
    {
        sink.place(glyphs[i], w, spans, prefix, suffix);
        i += 1;
        assert(glyphs@.take(i as int).drop_last() =~= glyphs@.take(i - 1));
    }
    assert(glyphs@.take(i as int) =~= glyphs@);
    if sink.line.len() > 0 {
        sink.close_line(spans, prefix, suffix);
    }
    sink.out
}

/// Renders the word-keeping mode's lines of `glyphs`.
pub fn lay_words(
    glyphs: &Vec<Glyph>,
    w: usize,
    spans: &Vec<SpanChars>,
    prefix: &Vec<char>,
    suffix: &Vec<char>,
) -> (r: Vec<char>)
    requires
        w > 0,
    ensures
        r@ == render_lines(span_views(spans@), prefix@, suffix@, word_lines(w as nat, glyphs@)),
{
    let mut sink = Sink::new();
    let mut cur: Vec<Glyph> = Vec::new();
    let mut sep: usize = 0;
    let mut i: usize = 0;
    while i < glyphs.len()
        invariant
            i <= glyphs@.len(),
            w > 0,
            sink.rendered(span_views(spans@), prefix@, suffix@),
            (sink.layout(), cur@, sep) == word_fold(w as nat, glyphs@.take(i as int)),
            sink.used <= w,
        decreases glyphs@.len() - i,
    {
        let g = glyphs[i];
        assert(glyphs@.take(i + 1).drop_last() =~= glyphs@.take(i as int));
        if g.0 == ' ' {
            sink.before_word(w, sep);
            sink.put_word(&cur, w, spans, prefix, suffix);
            cur = Vec::new();
            sep = g.1;
        } else {
            cur.push(g);
        }
        i += 1;
    }
    assert(glyphs@.take(i as int) =~= glyphs@);
    sink.before_word(w, sep);
    sink.put_word(&cur, w, spans, prefix, suffix);
    if sink.used > 0 {
        sink.pad(w);
        sink.close_line(spans, prefix, suffix);
    }
    sink.out
}


/// The finished lines take exactly `w` columns and the current one `used`.
pub open spec fn layout_ok(w: nat, st: Layout) -> bool {
    &&& forall|i: int| 0 <= i < st.lines.len() ==> line_width(#[trigger] st.lines[i]) == w
    &&& line_width(st.line) == st.used
    &&& st.used <= w
}

pub(crate) proof fn lemma_markers_width(n: nat, t: usize)
    requires
        glyph_width(REPLACEMENT) == 1,
    ensures
        line_width(markers(n, t)) == n,
    decreases n,
{
    if n > 0 {
        assert(markers(n, t).drop_last() =~= markers((n - 1) as nat, t));
        lemma_markers_width((n - 1) as nat, t);
    }
}

proof fn lemma_padding_width(n: nat)
    requires
        glyph_width(' ') == 1,
    ensures
        line_width(padding(n)) == n,
    decreases n,
{
    if n > 0 {
        assert(padding(n).drop_last() =~= padding((n - 1) as nat));
        lemma_padding_width((n - 1) as nat);
    }
}

proof fn lemma_close_if_full(w: nat, st: Layout)
    requires
        layout_ok(w, st),
        w > 0,
    ensures
        layout_ok(w, close_if_full(w, st)),
        close_if_full(w, st).used < w || (st.used < w && close_if_full(w, st) == st),
        st.used < w ==> close_if_full(w, st) == st,
        close_if_full(w, st).used < w,
{
    if st.used == w {
        let st2 = close_if_full(w, st);
        assert forall|i: int| 0 <= i < st2.lines.len() implies line_width(#[trigger] st2.lines[i]) == w by {
            if i < st.lines.len() {
                assert(st2.lines[i] == st.lines[i]);
            }
        }
    }
}

proof fn lemma_place(w: nat, st: Layout, g: Glyph)
    requires
        layout_ok(w, st),
        st.used < w,
        glyph_width(REPLACEMENT) == 1,
    ensures
        layout_ok(w, place(w, st, g)),
        place(w, st, g).used < w,
{
    let cw = glyph_width(g.0);
    if st.used + cw > w {
        let m = markers((w - st.used) as nat, g.1);
        lemma_markers_width((w - st.used) as nat, g.1);
        lemma_line_width_concat(st.line, m);
        lemma_close_if_full(w, Layout { lines: st.lines, line: st.line + m, used: w, first: false });
    } else {
        let l2 = st.line.push((g.0, Some(g.1)));
        assert(l2.drop_last() =~= st.line);
        lemma_close_if_full(
            w,
            Layout { lines: st.lines, line: l2, used: st.used + cw, first: false },
        );
    }
}

proof fn lemma_place_all(w: nat, st: Layout, gs: Seq<Glyph>)
    requires
        layout_ok(w, st),
        st.used < w,
        glyph_width(REPLACEMENT) == 1,
    ensures
        layout_ok(w, place_all(w, st, gs)),
        place_all(w, st, gs).used < w,
    decreases gs.len(),
{
    if gs.len() > 0 {
        lemma_place_all(w, st, gs.drop_last());
        lemma_place(w, place_all(w, st, gs.drop_last()), gs.last());
    }
}

proof fn lemma_put_word(w: nat, st: Layout, word: Seq<Glyph>)
    requires
        layout_ok(w, st),
        w > 0,
        glyph_width(' ') == 1,
        glyph_width(REPLACEMENT) == 1,
    ensures
        layout_ok(w, put_word(w, st, word)),
{
    let ww = line_width(cells_of(word));
    lemma_line_width_concat(st.line, cells_of(word));
    if st.used + ww <= w {
    } else if ww <= w {
        let p = padding((w - st.used) as nat);
        lemma_padding_width((w - st.used) as nat);
        lemma_line_width_concat(st.line, p);
        let st2 = put_word(w, st, word);
        assert forall|i: int| 0 <= i < st2.lines.len() implies line_width(#[trigger] st2.lines[i]) == w by {
            if i < st.lines.len() {
                assert(st2.lines[i] == st.lines[i]);
            }
        }
    } else {
        lemma_close_if_full(w, st);
        lemma_place_all(w, close_if_full(w, st), word);
    }
}

proof fn lemma_word_fold(w: nat, gs: Seq<Glyph>)
    requires
        w > 0,
        glyph_width(' ') == 1,
        glyph_width(REPLACEMENT) == 1,
    ensures
        layout_ok(w, word_fold(w, gs).0),
    decreases gs.len(),
{
    if gs.len() > 0 {
        lemma_word_fold(w, gs.drop_last());
        let (st, cur, sep) = word_fold(w, gs.drop_last());
        let b = before_word(w, st, sep);
        if !st.first && st.used < w {
            assert(b.line.drop_last() =~= st.line);
        }
        lemma_put_word(w, b, cur);
    }
}

/// Every line that either mode lays out takes at most `w` columns.
pub proof fn lemma_lines_within_width(w: nat, keep_words: bool, gs: Seq<Glyph>)
    requires
        w > 0,
        glyph_width(' ') == 1,
        glyph_width(REPLACEMENT) == 1,
    ensures
        forall|i: int|
            0 <= i < layout_lines(w, keep_words, gs).len() ==> line_width(
                #[trigger] layout_lines(w, keep_words, gs)[i],
            ) <= w,
{
    if keep_words {
        lemma_word_lines_exact(w, gs);
    } else {
        lemma_place_all(w, empty_layout(), gs);
    }
}

/// Every line that the word-keeping mode lays out takes exactly `w` columns.
pub proof fn lemma_word_lines_exact(w: nat, gs: Seq<Glyph>)
    requires
        w > 0,
        glyph_width(' ') == 1,
        glyph_width(REPLACEMENT) == 1,
    ensures
        forall|i: int|
            0 <= i < word_lines(w, gs).len() ==> line_width(#[trigger] word_lines(w, gs)[i]) == w,
{
    lemma_word_fold(w, gs);
    let (st, cur, sep) = word_fold(w, gs);
    let b = before_word(w, st, sep);
    if !st.first && st.used < w {
        assert(b.line.drop_last() =~= st.line);
    }
    lemma_put_word(w, b, cur);
    let st2 = put_word(w, b, cur);
    if st2.used > 0 {
        lemma_padding_width((w - st2.used) as nat);
        lemma_line_width_concat(st2.line, padding((w - st2.used) as nat));
        let ls = word_lines(w, gs);
        assert forall|i: int| 0 <= i < ls.len() implies line_width(#[trigger] ls[i]) == w by {
            if i < st2.lines.len() {
                assert(ls[i] == st2.lines[i]);
            }
        }
    }
}

} // verus!
