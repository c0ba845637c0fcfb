//! Wrapping the output of the plain mode a second time.

use vstd::prelude::*;
use crate::layout::{
    Glyph, Layout, REPLACEMENT, chunk_lines, close_if_full, empty_layout, lemma_line_width_concat,
    lemma_markers_width, line_width, markers, place, place_all,
};
use crate::render::Cell;
use crate::width::glyph_width;

verus! {

/// A line's cells read back as glyphs; a cell of no span is read as span `t0`.
pub open spec fn glyphs_of_line(l: Seq<Cell>, t0: usize) -> Seq<Glyph> {
    l.map_values(
        |c: Cell|
            (
                c.0,
                match c.1 {
                    Some(t) => t,
                    None => t0,
                },
            ),
    )
}

/// The lines read back as one run of glyphs, with a line break of span `t0`
/// between each two.
pub open spec fn joined(lines: Seq<Seq<Cell>>, t0: usize) -> Seq<Glyph>
    decreases lines.len(),
{
    if lines.len() == 0 {
        Seq::empty()
    } else if lines.len() == 1 {
        glyphs_of_line(lines[0], t0)
    } else {
        joined(lines.drop_last(), t0) + seq![('\n', t0)] + glyphs_of_line(lines.last(), t0)
    }
}

/// The lines with a line break of span `t0` at the start of each but the
/// first.
pub open spec fn with_breaks(lines: Seq<Seq<Cell>>, t0: usize) -> Seq<Seq<Cell>> {
    Seq::new(
        lines.len(),
        |i: int|
            if i == 0 {
                lines[0]
            } else {
                seq![('\n', Some(t0))] + lines[i]
            },
    )
}

/// Every cell of the line belongs to a span.
pub open spec fn styled(l: Seq<Cell>) -> bool {
    forall|i: int| 0 <= i < l.len() ==> (#[trigger] l[i]).1 is Some
}

/// A line the plain mode finished: `w` columns, reached only by its last cell.
pub open spec fn full_line(w: nat, l: Seq<Cell>) -> bool {
    &&& styled(l)
    &&& l.len() > 0
    &&& line_width(l) == w
    &&& line_width(l.drop_last()) < w
}

/// What holds of every state that the plain mode passes through.
pub open spec fn chunk_ok(w: nat, st: Layout) -> bool {
    &&& forall|i: int| 0 <= i < st.lines.len() ==> full_line(w, #[trigger] st.lines[i])
    &&& styled(st.line)
    &&& line_width(st.line) == st.used
    &&& st.used < w
}

proof fn lemma_close_ok(w: nat, st: Layout)
    requires
        forall|i: int| 0 <= i < st.lines.len() ==> full_line(w, #[trigger] st.lines[i]),
        styled(st.line),
        line_width(st.line) == st.used,
        st.used <= w,
        st.used == w ==> line_width(st.line.drop_last()) < w,
        w > 0,
    ensures
        chunk_ok(w, close_if_full(w, st)),
{
    if st.used == w {
        let st2 = close_if_full(w, st);
        assert forall|i: int| 0 <= i < st2.lines.len() implies full_line(w, #[trigger] st2.lines[i]) by {
            if i < st.lines.len() {
                assert(st2.lines[i] == st.lines[i]);
            }
        }
        assert(styled(st2.line));
    }
}

proof fn lemma_place_ok(w: nat, st: Layout, g: Glyph)
    requires
        chunk_ok(w, st),
        glyph_width(REPLACEMENT) == 1,
    ensures
        chunk_ok(w, place(w, st, g)),
{
    let cw = glyph_width(g.0);
    if st.used + cw > w {
        let m = (w - st.used) as nat;
        let l2 = st.line + markers(m, g.1);
        lemma_markers_width(m, g.1);
        lemma_line_width_concat(st.line, markers(m, g.1));
        assert(l2.drop_last() =~= st.line + markers((m - 1) as nat, g.1));
        lemma_markers_width((m - 1) as nat, g.1);
        lemma_line_width_concat(st.line, markers((m - 1) as nat, g.1));
        lemma_close_ok(w, Layout { lines: st.lines, line: l2, used: w, first: false });
    } else {
        let l2 = st.line.push((g.0, Some(g.1)));
        assert(l2.drop_last() =~= st.line);
        lemma_close_ok(w, Layout { lines: st.lines, line: l2, used: st.used + cw, first: false });
    }
}

proof fn lemma_place_all_ok(w: nat, st: Layout, gs: Seq<Glyph>)
    requires
        chunk_ok(w, st),
        glyph_width(REPLACEMENT) == 1,
    ensures
        chunk_ok(w, place_all(w, st, gs)),
    decreases gs.len(),
{
    if gs.len() > 0 {
        lemma_place_all_ok(w, st, gs.drop_last());
        lemma_place_ok(w, place_all(w, st, gs.drop_last()), gs.last());
    }
}

proof fn lemma_place_all_concat(w: nat, st: Layout, a: Seq<Glyph>, b: Seq<Glyph>)
    ensures
        place_all(w, st, a + b) == place_all(w, place_all(w, st, a), b),
    decreases b.len(),
{
    if b.len() == 0 {
        assert(a + b =~= a);
    } else {
        assert((a + b).drop_last() =~= a + b.drop_last());
        lemma_place_all_concat(w, st, a, b.drop_last());
    }
}

/// Placing the first `k` cells of a styled line again, while they stay
/// short of `w` columns, puts them back as they were.
proof fn lemma_replay(w: nat, st: Layout, l: Seq<Cell>, t0: usize, k: nat)
    requires
        styled(l),
        k <= l.len(),
        st.used + line_width(l.take(k as int)) < w,
    ensures
        ({
            let r = place_all(w, st, glyphs_of_line(l, t0).take(k as int));
            &&& r.lines == st.lines
            &&& r.line == st.line + l.take(k as int)
            &&& r.used == st.used + line_width(l.take(k as int))
        }),
    decreases k,
{
    if k == 0 {
        assert(glyphs_of_line(l, t0).take(0) =~= Seq::<Glyph>::empty());
        assert(st.line + l.take(0) =~= st.line);
    } else {
        let j = (k - 1) as nat;
        assert(l.take(k as int).drop_last() =~= l.take(j as int));
        lemma_replay(w, st, l, t0, j);
        assert(glyphs_of_line(l, t0).take(k as int).drop_last() =~= glyphs_of_line(l, t0).take(
            j as int,
        ));
        assert(l[j as int].1 is Some);
        assert(st.line + l.take(k as int) =~= (st.line + l.take(j as int)).push(l[j as int]));
    }
}

/// Placing a whole finished line again, from a line of no columns, finishes
/// it as it was.
proof fn lemma_replay_full(w: nat, st: Layout, l: Seq<Cell>, t0: usize)
    requires
        full_line(w, l),
        st.used == 0,
        w > 0,
    ensures
        ({
            let r = place_all(w, st, glyphs_of_line(l, t0));
            &&& r.lines == st.lines.push(st.line + l)
            &&& r.line == Seq::<Cell>::empty()
            &&& r.used == 0
        }),
{
    let n = l.len();
    let j = (n - 1) as nat;
    assert(l.take(j as int) =~= l.drop_last());
    lemma_replay(w, st, l, t0, j);
    let g = glyphs_of_line(l, t0);
    assert(g.drop_last() =~= g.take(j as int));
    assert(l.take(j as int).push(l.last()) =~= l);
    assert(l[j as int].1 is Some);
    assert(st.line + l =~= (st.line + l.take(j as int)).push(l[j as int]));
}

proof fn lemma_place_break(w: nat, st: Layout, t0: usize)
    requires
        st.used == 0,
        glyph_width('\n') == 0,
        w > 0,
    ensures
        place(w, st, ('\n', t0)) == (Layout {
            lines: st.lines,
            line: st.line.push(('\n', Some(t0))),
            used: 0,
            first: false,
        }),
{
}

/// Wrapping full lines again, joined by line breaks, gives them back, each
/// after the line break it starts with.
proof fn lemma_rewrap_full(w: nat, lines: Seq<Seq<Cell>>, t0: usize)
    requires
        lines.len() > 0,
        forall|i: int| 0 <= i < lines.len() ==> full_line(w, #[trigger] lines[i]),
        w > 0,
        glyph_width('\n') == 0,
    ensures
        ({
            let r = place_all(w, empty_layout(), joined(lines, t0));
            &&& r.lines == with_breaks(lines, t0)
            &&& r.line == Seq::<Cell>::empty()
            &&& r.used == 0
        }),
    decreases lines.len(),
{
    if lines.len() == 1 {
        lemma_replay_full(w, empty_layout(), lines[0], t0);
        assert(Seq::<Cell>::empty() + lines[0] =~= lines[0]);
        assert(Seq::<Seq<Cell>>::empty().push(lines[0]) =~= with_breaks(lines, t0));
    } else {
        let front = lines.drop_last();
        assert forall|i: int| 0 <= i < front.len() implies full_line(w, #[trigger] front[i]) by {
            assert(front[i] == lines[i]);
        }
        lemma_rewrap_full(w, front, t0);
        let s1 = place_all(w, empty_layout(), joined(front, t0));
        lemma_place_all_concat(w, empty_layout(), joined(front, t0), seq![('\n', t0)]);
        assert(seq![('\n', t0)].drop_last() =~= Seq::<Glyph>::empty());
        lemma_place_break(w, s1, t0);
        let s2 = place_all(w, s1, seq![('\n', t0)]);
        assert(place_all(w, s1, seq![('\n', t0)].drop_last()) == s1);
        assert(s2 == place(w, s1, ('\n', t0)));
        lemma_place_all_concat(
            w,
            empty_layout(),
            joined(front, t0) + seq![('\n', t0)],
            glyphs_of_line(lines.last(), t0),
        );
        lemma_replay_full(w, s2, lines.last(), t0);
        assert(s2.line + lines.last() =~= seq![('\n', Some(t0))] + lines.last());
        assert(with_breaks(front, t0).push(seq![('\n', Some(t0))] + lines.last()) =~= with_breaks(
            lines,
            t0,
        ));
    }
}

/// Wrapping the plain mode's lines again at the same width, joined by line
/// breaks (which take no columns), gives back the same lines: the first as
/// it was, and each later one after the line break that starts it.
pub proof fn lemma_rewrap_keeps_lines(w: nat, gs: Seq<Glyph>, t0: usize)
    requires
        w > 0,
        glyph_width(REPLACEMENT) == 1,
        glyph_width('\n') == 0,
    ensures
        chunk_lines(w, joined(chunk_lines(w, gs), t0)) == with_breaks(chunk_lines(w, gs), t0),
{
    let st = place_all(w, empty_layout(), gs);
    assert(chunk_ok(w, empty_layout())) by {
        assert(styled(Seq::<Cell>::empty()));
    }
    lemma_place_all_ok(w, empty_layout(), gs);
    let ls = chunk_lines(w, gs);
    if st.line.len() == 0 {
        if st.lines.len() == 0 {
            assert(joined(ls, t0) =~= Seq::<Glyph>::empty());
            assert(with_breaks(ls, t0) =~= Seq::<Seq<Cell>>::empty());
        } else {
            lemma_rewrap_full(w, st.lines, t0);
        }
    } else {
        let last = st.line;
        assert(last.take(last.len() as int) =~= last);
        if st.lines.len() == 0 {
            lemma_replay(w, empty_layout(), last, t0, last.len());
            assert(glyphs_of_line(last, t0).take(last.len() as int) =~= glyphs_of_line(last, t0));
            assert(joined(ls, t0) == glyphs_of_line(last, t0));
            assert(Seq::<Cell>::empty() + last =~= last);
            assert(with_breaks(ls, t0) =~= seq![last]);
        } else {
            lemma_rewrap_full(w, st.lines, t0);
            let s1 = place_all(w, empty_layout(), joined(st.lines, t0));
            assert(ls.drop_last() =~= st.lines);
            lemma_place_all_concat(w, empty_layout(), joined(st.lines, t0), seq![('\n', t0)]);
            assert(seq![('\n', t0)].drop_last() =~= Seq::<Glyph>::empty());
            lemma_place_break(w, s1, t0);
            let s2 = place_all(w, s1, seq![('\n', t0)]);
            assert(place_all(w, s1, seq![('\n', t0)].drop_last()) == s1);
            assert(s2 == place(w, s1, ('\n', t0)));
            lemma_place_all_concat(
                w,
                empty_layout(),
                joined(st.lines, t0) + seq![('\n', t0)],
                glyphs_of_line(last, t0),
            );
            lemma_replay(w, s2, last, t0, last.len());
            assert(glyphs_of_line(last, t0).take(last.len() as int) =~= glyphs_of_line(last, t0));
            assert(s2.line + last =~= seq![('\n', Some(t0))] + last);
            assert(with_breaks(st.lines, t0).push(seq![('\n', Some(t0))] + last) =~= with_breaks(
                ls,
                t0,
            ));
        }
    }
}

} // verus!
