//! Frame compositing: ANSI-aware line merging, frame creation, and placing
//! a widget's rendered lines into a frame at an offset.
//!
//! A frame is an ordered sequence of fixed-width text lines. Overlaying a
//! widget's output at an `(x, y)` offset must not corrupt embedded escape
//! sequences and must preserve the styling of characters outside the
//! overlay; the tab character is a transparent marker that lets underlying
//! content show through.

use vstd::prelude::*;

use crate::ansi::{
    compress_spec, compress_string, lemma_compress_round_trip, lemma_compress_rec_wf,
    compress_rec, decompress_spec, CompressedSpec,
};
use crate::widget::Component;

verus! {

/// Relies on `String::push`: appends the one character to the end of the
/// string.
pub assume_specification[ String::push ](s: &mut String, ch: char)
    ensures
        final(s)@ == old(s)@ + seq![ch],
;

/// Builds the string holding exactly the given characters.
pub fn chars_to_string(v: &Vec<char>) -> (r: String)
    ensures
        r@ == v@,
{
    let mut r = String::new();
    let mut i: usize = 0;
    while i < v.len()
        invariant
            i <= v@.len(),
            r@ == v@.take(i as int),
        decreases v@.len() - i,
    {
        r.push(v[i]);
        i += 1;
        proof {
            assert(r@ =~= v@.take(i as int));
        }
    }
    proof {
        assert(v@.take(v@.len() as int) =~= v@);
    }
    r
}

/// A trailing escape run is kept by appending a line-break placeholder, so
/// the merge does not drop it at the boundary.
pub open spec fn pad_line(c: CompressedSpec) -> CompressedSpec {
    if c.escapes.len() > 0 && c.escapes.last().len() > 0 {
        CompressedSpec { plain: c.plain.push('\n'), escapes: c.escapes.push(Seq::empty()) }
    } else {
        c
    }
}

/// What the merged line holds at visible position `i` of the frame: the
/// overlay's escape and character where the overlay covers `i` with a
/// non-transparent character, the frame's own escape and character
/// everywhere else. A line-break placeholder in the overlay keeps the
/// frame's character while contributing its escape.
pub open spec fn merge_cell(f: CompressedSpec, l: CompressedSpec, x: int, i: int) -> Seq<char> {
    if x <= i && i - x < l.plain.len() && l.plain[i - x] != '\t' {
        l.escapes[i - x] + seq![
            if l.plain[i - x] == '\n' {
                f.plain[i]
            } else {
                l.plain[i - x]
            },
        ]
    } else {
        f.escapes[i] + seq![f.plain[i]]
    }
}

/// The first `n` merged cells, concatenated.
pub open spec fn merge_up_to(f: CompressedSpec, l: CompressedSpec, x: int, n: int) -> Seq<char>
    decreases n,
{
    if n <= 0 {
        Seq::empty()
    } else {
        merge_up_to(f, l, x, n - 1) + merge_cell(f, l, x, n - 1)
    }
}

/// The merge of a whole frame line with an overlay line at offset `x`.
pub open spec fn merge_line_spec(frame: Seq<char>, line: Seq<char>, x: int) -> Seq<char> {
    let f = compress_spec(frame);
    let l = pad_line(compress_spec(line));
    merge_up_to(f, l, x, f.plain.len() as int)
}

/// Overlays `line_` onto `frame_` starting at visible column `x`.
///
/// Escape sequences in either line never shift the alignment: positions are
/// counted over visible characters only. Transparent (tab) cells of the
/// overlay keep the frame's content; positions past the end of the frame's
/// visible width never land, so an overlay wholly outside the frame is a
/// no-op.
pub fn merge_line(frame_: &str, line_: &str, x: usize) -> (r: String)
    ensures
        r@ == merge_line_spec(frame_@, line_@, x as int),
{
    let f = compress_string(frame_);
    let mut l = compress_string(line_);
    let trailing: bool = l.escapes[l.escapes.len() - 1].len() > 0;
    if trailing {
        l.plain.push('\n');
        l.escapes.push(Vec::new());
    }
    proof {
        assert(l@.escapes =~~= pad_line(compress_spec(line_@)).escapes);
        assert(l@ == pad_line(compress_spec(line_@)));
    }
    let ghost lg = pad_line(compress_spec(line_@));
    let mut out: Vec<char> = Vec::new();
    let mut i: usize = 0;
    let flen: usize = f.plain.len();
    while i < flen
        invariant
            i <= flen,
            flen == f@.plain.len(),
            f@ == compress_spec(frame_@),
            f@.wf(),
            l@ == lg,
            lg.wf(),
            out@ == merge_up_to(f@, lg, x as int, i as int),
        decreases flen - i,
    {
        if i >= x && i - x < l.plain.len() && l.plain[i - x] != '\t' {
            let esc = &l.escapes[i - x];
            let mut t: usize = 0;
            while t < esc.len()
                invariant
                    t <= esc@.len(),
                    out@ == merge_up_to(f@, lg, x as int, i as int) + esc@.take(t as int),
                    esc@ == lg.escapes[i - x],
                    i >= x,
                    (i - x) < lg.plain.len(),
                decreases esc@.len() - t,
            {
                out.push(esc[t]);
                t += 1;
                proof {
                    assert(merge_up_to(f@, lg, x as int, i as int) + esc@.take(t as int) =~= (
                    merge_up_to(f@, lg, x as int, i as int) + esc@.take((t - 1) as int)).push(
                        esc@[t - 1],
                    ));
                }
            }
            proof {
                assert(esc@.take(esc@.len() as int) =~= esc@);
            }
            if l.plain[i - x] == '\n' {
                out.push(f.plain[i]);
            } else {
                out.push(l.plain[i - x]);
            }
            proof {
                assert(out@ =~= merge_up_to(f@, lg, x as int, i as int) + merge_cell(
                    f@,
                    lg,
                    x as int,
                    i as int,
                ));
            }
        } else {
            let esc = &f.escapes[i];
            let mut t: usize = 0;
            while t < esc.len()
                invariant
                    t <= esc@.len(),
                    out@ == merge_up_to(f@, lg, x as int, i as int) + esc@.take(t as int),
                    esc@ == f@.escapes[i as int],
                    i < flen,
                    flen == f@.plain.len(),
                decreases esc@.len() - t,
            {
                out.push(esc[t]);
                t += 1;
                proof {
                    assert(merge_up_to(f@, lg, x as int, i as int) + esc@.take(t as int) =~= (
                    merge_up_to(f@, lg, x as int, i as int) + esc@.take((t - 1) as int)).push(
                        esc@[t - 1],
                    ));
                }
            }
            proof {
                assert(esc@.take(esc@.len() as int) =~= esc@);
            }
            out.push(f.plain[i]);
            proof {
                assert(out@ =~= merge_up_to(f@, lg, x as int, i as int) + merge_cell(
                    f@,
                    lg,
                    x as int,
                    i as int,
                ));
            }
        }
        i += 1;
    }
    chars_to_string(&out)
}

/// The first `n` cells of the frame itself, escapes replayed in place.
spec fn cells(f: CompressedSpec, n: int) -> Seq<char>
    decreases n,
{
    if n <= 0 {
        Seq::empty()
    } else {
        cells(f, n - 1) + (f.escapes[n - 1] + seq![f.plain[n - 1]])
    }
}

proof fn lemma_cells_shift(f: CompressedSpec, m: int)
    requires
        f.wf(),
        f.plain.len() > 0,
        1 <= m <= f.plain.len(),
    ensures
        cells(f, m) == (f.escapes[0] + seq![f.plain[0]]) + cells(
            CompressedSpec { plain: f.plain.skip(1), escapes: f.escapes.skip(1) },
            m - 1,
        ),
    decreases m,
{
    let tail = CompressedSpec { plain: f.plain.skip(1), escapes: f.escapes.skip(1) };
    let head = f.escapes[0] + seq![f.plain[0]];
    if m == 1 {
        assert(cells(f, 0) == Seq::<char>::empty());
        assert(cells(tail, 0) == Seq::<char>::empty());
        assert(cells(f, 1) =~= head + cells(tail, 0));
    } else {
        lemma_cells_shift(f, m - 1);
        assert(f.escapes[m - 1] == tail.escapes[m - 2]);
        assert(f.plain[m - 1] == tail.plain[m - 2]);
        assert((head + cells(tail, m - 2)) + (tail.escapes[m - 2] + seq![tail.plain[m - 2]])
            =~= head + cells(tail, m - 1));
    }
}

proof fn lemma_decompress_cells(f: CompressedSpec)
    requires
        f.wf(),
    ensures
        decompress_spec(f) == cells(f, f.plain.len() as int) + f.escapes[f.plain.len() as int],
    decreases f.plain.len(),
{
    let n = f.plain.len() as int;
    if n == 0 {
        assert(cells(f, 0) + f.escapes[0] =~= f.escapes[0]);
    } else {
        let tail = CompressedSpec { plain: f.plain.skip(1), escapes: f.escapes.skip(1) };
        lemma_decompress_cells(tail);
        lemma_cells_shift(f, n);
        let head = f.escapes[0] + seq![f.plain[0]];
        assert(f.escapes[n] == tail.escapes[n - 1]);
        assert(decompress_spec(f) == head + (cells(tail, n - 1) + tail.escapes[n - 1]));
        assert(head + (cells(tail, n - 1) + tail.escapes[n - 1]) =~= (head + cells(tail, n - 1))
            + tail.escapes[n - 1]);
    }
}

proof fn lemma_merge_all_frame(f: CompressedSpec, l: CompressedSpec, x: int, n: int)
    requires
        forall|i: int|
            0 <= i < n ==> #[trigger] merge_cell(f, l, x, i) == f.escapes[i] + seq![f.plain[i]],
    ensures
        merge_up_to(f, l, x, n) == cells(f, n),
    decreases n,
{
    if n > 0 {
        lemma_merge_all_frame(f, l, x, n - 1);
    }
}

proof fn lemma_compress_no_esc(s: Seq<char>, i: int)
    requires
        0 <= i <= s.len(),
        forall|t: int| 0 <= t < s.len() ==> s[t] != '\x1b',
    ensures
        compress_rec(s, i).plain == s.skip(i),
        compress_rec(s, i).escapes == Seq::new(
            (s.len() - i + 1) as nat,
            |t: int| Seq::<char>::empty(),
        ),
    decreases s.len() - i,
{
    if i >= s.len() {
        assert(compress_rec(s, i).plain =~= s.skip(i));
        assert(compress_rec(s, i).escapes =~~= Seq::new(
            (s.len() - i + 1) as nat,
            |t: int| Seq::<char>::empty(),
        ));
    } else {
        lemma_compress_no_esc(s, i + 1);
        assert(compress_rec(s, i).plain =~= s.skip(i));
        assert(compress_rec(s, i).escapes =~~= Seq::new(
            (s.len() - i + 1) as nat,
            |t: int| Seq::<char>::empty(),
        ));
    }
}

/// Merge transparency law: an overlay made only of the transparent marker
/// leaves the frame unchanged, at any offset. (The frame line must not end
/// in an escape run: a run recorded after the last visible character is
/// dropped by the merge.)
pub proof fn lemma_merge_transparent(frame: Seq<char>, line: Seq<char>, x: int)
    requires
        forall|t: int| 0 <= t < line.len() ==> line[t] == '\t',
        compress_spec(frame).escapes.last().len() == 0,
    ensures
        merge_line_spec(frame, line, x) == frame,
{
    let f = compress_spec(frame);
    lemma_compress_rec_wf(frame, 0);
    lemma_compress_no_esc(line, 0);
    let l0 = compress_spec(line);
    assert(pad_line(l0) == l0);
    assert forall|i: int|
        0 <= i < f.plain.len() implies #[trigger] merge_cell(f, l0, x, i) == f.escapes[i]
        + seq![f.plain[i]] by {
        if x <= i && i - x < l0.plain.len() {
            assert(l0.plain[i - x] == line[i - x]);
        }
    }
    lemma_merge_all_frame(f, l0, x, f.plain.len() as int);
    lemma_decompress_cells(f);
    lemma_compress_round_trip(frame);
    assert(f.escapes[f.plain.len() as int] =~= Seq::<char>::empty());
    assert(cells(f, f.plain.len() as int) + Seq::<char>::empty() =~= cells(
        f,
        f.plain.len() as int,
    ));
}

/// Merge containment law: an overlay whose columns lie entirely at or past
/// the frame's visible width leaves the frame unchanged. (As above, the
/// frame line must not end in an escape run.)
pub proof fn lemma_merge_outside(frame: Seq<char>, line: Seq<char>, x: int)
    requires
        x >= compress_spec(frame).plain.len(),
        compress_spec(frame).escapes.last().len() == 0,
    ensures
        merge_line_spec(frame, line, x) == frame,
{
    let f = compress_spec(frame);
    lemma_compress_rec_wf(frame, 0);
    let l = pad_line(compress_spec(line));
    assert forall|i: int|
        0 <= i < f.plain.len() implies #[trigger] merge_cell(f, l, x, i) == f.escapes[i]
        + seq![f.plain[i]] by {}
    lemma_merge_all_frame(f, l, x, f.plain.len() as int);
    lemma_decompress_cells(f);
    lemma_compress_round_trip(frame);
    assert(f.escapes[f.plain.len() as int] =~= Seq::<char>::empty());
    assert(cells(f, f.plain.len() as int) + Seq::<char>::empty() =~= cells(
        f,
        f.plain.len() as int,
    ));
}

/// Index of the first line break in `s` (`s.len()` when there is none).
pub open spec fn first_nl(s: Seq<char>) -> nat
    decreases s.len(),
{
    if s.len() == 0 {
        0
    } else if s[0] == '\n' {
        0
    } else {
        1 + first_nl(s.skip(1))
    }
}

/// The lines of `s`, split on the line-break character.
pub open spec fn split_lines_spec(s: Seq<char>) -> Seq<Seq<char>>
    decreases s.len(),
{
    let i = first_nl(s) as int;
    if i >= s.len() {
        seq![s]
    } else {
        seq![s.take(i)] + split_lines_spec(s.skip(i + 1))
    }
}

proof fn lemma_split_nonempty(s: Seq<char>)
    ensures
        split_lines_spec(s).len() >= 1,
{
}

/// The given prefix glued onto the first of the lines.
spec fn cons_first(p: Seq<char>, lines: Seq<Seq<char>>) -> Seq<Seq<char>> {
    seq![p + lines[0]] + lines.skip(1)
}

proof fn lemma_split_cons(s: Seq<char>)
    requires
        s.len() > 0,
        s[0] != '\n',
    ensures
        split_lines_spec(s) == cons_first(seq![s[0]], split_lines_spec(s.skip(1))),
{
    let s1 = s.skip(1);
    let i1 = first_nl(s1) as int;
    assert(first_nl(s) == 1 + first_nl(s1));
    if i1 >= s1.len() {
        assert(split_lines_spec(s) == seq![s]);
        assert(split_lines_spec(s1) == seq![s1]);
        assert(cons_first(seq![s[0]], seq![s1]) =~~= seq![seq![s[0]] + s1]);
        assert(seq![s[0]] + s1 =~= s);
    } else {
        assert(split_lines_spec(s) == seq![s.take(i1 + 1)] + split_lines_spec(s.skip(i1 + 2)));
        assert(split_lines_spec(s1) == seq![s1.take(i1)] + split_lines_spec(s1.skip(i1 + 1)));
        assert(s.take(i1 + 1) =~= seq![s[0]] + s1.take(i1));
        assert(s.skip(i1 + 2) =~= s1.skip(i1 + 1));
        assert(cons_first(seq![s[0]], split_lines_spec(s1)) =~~= seq![s.take(i1 + 1)]
            + split_lines_spec(s.skip(i1 + 2)));
    }
}

/// The view of a list of lines: each as its character sequence.
pub open spec fn lines_view(ls: Seq<String>) -> Seq<Seq<char>> {
    Seq::new(ls.len(), |i: int| ls[i]@)
}

/// Splits rendered output on line breaks.
pub fn split_lines(s: &str) -> (r: Vec<String>)
    ensures
        lines_view(r@) == split_lines_spec(s@),
{
    let cs = crate::ansi::str_chars(s);
    let mut done: Vec<String> = Vec::new();
    let mut cur: Vec<char> = Vec::new();
    let mut i: usize = 0;
    proof {
        lemma_split_nonempty(s@);
        assert(s@.skip(0) == s@);
        assert(lines_view(done@) + cons_first(cur@, split_lines_spec(s@)) =~~= split_lines_spec(
            s@,
        ));
    }
    while i < cs.len()
        invariant
            i <= cs@.len(),
            cs@ == s@,
            split_lines_spec(s@) == lines_view(done@) + cons_first(
                cur@,
                split_lines_spec(s@.skip(i as int)),
            ),
        decreases cs@.len() - i,
    {
        let ghost old_done = done@;
        let ghost old_cur = cur@;
        proof {
            assert(s@.skip(i as int).len() > 0);
            assert(s@.skip(i as int)[0] == s@[i as int]);
            assert(s@.skip(i as int).skip(1) =~= s@.skip(i as int + 1));
            lemma_split_nonempty(s@.skip(i as int + 1));
        }
        if cs[i] == '\n' {
            let finished = chars_to_string(&cur);
            done.push(finished);
            cur = Vec::new();
            proof {
                let rest = split_lines_spec(s@.skip(i as int + 1));
                assert(split_lines_spec(s@.skip(i as int)) == seq![
                    s@.skip(i as int).take(0),
                ] + rest);
                assert(s@.skip(i as int).take(0) =~= Seq::<char>::empty());
                assert(cons_first(old_cur, seq![Seq::<char>::empty()] + rest) =~~= seq![old_cur]
                    + cons_first(Seq::<char>::empty(), rest));
                assert(cons_first(Seq::<char>::empty(), rest) =~~= rest);
                assert(cons_first(cur@, rest) =~~= rest);
                assert(lines_view(done@) =~~= lines_view(old_done) + seq![old_cur]);
                assert(lines_view(done@) + cons_first(cur@, rest) =~~= lines_view(old_done)
                    + cons_first(old_cur, split_lines_spec(s@.skip(i as int))));
            }
        } else {
            cur.push(cs[i]);
            proof {
                let rest = split_lines_spec(s@.skip(i as int + 1));
                lemma_split_cons(s@.skip(i as int));
                assert(split_lines_spec(s@.skip(i as int)) == cons_first(
                    seq![s@[i as int]],
                    rest,
                ));
                assert(cons_first(old_cur, cons_first(seq![s@[i as int]], rest)) =~~= cons_first(
                    cur@,
                    rest,
                ));
            }
        }
        i += 1;
    }
    proof {
        assert(s@.skip(i as int).len() == 0);
        assert(first_nl(s@.skip(i as int)) == 0);
        assert(split_lines_spec(s@.skip(i as int)) == seq![s@.skip(i as int)]);
    }
    let last = chars_to_string(&cur);
    done.push(last);
    proof {
        assert(cons_first(cur@, seq![s@.skip(i as int)]) =~~= seq![cur@]);
        assert(lines_view(done@) =~~= split_lines_spec(s@));
    }
    done
}

/// The frame after the first `n` rendered lines have been overlaid at
/// offset `(x, y)`: line `t` lands on frame row `y + t` when that row
/// exists, and is dropped (clipped) when it does not.
pub open spec fn place_lines(
    frame: Seq<Seq<char>>,
    lines: Seq<Seq<char>>,
    x: int,
    y: int,
    n: int,
) -> Seq<Seq<char>>
    decreases n,
{
    if n <= 0 {
        frame
    } else {
        let fr = place_lines(frame, lines, x, y, n - 1);
        let row = y + n - 1;
        if 0 <= row < fr.len() {
            fr.update(row, merge_line_spec(fr[row], lines[n - 1], x))
        } else {
            fr
        }
    }
}

pub proof fn lemma_place_lines_len(
    frame: Seq<Seq<char>>,
    lines: Seq<Seq<char>>,
    x: int,
    y: int,
    n: int,
)
    ensures
        place_lines(frame, lines, x, y, n).len() == frame.len(),
    decreases n,
{
    if n > 0 {
        lemma_place_lines_len(frame, lines, x, y, n - 1);
    }
}

/// Clipping law: rows of the frame that no rendered line lands on keep
/// their previous content; only in-range rows are merged.
pub proof fn lemma_place_lines_clip(
    frame: Seq<Seq<char>>,
    lines: Seq<Seq<char>>,
    x: int,
    y: int,
    n: int,
    row: int,
)
    requires
        0 <= row < frame.len(),
        !(y <= row < y + n),
    ensures
        place_lines(frame, lines, x, y, n)[row] == frame[row],
    decreases n,
{
    if n > 0 {
        lemma_place_lines_len(frame, lines, x, y, n - 1);
        lemma_place_lines_clip(frame, lines, x, y, n - 1, row);
    }
}

/// Overlays each of the rendered lines onto the frame at offset `(x, y)`;
/// rows past the frame's height are silently dropped.
pub fn render_lines_to_frame(frame: &mut Vec<String>, lines: &Vec<String>, x: usize, y: usize)
    ensures
        frame_view(final(frame)@) == place_lines(
            frame_view(old(frame)@),
            lines_view(lines@),
            x as int,
            y as int,
            lines@.len() as int,
        ),
        final(frame)@.len() == old(frame)@.len(),
{
    let mut i: usize = 0;
    while i < lines.len()
        invariant
            i <= lines@.len(),
            frame@.len() == old(frame)@.len(),
            frame_view(frame@) == place_lines(
                frame_view(old(frame)@),
                lines_view(lines@),
                x as int,
                y as int,
                i as int,
            ),
        decreases lines@.len() - i,
    {
        let ghost before = frame_view(frame@);
        if y < frame.len() && i < frame.len() - y {
            let row: usize = y + i;
            let merged = merge_line(frame[row].as_str(), lines[i].as_str(), x);
            frame.set(row, merged);
            proof {
                assert(frame_view(frame@) =~~= before.update(
                    row as int,
                    merge_line_spec(before[row as int], lines_view(lines@)[i as int], x as int),
                ));
            }
        }
        i += 1;
    }
}

/// A direction of focus movement.
#[derive(Debug, Clone, Copy, PartialEq, Eq, Structural)]
pub enum Direction {
    Left,
    Right,
    Up,
    Down,
}

/// Whether sibling `i` lies strictly beyond `cur` along the axis of the
/// direction and exactly aligned on the perpendicular axis.
pub open spec fn is_focus_candidate(
    cs: Seq<Component>,
    cur: Component,
    d: Direction,
    i: int,
) -> bool {
    &&& 0 <= i < cs.len()
    &&& match d {
        Direction::Left => cs[i].x < cur.x && cs[i].y == cur.y,
        Direction::Right => cs[i].x > cur.x && cs[i].y == cur.y,
        Direction::Up => cs[i].y < cur.y && cs[i].x == cur.x,
        Direction::Down => cs[i].y > cur.y && cs[i].x == cur.x,
    }
}

/// Manhattan distance between two widgets' positions.
pub open spec fn manhattan(a: Component, b: Component) -> int {
    (if a.x >= b.x {
        a.x - b.x
    } else {
        b.x - a.x
    }) + (if a.y >= b.y {
        a.y - b.y
    } else {
        b.y - a.y
    })
}

/// The best candidate (index and distance) among the first `n` siblings:
/// smallest Manhattan distance, earliest index on a tie.
pub open spec fn closest_fold(
    cs: Seq<Component>,
    cur: Component,
    d: Direction,
    n: int,
) -> Option<(int, int)>
    decreases n,
{
    if n <= 0 {
        Option::None
    } else {
        let prev = closest_fold(cs, cur, d, n - 1);
        if is_focus_candidate(cs, cur, d, n - 1) {
            let dist = manhattan(cur, cs[n - 1]);
            match prev {
                Option::None => Option::Some((n - 1, dist)),
                Option::Some(p) => if dist < p.1 {
                    Option::Some((n - 1, dist))
                } else {
                    Option::Some(p)
                },
            }
        } else {
            prev
        }
    }
}

/// The index the directional search selects: the best candidate, or the
/// current index unchanged when there is none.
pub open spec fn closest_index_spec(cs: Seq<Component>, cur_idx: int, d: Direction) -> int {
    match closest_fold(cs, cs[cur_idx], d, cs.len() as int) {
        Option::Some(p) => p.0,
        Option::None => cur_idx,
    }
}

/// The fold only ever selects an actual candidate, at a valid index.
pub proof fn lemma_closest_fold_candidate(cs: Seq<Component>, cur: Component, d: Direction, n: int)
    requires
        n <= cs.len(),
    ensures
        match closest_fold(cs, cur, d, n) {
            Option::Some(p) => 0 <= p.0 < cs.len() && is_focus_candidate(cs, cur, d, p.0),
            Option::None => true,
        },
    decreases n,
{
    if n > 0 {
        lemma_closest_fold_candidate(cs, cur, d, n - 1);
    }
}

/// The directional search always lands on a valid index: a candidate's
/// index when one exists, the current index otherwise.
pub proof fn lemma_closest_index_valid(cs: Seq<Component>, cur_idx: int, d: Direction)
    requires
        0 <= cur_idx < cs.len(),
    ensures
        0 <= closest_index_spec(cs, cur_idx, d) < cs.len(),
{
    lemma_closest_fold_candidate(cs, cs[cur_idx], d, cs.len() as int);
}

/// Picks the next focused sibling for a directional move: among the
/// siblings strictly beyond the current one along the requested axis and
/// exactly aligned on the perpendicular axis, the one at the smallest
/// Manhattan distance wins, ties broken by child order (the first minimal
/// match). With no candidate the current index comes back unchanged — no
/// wraparound.
pub fn closest_component(
    components: &Vec<Component>,
    current_index: usize,
    direction: Direction,
) -> (r: usize)
    requires
        (current_index as int) < components@.len(),
    ensures
        r as int == closest_index_spec(components@, current_index as int, direction),
        ({
            let cs = components@;
            let cur = cs[current_index as int];
            if exists|i: int| is_focus_candidate(cs, cur, direction, i) {
                &&& is_focus_candidate(cs, cur, direction, r as int)
                &&& forall|i: int|
                    is_focus_candidate(cs, cur, direction, i) ==> manhattan(
                        cur,
                        cs[r as int],
                    ) <= manhattan(cur, cs[i])
                &&& forall|i: int|
                    0 <= i < r && is_focus_candidate(cs, cur, direction, i) ==> manhattan(
                        cur,
                        cs[i],
                    ) > manhattan(cur, cs[r as int])
            } else {
                r == current_index
            }
        }),
{
    let ghost cs = components@;
    let ghost cur_g = cs[current_index as int];
    let cx = components[current_index].x;
    let cy = components[current_index].y;
    let mut best: usize = 0;
    let mut best_dist: u128 = 0;
    let mut found: bool = false;
    let mut i: usize = 0;
    while i < components.len()
        invariant
            i <= cs.len(),
            cs == components@,
            cur_g == cs[current_index as int],
            (current_index as int) < cs.len(),
            cx == cur_g.x,
            cy == cur_g.y,
            match closest_fold(cs, cur_g, direction, i as int) {
                Option::Some(p) => found && p.0 == best as int && p.1 == best_dist as int,
                Option::None => !found,
            },
            !found ==> forall|t: int| 0 <= t < i ==> !is_focus_candidate(cs, cur_g, direction, t),
            found ==> {
                &&& is_focus_candidate(cs, cur_g, direction, best as int)
                &&& (best as int) < i
                &&& best_dist == manhattan(cur_g, cs[best as int])
                &&& forall|t: int|
                    0 <= t < i && is_focus_candidate(cs, cur_g, direction, t) ==> manhattan(
                        cur_g,
                        cs[best as int],
                    ) <= manhattan(cur_g, cs[t])
                &&& forall|t: int|
                    0 <= t < best && is_focus_candidate(cs, cur_g, direction, t) ==> manhattan(
                        cur_g,
                        cs[t],
                    ) > manhattan(cur_g, cs[best as int])
            },
        decreases cs.len() - i,
    {
        let c = &components[i];
        let is_cand: bool = match direction {
            Direction::Left => c.x < cx && c.y == cy,
            Direction::Right => c.x > cx && c.y == cy,
            Direction::Up => c.y < cy && c.x == cx,
            Direction::Down => c.y > cy && c.x == cx,
        };
        if is_cand {
            let dx: usize = if cx >= c.x {
                cx - c.x
            } else {
                c.x - cx
            };
            let dy: usize = if cy >= c.y {
                cy - c.y
            } else {
                c.y - cy
            };
            let d: u128 = (dx as u128) + (dy as u128);
            if !found || d < best_dist {
                best = i;
                best_dist = d;
                found = true;
            }
        }
        i += 1;
    }
    if found {
        best
    } else {
        current_index
    }
}

/// A blank row: `width` spaces.
pub open spec fn blank_row(width: nat) -> Seq<char> {
    Seq::new(width, |j: int| ' ')
}

/// The view of a frame: each row as its character sequence.
pub open spec fn frame_view(fr: Seq<String>) -> Seq<Seq<char>> {
    lines_view(fr)
}

/// `height` blank rows of `width` spaces: the base buffer a container
/// renders its children into before joining the rows as its own output.
pub fn create_frame(width: usize, height: usize) -> (r: Vec<String>)
    ensures
        frame_view(r@) == Seq::new(height as nat, |i: int| blank_row(width as nat)),
        r@.len() == height,
{
    let mut r: Vec<String> = Vec::new();
    let mut i: usize = 0;
    while i < height
        invariant
            i <= height,
            r@.len() == i,
            forall|t: int| 0 <= t < i ==> r@[t]@ == blank_row(width as nat),
        decreases height - i,
    {
        let mut row = String::new();
        let mut j: usize = 0;
        while j < width
            invariant
                j <= width,
                row@ == blank_row(j as nat),
            decreases width - j,
        {
            row.push(' ');
            j += 1;
            proof {
                assert(row@ =~= blank_row(j as nat));
            }
        }
        r.push(row);
        i += 1;
    }
    proof {
        assert(frame_view(r@) =~~= Seq::new(height as nat, |i: int| blank_row(width as nat)));
    }
    r
}

} // verus!

