//! The renderer: what the screen shows for a layout and a typing position,
//! as rows of styled cells and a cursor position.

use vstd::prelude::*;
use crate::app::MIN_TERM_ROW;
use crate::layout::{lemma_text_len_extend, lemma_tiles_bounds, tiles, Line};
use crate::text::{letters, text_len, views};

verus! {

/// How one character is painted.
#[derive(Clone, Copy, Debug, PartialEq, Eq, Structural)]
pub enum Style {
    /// Part of a word already completed.
    Done,
    /// Typed, and equal to the passage's character.
    Correct,
    /// Typed, and not the passage's character.
    Incorrect,
    /// Typed beyond the end of the current word.
    Extra,
    /// Not typed yet.
    Pending,
}

/// One painted character.
#[derive(Clone, Copy, Debug, PartialEq, Eq, Structural)]
pub struct Cell {
    pub ch: char,
    pub style: Style,
}

/// One paint of the screen: `rows` are drawn on consecutive terminal rows from
/// `top`, each starting at column `left`, and the cursor is left at
/// (`cursor_col`, `cursor_row`).
pub struct Frame {
    pub left: u16,
    pub top: u16,
    pub rows: Vec<Vec<Cell>>,
    pub cursor_col: u16,
    pub cursor_row: u16,
}

/// The views of a sequence of rows.
pub open spec fn row_views(rs: Seq<Vec<Cell>>) -> Seq<Seq<Cell>> {
    rs.map_values(|r: Vec<Cell>| r@)
}

/// Position `j` of the word being typed, `w`, when `b` has been typed of it: a
/// typed position shows the passage's character, correct or not; past the
/// word's end it shows the extra typed character; past what was typed it
/// shows the passage's character, pending.
pub open spec fn typed_cell(w: Seq<char>, b: Seq<char>, j: int) -> Cell {
    if j < w.len() && j < b.len() {
        Cell { ch: w[j], style: if w[j] == b[j] { Style::Correct } else { Style::Incorrect } }
    } else if j < b.len() {
        Cell { ch: b[j], style: Style::Extra }
    } else {
        Cell { ch: w[j], style: Style::Pending }
    }
}

/// Position `j` of word `k`, which is `w`, when word `c` is being typed and
/// `b` has been typed of it.
pub open spec fn word_cell(w: Seq<char>, k: int, c: int, b: Seq<char>, j: int) -> Cell {
    if k < c {
        Cell { ch: w[j], style: Style::Done }
    } else if k > c {
        Cell { ch: w[j], style: Style::Pending }
    } else {
        typed_cell(w, b, j)
    }
}

/// The number of cells of word `k`: its length, or what was typed of it when
/// that is longer.
pub open spec fn word_cells_len(w: Seq<char>, k: int, c: int, b: Seq<char>) -> nat {
    if k == c && b.len() > w.len() {
        b.len()
    } else {
        w.len()
    }
}

/// The cells of word `k`, which is `w`.
pub open spec fn word_cells(w: Seq<char>, k: int, c: int, b: Seq<char>) -> Seq<Cell> {
    Seq::new(word_cells_len(w, k, c, b), |j: int| word_cell(w, k, c, b, j))
}

/// The style of the space that follows word `k`.
pub open spec fn gap_style(k: int, c: int) -> Style {
    if k < c {
        Style::Done
    } else {
        Style::Pending
    }
}

/// The cells of the words `first..end`, one space between two neighbours.
pub open spec fn span_cells(ws: Seq<Seq<char>>, first: int, end: int, c: int, b: Seq<char>) -> Seq<Cell>
    decreases end - first,
{
    if end <= first {
        Seq::empty()
    } else if end == first + 1 {
        word_cells(ws[first], first, c, b)
    } else {
        span_cells(ws, first, end - 1, c, b).push(Cell { ch: ' ', style: gap_style(end - 2, c) })
            + word_cells(ws[end - 1], end - 1, c, b)
    }
}

/// The columns taken by the words `first..c` and the space after each.
pub open spec fn prefix_width(ws: Seq<Seq<char>>, first: int, c: int) -> int {
    letters(ws.subrange(first, c)) + (c - first)
}

/// The index of the line from `i` on that holds word `c`; the last line when
/// none does.
pub open spec fn line_index_from(ls: Seq<Line>, c: int, i: int) -> int
    decreases ls.len() - i,
{
    if i >= ls.len() - 1 {
        ls.len() - 1
    } else if c < ls[i].end {
        i
    } else {
        line_index_from(ls, c, i + 1)
    }
}

/// The line that holds word `c`: the first line that ends after it.
pub open spec fn current_line(ls: Seq<Line>, c: int) -> int {
    if ls.len() == 0 {
        0
    } else {
        line_index_from(ls, c, 0)
    }
}

/// The width of the widest line.
pub open spec fn widest(ls: Seq<Line>) -> nat
    decreases ls.len(),
{
    if ls.len() == 0 {
        0
    } else {
        let w = widest(ls.drop_last());
        if ls.last().width > w {
            ls.last().width as nat
        } else {
            w
        }
    }
}

/// The first column of every line: the widest line is centred.
pub open spec fn margin(cols: u16, ls: Seq<Line>) -> int {
    (cols - widest(ls)) / 2 + 1
}

/// The terminal row of the first row painted.
pub open spec fn top_row(rows: u16) -> int {
    (rows - 3) / 2 - 2
}

/// The first line painted: the one before the current line, if any.
pub open spec fn shown_first(cl: int) -> int {
    if cl > 0 {
        cl - 1
    } else {
        0
    }
}

/// The end of the lines painted: one line after the current one, or two when
/// the current line is the first.
pub open spec fn shown_end(n: int, cl: int) -> int {
    let e = cl + 1 + if cl == 0 && n > 2 { 2int } else { 1int };
    if e < n {
        e
    } else {
        n
    }
}

/// The rows painted for a layout `ls` of the words `ws`, word `c` being typed
/// with `b` typed of it.
pub open spec fn frame_rows(ws: Seq<Seq<char>>, ls: Seq<Line>, c: int, b: Seq<char>) -> Seq<Seq<Cell>> {
    let cl = current_line(ls, c);
    let lo = shown_first(cl);
    let hi = shown_end(ls.len() as int, cl);
    Seq::new(
        (hi - lo) as nat,
        |r: int| span_cells(ws, ls[lo + r].first as int, ls[lo + r].end as int, c, b),
    )
}

/// Where the cursor stands on the current line: after what was typed of the
/// current word, or at the line's end when no word is being typed.
pub open spec fn cursor_offset(ws: Seq<Seq<char>>, ls: Seq<Line>, c: int, b: Seq<char>) -> int {
    if ls.len() == 0 {
        0
    } else {
        let l = ls[current_line(ls, c)];
        if l.first <= c < l.end {
            prefix_width(ws, l.first as int, c) + b.len()
        } else {
            l.width as int
        }
    }
}

/// The cursor's column, held to the largest column the terminal can address.
pub open spec fn cursor_column(cols: u16, ws: Seq<Seq<char>>, ls: Seq<Line>, c: int, b: Seq<char>) -> int {
    let x = margin(cols, ls) + cursor_offset(ws, ls, c, b);
    if x > u16::MAX {
        u16::MAX as int
    } else {
        x
    }
}

/// `f` is the paint of the words `ws`, laid out as `ls` on a terminal `cols`
/// by `rows`, word `c` being typed with `b` typed of it.
pub open spec fn shows(f: Frame, ws: Seq<Seq<char>>, ls: Seq<Line>, c: int, b: Seq<char>, cols: u16, rows: u16) -> bool {
    &&& f.left == margin(cols, ls)
    &&& f.top == top_row(rows)
    &&& row_views(f.rows@) == frame_rows(ws, ls, c, b)
    &&& f.cursor_row == f.top + current_line(ls, c) - shown_first(current_line(ls, c))
    &&& f.cursor_col == cursor_column(cols, ws, ls, c, b)
}

proof fn lemma_span_len(ws: Seq<Seq<char>>, first: int, end: int, c: int, b: Seq<char>)
    requires
        0 <= first < end <= ws.len(),
        end <= c,
    ensures
        span_cells(ws, first, end, c, b).len() == text_len(ws.subrange(first, end)),
    decreases end - first,
{
    lemma_text_len_extend(ws, first, end - 1);
    assert(word_cells(ws[end - 1], end - 1, c, b).len() == ws[end - 1].len());
    if end > first + 1 {
        lemma_span_len(ws, first, end - 1, c, b);
        let p = span_cells(ws, first, end - 1, c, b).push(Cell { ch: ' ', style: gap_style(end - 2, c) });
        assert(span_cells(ws, first, end, c, b) == p + word_cells(ws[end - 1], end - 1, c, b));
    }
}

fn push_word_cells(row: &mut Vec<Cell>, w: &Vec<char>, k: usize, c: usize, b: &Vec<char>)
    ensures
        final(row)@ == old(row)@ + word_cells(w@, k as int, c as int, b@),
{
    let ghost start = row@;
    let ghost cells = word_cells(w@, k as int, c as int, b@);
    let n: usize = if k == c && b.len() > w.len() {
        b.len()
    } else {
        w.len()
    };
    assert(n == cells.len());
    let mut j: usize = 0;
    while j < n
        invariant
            n == cells.len(),
            n == if k == c && b@.len() > w@.len() {
                b@.len()
            } else {
                w@.len()
            },
            cells == word_cells(w@, k as int, c as int, b@),
            j <= n,
            row@ == start + cells.take(j as int),
        decreases n - j,
    {
        let cell = if k < c {
            Cell { ch: w[j], style: Style::Done }
        } else if k > c {
            Cell { ch: w[j], style: Style::Pending }
        } else if j < w.len() && j < b.len() {
            Cell { ch: w[j], style: if w[j] == b[j] { Style::Correct } else { Style::Incorrect } }
        } else if j < b.len() {
            Cell { ch: b[j], style: Style::Extra }
        } else {
            Cell { ch: w[j], style: Style::Pending }
        };
        assert(cell == cells[j as int]);
        row.push(cell);
        assert(start + cells.take(j + 1) =~= (start + cells.take(j as int)).push(cell));
        j = j + 1;
    }
    assert(cells.take(n as int) =~= cells);
}

/// The cells of one line, and the columns before word `c` when the line holds it.
fn line_row(words: &Vec<Vec<char>>, l: Line, c: usize, b: &Vec<char>) -> (r: (Vec<Cell>, usize))
    requires
        l.first < l.end <= words@.len(),
    ensures
        r.0@ == span_cells(views(words@), l.first as int, l.end as int, c as int, b@),
        l.first <= c < l.end ==> r.1 == prefix_width(views(words@), l.first as int, c as int),
{
    let ghost ws = views(words@);
    let mut row: Vec<Cell> = Vec::new();
    let mut off: usize = 0;
    let mut k: usize = l.first;
    while k < l.end
        invariant
            ws == views(words@),
            l.first < l.end <= words@.len(),
            l.first <= k <= l.end,
            row@ == span_cells(ws, l.first as int, k as int, c as int, b@),
            l.first <= c < k ==> off == prefix_width(ws, l.first as int, c as int),
        decreases l.end - k,
    {
        assert(ws[k as int] == words@[k as int]@);
        if k > l.first {
            row.push(Cell { ch: ' ', style: if k - 1 < c { Style::Done } else { Style::Pending } });
        }
        if k == c {
            proof {
                if c > l.first {
                    lemma_span_len(ws, l.first as int, c as int, c as int, b@);
                    lemma_text_len_extend(ws, l.first as int, c - 1);
                    assert(text_len(ws.subrange(l.first as int, c as int)) == letters(
                        ws.subrange(l.first as int, c as int),
                    ) + (c - l.first) - 1);
                } else {
                    assert(ws.subrange(l.first as int, c as int).len() == 0);
                }
            }
            off = row.len();
        }
        push_word_cells(&mut row, &words[k], k, c, b);
        k = k + 1;
    }
    (row, off)
}

fn find_current_line(lines: &Vec<Line>, c: usize) -> (r: usize)
    ensures
        r == current_line(lines@, c as int),
        lines@.len() > 0 ==> r < lines@.len(),
{
    if lines.len() == 0 {
        return 0;
    }
    let mut i: usize = 0;
    while i + 1 < lines.len()
        invariant
            lines@.len() > 0,
            i < lines@.len(),
            current_line(lines@, c as int) == line_index_from(lines@, c as int, i as int),
        decreases lines.len() - i,
    {
        if c < lines[i].end {
            return i;
        }
        i = i + 1;
    }
    i
}

fn widest_line(lines: &Vec<Line>, bound: u16) -> (r: u16)
    requires
        forall|i: int| 0 <= i < lines@.len() ==> #[trigger] lines@[i].width <= bound,
    ensures
        r == widest(lines@),
        r <= bound,
{
    let mut w: u16 = 0;
    let mut i: usize = 0;
    while i < lines.len()
        invariant
            i <= lines@.len(),
            forall|i: int| 0 <= i < lines@.len() ==> #[trigger] lines@[i].width <= bound,
            w == widest(lines@.take(i as int)),
            w <= bound,
        decreases lines.len() - i,
    {
        assert(lines@.take(i + 1).drop_last() =~= lines@.take(i as int));
        if lines[i].width > w as usize {
            w = lines[i].width as u16;
        }
        i = i + 1;
    }
    assert(lines@.take(lines@.len() as int) =~= lines@);
    w
}

/// Paints the passage `words`, laid out as `lines`, with word `current` being
/// typed and `buffer` typed of it: the line before the current one in done
/// style, the current line styled per character, and one or two lines ahead,
/// pending; the cursor stands after what was typed.
pub fn draw(words: &Vec<Vec<char>>, lines: &Vec<Line>, current: usize, buffer: &Vec<char>, cols: u16, rows: u16) -> (f: Frame)
    requires
        tiles(lines@, 0, words@.len() as int),
        forall|i: int| 0 <= i < lines@.len() ==> #[trigger] lines@[i].width <= cols,
        rows >= MIN_TERM_ROW,
    ensures
        shows(f, views(words@), lines@, current as int, buffer@, cols, rows),
{
    let ghost ws = views(words@);
    proof {
        lemma_tiles_bounds(lines@, 0, words@.len() as int);
    }
    let widest = widest_line(lines, cols);
    let left: u16 = (cols - widest) / 2 + 1;
    let top: u16 = (rows - 3) / 2 - 2;
    let cl = find_current_line(lines, current);
    let lo: usize = if cl > 0 {
        cl - 1
    } else {
        0
    };
    let ahead: usize = if cl == 0 && lines.len() > 2 {
        2
    } else {
        1
    };
    let rest: usize = lines.len() - cl;
    let hi: usize = if 1 + ahead < rest {
        cl + 1 + ahead
    } else {
        lines.len()
    };
    let ghost expected = frame_rows(ws, lines@, current as int, buffer@);
    let mut out: Vec<Vec<Cell>> = Vec::new();
    let mut offset: usize = 0;
    let mut i: usize = lo;
    while i < hi
        invariant
            ws == views(words@),
            expected == frame_rows(ws, lines@, current as int, buffer@),
            cl == current_line(lines@, current as int),
            lo == shown_first(cl as int),
            hi == shown_end(lines@.len() as int, cl as int),
            lines@.len() > 0 ==> cl < lines@.len(),
            forall|j: int| 0 <= j < lines@.len() ==> 0 <= #[trigger] lines@[j].first < lines@[j].end <= words@.len(),
            lo <= i <= hi,
            hi <= lines@.len(),
            row_views(out@) == expected.take(i - lo),
            lo <= cl < i && lines@[cl as int].first <= current < lines@[cl as int].end ==> offset == prefix_width(
                ws,
                lines@[cl as int].first as int,
                current as int,
            ),
        decreases hi - i,
    {
        let l = lines[i];
        let (row, off) = line_row(words, l, current, buffer);
        if i == cl {
            offset = off;
        }
        let ghost before = out@;
        out.push(row);
        assert(row_views(out@) =~= row_views(before).push(row@));
        assert(expected.take(i + 1 - lo) =~= expected.take(i - lo).push(expected[i - lo]));
        i = i + 1;
    }
    assert(expected.take(hi - lo) =~= expected);
    let cursor_row: u16 = top + (cl - lo) as u16;
    let mut col: usize = 0;
    if lines.len() > 0 {
        let l = lines[cl];
        if l.first <= current && current < l.end {
            col = if offset > usize::MAX - buffer.len() {
                usize::MAX
            } else {
                offset + buffer.len()
            };
        } else {
            col = l.width;
        }
    }
    let cursor_col: u16 = if col > (u16::MAX - left) as usize {
        u16::MAX
    } else {
        left + col as u16
    };
    Frame { left, top, rows: out, cursor_col, cursor_row }
}

} // verus!
