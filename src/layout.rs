//! The layout engine: wrapping a passage's words into display lines.

use vstd::prelude::*;
use crate::app::{MAX_QUOTE_LINE, MIN_MARGIN};
use crate::error::WordTooLongError;
use crate::text::{letters, string_from_chars, text_len, views};

verus! {

/// One display line: the words of the passage with index in `first..end`,
/// which take `width` columns written one space apart.
#[derive(Clone, Copy, Debug, PartialEq, Eq, Structural)]
pub struct Line {
    pub first: usize,
    pub end: usize,
    pub width: usize,
}

/// The widest line for a terminal `cols` columns wide: the columns left after
/// the two margins, but never more than `MAX_QUOTE_LINE`.
pub open spec fn line_bound(cols: u16) -> nat {
    let room: int = cols - 2 * MIN_MARGIN;
    if room < 0 {
        0
    } else if room < MAX_QUOTE_LINE {
        room as nat
    } else {
        MAX_QUOTE_LINE as nat
    }
}

/// The width of a line: its words written one space apart.
pub open spec fn line_width(ws: Seq<Seq<char>>, l: Line) -> nat {
    text_len(ws.subrange(l.first as int, l.end as int))
}

/// Every word fits on a line of width `max` by itself.
pub open spec fn fits(ws: Seq<Seq<char>>, max: nat) -> bool {
    forall|i: int| 0 <= i < ws.len() ==> #[trigger] ws[i].len() <= max
}

/// Greedy wrapping of the first `k` words: the closed lines, and the index of
/// the first word of the line still open. Word `k - 1` joins the open line
/// when the line stays within `max` with it, and opens a new line otherwise.
pub open spec fn wrap_prefix(ws: Seq<Seq<char>>, max: nat, k: nat) -> (Seq<Line>, nat)
    decreases k,
{
    if k == 0 {
        (Seq::empty(), 0)
    } else {
        let (ls, start) = wrap_prefix(ws, max, (k - 1) as nat);
        if start < k - 1 && text_len(ws.subrange(start as int, k as int)) > max {
            let width = text_len(ws.subrange(start as int, k - 1));
            (ls.push(Line { first: start as usize, end: (k - 1) as usize, width: width as usize }), (k - 1) as nat)
        } else {
            (ls, start)
        }
    }
}

/// The lines of the passage `ws` wrapped greedily at width `max`.
pub open spec fn wrap(ws: Seq<Seq<char>>, max: nat) -> Seq<Line> {
    if ws.len() == 0 {
        Seq::empty()
    } else {
        let (ls, start) = wrap_prefix(ws, max, ws.len());
        let width = text_len(ws.subrange(start as int, ws.len() as int));
        ls.push(Line { first: start as usize, end: ws.len() as usize, width: width as usize })
    }
}

/// `ls` cuts `a..b` into consecutive non-empty lines, in order.
pub open spec fn tiles(ls: Seq<Line>, a: int, b: int) -> bool
    decreases ls.len(),
{
    if ls.len() == 0 {
        a == b
    } else {
        let l = ls.last();
        &&& l.first < l.end
        &&& l.end == b
        &&& tiles(ls.drop_last(), a, l.first as int)
    }
}

/// The words of the lines `ls`, read line after line.
pub open spec fn flatten(ws: Seq<Seq<char>>, ls: Seq<Line>) -> Seq<Seq<char>>
    decreases ls.len(),
{
    if ls.len() == 0 {
        Seq::empty()
    } else {
        flatten(ws, ls.drop_last()) + ws.subrange(ls.last().first as int, ls.last().end as int)
    }
}

pub(crate) proof fn lemma_text_len_extend(ws: Seq<Seq<char>>, a: int, k: int)
    requires
        0 <= a <= k < ws.len(),
    ensures
        text_len(ws.subrange(a, k + 1)) as int == if a == k {
            ws[k].len() as int
        } else {
            text_len(ws.subrange(a, k)) + 1 + ws[k].len() as int
        },
{
    let s = ws.subrange(a, k + 1);
    assert(s.drop_last() =~= ws.subrange(a, k));
    assert(s.last() == ws[k]);
    assert(letters(s) == letters(s.drop_last()) + ws[k].len());
    if a == k {
        assert(s.drop_last().len() == 0);
        assert(letters(s.drop_last()) == 0);
    }
}

proof fn lemma_wrap_prefix(ws: Seq<Seq<char>>, max: nat, k: nat)
    requires
        k <= ws.len(),
        ws.len() <= usize::MAX,
        max <= usize::MAX,
        fits(ws, max),
    ensures
        ({
            let (ls, start) = wrap_prefix(ws, max, k);
            &&& tiles(ls, 0, start as int)
            &&& start <= k
            &&& k > 0 ==> start < k
            &&& text_len(ws.subrange(start as int, k as int)) <= max
            &&& forall|i: int| 0 <= i < ls.len() ==> #[trigger] line_width(ws, ls[i]) <= max
                && ls[i].width == line_width(ws, ls[i])
        }),
    decreases k,
{
    if k > 0 {
        lemma_wrap_prefix(ws, max, (k - 1) as nat);
        let (ls, start) = wrap_prefix(ws, max, (k - 1) as nat);
        lemma_text_len_extend(ws, start as int, k - 1);
        assert(ws[k - 1].len() <= max);
        if start < k - 1 && text_len(ws.subrange(start as int, k as int)) > max {
            let width = text_len(ws.subrange(start as int, k - 1));
            let nl = ls.push(Line { first: start as usize, end: (k - 1) as usize, width: width as usize });
            assert(nl.drop_last() =~= ls);
            lemma_text_len_extend(ws, k - 1, k - 1);
            assert forall|i: int| 0 <= i < nl.len() implies #[trigger] line_width(ws, nl[i]) <= max
                && nl[i].width == line_width(ws, nl[i]) by {
                if i < ls.len() {
                    assert(nl[i] == ls[i]);
                }
            }
        }
    } else {
        assert(ws.subrange(0, 0).len() == 0);
    }
}

proof fn lemma_flatten_tiles(ws: Seq<Seq<char>>, ls: Seq<Line>, a: int, b: int)
    requires
        tiles(ls, a, b),
        0 <= a,
        b <= ws.len(),
    ensures
        a <= b,
        flatten(ws, ls) == ws.subrange(a, b),
    decreases ls.len(),
{
    if ls.len() > 0 {
        let l = ls.last();
        lemma_flatten_tiles(ws, ls.drop_last(), a, l.first as int);
        assert(ws.subrange(a, l.first as int) + ws.subrange(l.first as int, b) =~= ws.subrange(a, b));
    } else {
        assert(ws.subrange(a, b).len() == 0);
    }
}

/// Layout: when every word fits the bound, every line that the wrapping
/// produces is non-empty and no wider than the bound, the lines cut the
/// passage into consecutive runs, reading them line after line gives the
/// passage back word for word, and wrapping that reading again at the same
/// width gives the same lines.
pub proof fn lemma_wrap_laws(ws: Seq<Seq<char>>, max: nat)
    requires
        fits(ws, max),
        ws.len() <= usize::MAX,
        max <= usize::MAX,
    ensures
        tiles(wrap(ws, max), 0, ws.len() as int),
        forall|i: int| 0 <= i < wrap(ws, max).len() ==> #[trigger] line_width(ws, wrap(ws, max)[i]) <= max
            && wrap(ws, max)[i].width == line_width(ws, wrap(ws, max)[i]),
        flatten(ws, wrap(ws, max)) == ws,
        wrap(flatten(ws, wrap(ws, max)), max) == wrap(ws, max),
{
    let ls = wrap(ws, max);
    if ws.len() > 0 {
        lemma_wrap_prefix(ws, max, ws.len());
        let (pre, start) = wrap_prefix(ws, max, ws.len());
        assert(ls.drop_last() =~= pre);
        assert forall|i: int| 0 <= i < ls.len() implies #[trigger] line_width(ws, ls[i]) <= max
            && ls[i].width == line_width(ws, ls[i]) by {
            if i < pre.len() {
                assert(ls[i] == pre[i]);
            }
        }
    }
    lemma_flatten_tiles(ws, ls, 0, ws.len() as int);
    assert(ws.subrange(0, ws.len() as int) =~= ws);
}

proof fn lemma_text_len_prefix(ws: Seq<Seq<char>>, k: int)
    requires
        0 <= k <= ws.len(),
    ensures
        text_len(ws.subrange(0, k)) <= text_len(ws),
    decreases ws.len() - k,
{
    if k < ws.len() {
        lemma_text_len_prefix(ws, k + 1);
        lemma_text_len_extend(ws, 0, k);
        if k == 0 {
            assert(ws.subrange(0, 0).len() == 0);
        }
    } else {
        assert(ws.subrange(0, k) =~= ws);
    }
}

proof fn lemma_wrap_prefix_open(ws: Seq<Seq<char>>, max: nat, k: nat)
    requires
        k <= ws.len(),
        text_len(ws) <= max,
    ensures
        wrap_prefix(ws, max, k) == (Seq::<Line>::empty(), 0nat),
    decreases k,
{
    if k > 0 {
        lemma_wrap_prefix_open(ws, max, (k - 1) as nat);
        lemma_text_len_prefix(ws, k as int);
    }
}

/// Layout: each line of the wrapping, wrapped again by itself at the same
/// width, stays one line of the same width.
pub proof fn lemma_line_rewraps(ws: Seq<Seq<char>>, max: nat, i: int)
    requires
        fits(ws, max),
        ws.len() <= usize::MAX,
        max <= usize::MAX,
        0 <= i < wrap(ws, max).len(),
    ensures
        wrap(ws.subrange(wrap(ws, max)[i].first as int, wrap(ws, max)[i].end as int), max) == seq![
            Line {
                first: 0,
                end: (wrap(ws, max)[i].end - wrap(ws, max)[i].first) as usize,
                width: wrap(ws, max)[i].width,
            },
        ],
{
    lemma_wrap_laws(ws, max);
    let l = wrap(ws, max)[i];
    assert(line_width(ws, l) <= max && l.width == line_width(ws, l));
    lemma_tiles_bounds(wrap(ws, max), 0, ws.len() as int);
    let sub = ws.subrange(l.first as int, l.end as int);
    lemma_wrap_prefix_open(sub, max, sub.len());
    assert(sub.subrange(0, sub.len() as int) =~= sub);
    assert(wrap(sub, max) =~= seq![Line { first: 0, end: (l.end - l.first) as usize, width: l.width }]);
}

pub(crate) proof fn lemma_tiles_bounds(ls: Seq<Line>, a: int, b: int)
    requires
        tiles(ls, a, b),
    ensures
        a <= b,
        forall|i: int| 0 <= i < ls.len() ==> a <= #[trigger] ls[i].first < ls[i].end <= b,
    decreases ls.len(),
{
    if ls.len() > 0 {
        let p = ls.drop_last();
        lemma_tiles_bounds(p, a, ls.last().first as int);
        assert forall|i: int| 0 <= i < ls.len() implies a <= #[trigger] ls[i].first < ls[i].end <= b by {
            if i < p.len() {
                assert(ls[i] == p[i]);
            }
        }
    }
}

/// The widest line for a terminal `cols` columns wide.
pub fn max_line_len(cols: u16) -> (r: u16)
    ensures
        r == line_bound(cols),
{
    if cols < 2 * MIN_MARGIN {
        0
    } else if cols - MIN_MARGIN * 2 < MAX_QUOTE_LINE {
        cols - MIN_MARGIN * 2
    } else {
        MAX_QUOTE_LINE
    }
}

/// Wraps the words of a passage into display lines for a terminal `row_len`
/// columns wide, or names the first word that is too long for any line.
pub fn format_quote(words: &Vec<Vec<char>>, row_len: u16) -> (r: Result<Vec<Line>, WordTooLongError>)
    ensures
        match r {
            Ok(lines) => {
                &&& fits(views(words@), line_bound(row_len))
                &&& lines@ == wrap(views(words@), line_bound(row_len))
            },
            Err(e) => exists|i: int|
                0 <= i < words@.len() && #[trigger] words@[i]@.len() > line_bound(row_len)
                    && (forall|j: int| 0 <= j < i ==> words@[j]@.len() <= line_bound(row_len))
                    && e.spec_word() == words@[i]@ && e.spec_max_length() == line_bound(row_len),
        },
{
    let max = max_line_len(row_len);
    let ghost ws = views(words@);
    let ghost m = line_bound(row_len);
    let mut lines: Vec<Line> = Vec::new();
    let mut start: usize = 0;
    let mut width: usize = 0;
    let mut k: usize = 0;
    while k < words.len()
        invariant
            ws == views(words@),
            m == max as nat,
            m == line_bound(row_len),
            k <= words.len(),
            forall|j: int| 0 <= j < k ==> #[trigger] words@[j]@.len() <= m,
            wrap_prefix(ws, m, k as nat) == (lines@, start as nat),
            start <= k,
            width == text_len(ws.subrange(start as int, k as int)),
            width <= m,
        decreases words.len() - k,
    {
        let w_len = words[k].len();
        assert(ws[k as int] == words@[k as int]@);
        if w_len > max as usize {
            assert(words@[k as int]@.len() > m);
            let e = WordTooLongError::new(string_from_chars(&words[k]), max);
            return Err(e);
        }
        proof {
            lemma_text_len_extend(ws, start as int, k as int);
            lemma_text_len_extend(ws, k as int, k as int);
        }
        if start < k && width + 1 + w_len > max as usize {
            lines.push(Line { first: start, end: k, width });
            start = k;
            width = w_len;
        } else if start == k {
            width = w_len;
        } else {
            width = width + 1 + w_len;
        }
        k = k + 1;
    }
    assert(fits(ws, m)) by {
        assert forall|i: int| 0 <= i < ws.len() implies #[trigger] ws[i].len() <= m by {
            assert(ws[i] == words@[i]@);
        }
    }
    if words.len() > 0 {
        lines.push(Line { first: start, end: words.len(), width });
    }
    Ok(lines)
}

} // verus!
