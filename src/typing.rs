//! The typing state machine as mathematics: a session's state, what a key
//! and a backspace do to it, and the laws that follow.

use vstd::prelude::*;
use crate::text::{all_nonempty, text_len};

verus! {

/// A typing session as a mathematical value.
#[verifier::ext_equal]
pub struct Session {
    /// The passage's words.
    pub words: Seq<Seq<char>>,
    /// The index of the word being typed.
    pub current: nat,
    /// What has been typed of that word.
    pub buffer: Seq<char>,
    /// The (word, character) positions ever typed wrong.
    pub mistakes: Set<(usize, usize)>,
    /// How many wrong keystrokes there were.
    pub mistake_count: nat,
    /// Whether the session is still taking events.
    pub running: bool,
    /// Whether the whole passage was typed.
    pub completed: bool,
}

/// `n` plus one, held at the largest `u64`.
pub open spec fn bump(n: nat) -> nat {
    if n < u64::MAX {
        n + 1
    } else {
        n
    }
}

/// The sizes of a session fit the machine: the current word is at most the
/// word count, no word is empty, and the words written one space apart fit
/// in a `usize`.
pub open spec fn well_sized(t: Session) -> bool {
    &&& t.current <= t.words.len()
    &&& all_nonempty(t.words)
    &&& text_len(t.words) <= usize::MAX
}

/// The session before anything is typed.
pub open spec fn initial(ws: Seq<Seq<char>>) -> Session {
    Session {
        words: ws,
        current: 0,
        buffer: Seq::empty(),
        mistakes: Set::empty(),
        mistake_count: 0,
        running: true,
        completed: false,
    }
}

/// What typing `c` does to a session. With the character appended to what was
/// typed of the current word: a space after the whole word completes the
/// word; the whole last word, or the whole last word and a space, completes
/// the passage and stops the session;
/// otherwise a character that is not the word's character at its position is
/// a mistake, counted each time and recorded once per position inside the word.
/// Once every word is typed there is nothing left to type.
pub open spec fn key_step(t: Session, c: char) -> Session {
    if t.current >= t.words.len() {
        t
    } else {
        let target = t.words[t.current as int];
        let b = t.buffer.push(c);
        if t.buffer == target && c == ' ' && t.current + 1 < t.words.len() {
            Session { current: t.current + 1, buffer: Seq::empty(), ..t }
        } else if (b == target || (t.buffer == target && c == ' ')) && t.current + 1 == t.words.len() {
            Session {
                current: t.current + 1,
                buffer: Seq::empty(),
                running: false,
                completed: true,
                ..t
            }
        } else if b.len() <= target.len() && c == target[b.len() - 1] {
            Session { buffer: b, ..t }
        } else {
            Session {
                buffer: b,
                mistake_count: bump(t.mistake_count),
                mistakes: if b.len() <= target.len() {
                    t.mistakes.insert((t.current as usize, (b.len() - 1) as usize))
                } else {
                    t.mistakes
                },
                ..t
            }
        }
    }
}

/// What a backspace does to a session: the last typed character of the
/// current word is taken back, if there is one.
pub open spec fn backspace_step(t: Session) -> Session {
    if t.buffer.len() > 0 {
        Session { buffer: t.buffer.drop_last(), ..t }
    } else {
        t
    }
}

/// The session after the keys `keys`, typed one after another from `t`.
pub open spec fn run_keys(t: Session, keys: Seq<char>) -> Session
    decreases keys.len(),
{
    if keys.len() == 0 {
        t
    } else {
        key_step(run_keys(t, keys.drop_last()), keys.last())
    }
}

/// The keys that type the words `ws` exactly: each word, and a space
/// between two words.
pub open spec fn typed_text(ws: Seq<Seq<char>>) -> Seq<char>
    decreases ws.len(),
{
    if ws.len() == 0 {
        Seq::empty()
    } else if ws.len() == 1 {
        ws[0]
    } else {
        typed_text(ws.drop_last()).push(' ') + ws.last()
    }
}

/// Typing `a` and then `b` is typing `a + b`.
pub proof fn lemma_run_concat(t: Session, a: Seq<char>, b: Seq<char>)
    ensures
        run_keys(t, a + b) == run_keys(run_keys(t, a), b),
    decreases b.len(),
{
    if b.len() == 0 {
        assert(a + b =~= a);
    } else {
        assert((a + b).drop_last() =~= a + b.drop_last());
        assert((a + b).last() == b.last());
        lemma_run_concat(t, a, b.drop_last());
    }
}

/// Typing the first `j` characters of the current word, from an empty
/// buffer, only fills the buffer, unless they complete the last word.
proof fn lemma_type_word(t: Session, j: int)
    requires
        t.current < t.words.len(),
        t.buffer.len() == 0,
        0 <= j <= t.words[t.current as int].len(),
        j < t.words[t.current as int].len() || t.current + 1 < t.words.len(),
    ensures
        run_keys(t, t.words[t.current as int].take(j)) == (Session { buffer: t.words[t.current as int].take(j), ..t }),
    decreases j,
{
    let w = t.words[t.current as int];
    if j == 0 {
        assert(w.take(0).len() == 0);
        assert(t =~= Session { buffer: w.take(0), ..t });
    } else {
        lemma_type_word(t, j - 1);
        assert(w.take(j).drop_last() =~= w.take(j - 1));
        let s = Session { buffer: w.take(j - 1), ..t };
        assert(s.buffer.len() != w.len());
        assert(s.buffer.push(w[j - 1]) =~= w.take(j));
        assert(key_step(s, w[j - 1]) =~= Session { buffer: w.take(j), ..t });
    }
}

/// Typing the last word, from an empty buffer, completes the passage.
proof fn lemma_finish_word(t: Session)
    requires
        t.current + 1 == t.words.len(),
        t.buffer.len() == 0,
        t.words[t.current as int].len() > 0,
    ensures
        run_keys(t, t.words[t.current as int]) == (Session {
            current: t.words.len(),
            buffer: Seq::empty(),
            running: false,
            completed: true,
            ..t
        }),
{
    let w = t.words[t.current as int];
    let n = w.len() as int;
    lemma_type_word(t, n - 1);
    assert(w.drop_last() =~= w.take(n - 1));
    let s = Session { buffer: w.take(n - 1), ..t };
    assert(s.buffer.len() != w.len());
    assert(s.buffer.push(w.last()) =~= w);
}

proof fn lemma_typed_prefix(ws: Seq<Seq<char>>, m: int)
    requires
        1 <= m < ws.len(),
        all_nonempty(ws),
    ensures
        run_keys(initial(ws), typed_text(ws.take(m))) == (Session {
            current: (m - 1) as nat,
            buffer: ws[m - 1],
            ..initial(ws)
        }),
        forall|k: int|
            0 <= k <= typed_text(ws.take(m)).len() ==> !#[trigger] run_keys(
                initial(ws),
                typed_text(ws.take(m)).take(k),
            ).completed,
    decreases m,
{
    let t0 = initial(ws);
    let tm = typed_text(ws.take(m));
    if m == 1 {
        assert(tm == ws[0]);
        let w = ws[0];
        lemma_type_word(t0, w.len() as int);
        assert(w.take(w.len() as int) =~= w);
        assert forall|k: int| 0 <= k <= tm.len() implies !#[trigger] run_keys(t0, tm.take(k)).completed by {
            lemma_type_word(t0, k);
        }
    } else {
        lemma_typed_prefix(ws, m - 1);
        let prev = typed_text(ws.take(m - 1));
        assert(ws.take(m).drop_last() =~= ws.take(m - 1));
        assert(tm == prev.push(' ') + ws[m - 1]);
        let s = run_keys(t0, prev);
        assert(prev.push(' ').drop_last() =~= prev);
        let s1 = Session { current: (m - 1) as nat, buffer: Seq::empty(), ..t0 };
        assert(run_keys(t0, prev.push(' ')) =~= s1);
        let w = ws[m - 1];
        lemma_run_concat(t0, prev.push(' '), w);
        lemma_type_word(s1, w.len() as int);
        assert(w.take(w.len() as int) =~= w);
        assert forall|k: int| 0 <= k <= tm.len() implies !#[trigger] run_keys(t0, tm.take(k)).completed by {
            if k <= prev.len() {
                assert(tm.take(k) =~= prev.take(k));
            } else if k == prev.len() + 1 {
                assert(tm.take(k) =~= prev.push(' '));
            } else {
                let j = k - prev.len() - 1;
                assert(tm.take(k) =~= prev.push(' ') + w.take(j));
                lemma_run_concat(t0, prev.push(' '), w.take(j));
                lemma_type_word(s1, j);
            }
        }
    }
}

/// Typing State: typing a passage of non-empty words exactly, character by
/// character with a space at each word boundary, ends with every word typed,
/// no mistake recorded or counted, and the passage completed; it is
/// completed by the last keystroke and by no earlier one.
pub proof fn lemma_exact_typing(ws: Seq<Seq<char>>)
    requires
        ws.len() > 0,
        all_nonempty(ws),
    ensures
        run_keys(initial(ws), typed_text(ws)).current == ws.len(),
        run_keys(initial(ws), typed_text(ws)).mistakes == Set::<(usize, usize)>::empty(),
        run_keys(initial(ws), typed_text(ws)).mistake_count == 0,
        run_keys(initial(ws), typed_text(ws)).completed,
        !run_keys(initial(ws), typed_text(ws)).running,
        forall|k: int|
            0 <= k < typed_text(ws).len() ==> !#[trigger] run_keys(initial(ws), typed_text(ws).take(k)).completed,
{
    let t0 = initial(ws);
    let n = ws.len() as int;
    let tt = typed_text(ws);
    let w = ws[n - 1];
    if n == 1 {
        assert(tt == w);
        lemma_finish_word(t0);
        assert forall|k: int| 0 <= k < tt.len() implies !#[trigger] run_keys(t0, tt.take(k)).completed by {
            lemma_type_word(t0, k);
        }
    } else {
        lemma_typed_prefix(ws, n - 1);
        let prev = typed_text(ws.take(n - 1));
        assert(ws.drop_last() =~= ws.take(n - 1));
        assert(tt == prev.push(' ') + w);
        assert(prev.push(' ').drop_last() =~= prev);
        let s1 = Session { current: (n - 1) as nat, buffer: Seq::empty(), ..t0 };
        assert(run_keys(t0, prev.push(' ')) =~= s1);
        lemma_run_concat(t0, prev.push(' '), w);
        lemma_finish_word(s1);
        assert forall|k: int| 0 <= k < tt.len() implies !#[trigger] run_keys(t0, tt.take(k)).completed by {
            if k <= prev.len() {
                assert(tt.take(k) =~= prev.take(k));
            } else if k == prev.len() + 1 {
                assert(tt.take(k) =~= prev.push(' '));
            } else {
                let j = k - prev.len() - 1;
                assert(tt.take(k) =~= prev.push(' ') + w.take(j));
                lemma_run_concat(t0, prev.push(' '), w.take(j));
                lemma_type_word(s1, j);
            }
        }
    }
}

/// Mistake tracking: a wrong character typed at position `p` of the current
/// word `w` records `(w, p)` and counts one mistake (the count stops at the
/// largest `u64`); taken back and typed
/// wrong again at the same position, it counts again but the record stays
/// the same.
pub proof fn lemma_mistake_recorded_once(t: Session, c: char, d: char)
    requires
        t.current < t.words.len(),
        t.buffer.len() < t.words[t.current as int].len(),
        c != t.words[t.current as int][t.buffer.len() as int],
        d != t.words[t.current as int][t.buffer.len() as int],
    ensures
        key_step(t, c).mistakes == t.mistakes.insert((t.current as usize, t.buffer.len() as usize)),
        key_step(t, c).mistake_count == bump(t.mistake_count),
        t.mistake_count < u64::MAX ==> key_step(t, c).mistake_count == t.mistake_count + 1,
        key_step(backspace_step(key_step(t, c)), d).mistakes == t.mistakes.insert(
            (t.current as usize, t.buffer.len() as usize),
        ),
        key_step(backspace_step(key_step(t, c)), d).mistake_count == bump(bump(t.mistake_count)),
        key_step(t, c).buffer == t.buffer.push(c),
        key_step(t, c).current == t.current,
        key_step(t, c).completed == t.completed,
        key_step(t, c).running == t.running,
{
    let w = t.words[t.current as int];
    let p = t.buffer.len() as int;
    assert(t.buffer.len() != w.len());
    assert(t.buffer.push(c)[p] == c);
    assert(t.buffer.push(c) != w);
    let s1 = key_step(t, c);
    let s2 = backspace_step(s1);
    assert(s1.buffer.drop_last() =~= t.buffer);
    assert(s2.buffer.push(d)[p] == d);
    assert(s2.buffer.push(d) != w);
    assert(s1.mistakes.insert((t.current as usize, p as usize)) =~= s1.mistakes);
}

} // verus!
