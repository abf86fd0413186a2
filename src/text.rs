//! Passage text: splitting raw text into whitespace-delimited words.

use vstd::prelude::*;

verus! {

/// What `char::is_whitespace` answers for a character (the Unicode
/// `White_Space` property).
pub uninterp spec fn white_space(c: char) -> bool;

/// Relies on `char::is_whitespace`: whether `c` has the Unicode `White_Space`
/// property, which depends on the character alone.
#[verifier::external_body]
pub(crate) fn is_white(c: char) -> (r: bool)
    ensures
        r == white_space(c),
{
    c.is_whitespace()
}

/// Relies on `String`'s `FromIterator<char>`: the string made of the characters of `v`, in order.
#[verifier::external_body]
pub(crate) fn string_from_chars(v: &Vec<char>) -> (r: String)
    ensures
        r@ == v@,
{
    v.iter().collect::<String>()
}

/// The characters of `s`, in order.
pub fn chars_of(s: &str) -> (r: Vec<char>)
    ensures
        r@ == s@,
{
    let mut r: Vec<char> = Vec::new();
    for c in it: s.chars()
        invariant
            it.seq() == s@,
            r@ == it.seq().take(it.index() as int),
    {
        r.push(c);
    }
    r
}

/// Whether `a` and `b` hold the same characters.
pub fn same_chars(a: &Vec<char>, b: &Vec<char>) -> (r: bool)
    ensures
        r == (a@ == b@),
{
    if a.len() != b.len() {
        return false;
    }
    let mut i: usize = 0;
    while i < a.len()
        invariant
            a@.len() == b@.len(),
            i <= a@.len(),
            forall|j: int| 0 <= j < i ==> a@[j] == b@[j],
        decreases a.len() - i,
    {
        if a[i] != b[i] {
            return false;
        }
        i = i + 1;
    }
    assert(a@ =~= b@);
    true
}

/// The views of a sequence of character vectors.
pub open spec fn views(v: Seq<Vec<char>>) -> Seq<Seq<char>> {
    v.map_values(|w: Vec<char>| w@)
}

/// The words of `s`: its maximal runs of non-whitespace characters, in order.
/// Defined on prefixes: a whitespace character adds nothing, a character that
/// follows a non-whitespace one extends the last word, and any other starts a
/// new word.
pub open spec fn words_of(s: Seq<char>) -> Seq<Seq<char>>
    decreases s.len(),
{
    if s.len() == 0 {
        Seq::empty()
    } else {
        let init = words_of(s.drop_last());
        let c = s.last();
        if white_space(c) {
            init
        } else if s.len() > 1 && !white_space(s[s.len() - 2]) {
            init.update(init.len() - 1, init.last().push(c))
        } else {
            init.push(seq![c])
        }
    }
}

/// The sum of the lengths of the words.
pub open spec fn letters(ws: Seq<Seq<char>>) -> nat
    decreases ws.len(),
{
    if ws.len() == 0 {
        0
    } else {
        letters(ws.drop_last()) + ws.last().len()
    }
}

/// The letters of a prefix of the words are at most those of all of them.
pub proof fn lemma_letters_prefix(ws: Seq<Seq<char>>, k: int)
    requires
        0 <= k <= ws.len(),
    ensures
        letters(ws.take(k)) <= letters(ws),
    decreases ws.len() - k,
{
    if k < ws.len() {
        lemma_letters_prefix(ws, k + 1);
        assert(ws.take(k + 1).drop_last() =~= ws.take(k));
    } else {
        assert(ws.take(k) =~= ws);
    }
}

/// The number of characters of the words written on one line, one space
/// between two neighbours.
pub open spec fn text_len(ws: Seq<Seq<char>>) -> nat {
    if ws.len() == 0 {
        0
    } else {
        (letters(ws) + ws.len() - 1) as nat
    }
}

/// No word is empty.
pub open spec fn all_nonempty(ws: Seq<Seq<char>>) -> bool {
    forall|i: int| 0 <= i < ws.len() ==> #[trigger] ws[i].len() > 0
}

/// The words of a text are not empty, and written one space apart they are no
/// longer than the text.
pub proof fn lemma_words_of_fit(s: Seq<char>)
    ensures
        all_nonempty(words_of(s)),
        text_len(words_of(s)) <= s.len(),
        s.len() > 0 && white_space(s.last()) && words_of(s).len() > 0 ==> text_len(words_of(s)) < s.len(),
        s.len() > 0 && !white_space(s.last()) ==> words_of(s).len() > 0,
    decreases s.len(),
{
    if s.len() > 0 {
        let p = s.drop_last();
        lemma_words_of_fit(p);
        let init = words_of(p);
        let c = s.last();
        if white_space(c) {
        } else if s.len() > 1 && !white_space(s[s.len() - 2]) {
            let w = init.update(init.len() - 1, init.last().push(c));
            assert(p.last() == s[s.len() - 2]);
            assert(w.drop_last() =~= init.drop_last());
            assert(letters(w) == letters(init) + 1);
        } else {
            let w = init.push(seq![c]);
            assert(w.drop_last() =~= init);
            assert(letters(w) == letters(init) + 1);
        }
    }
}

/// The words of `text`: its maximal runs of non-whitespace characters.
pub fn split_words(text: &Vec<char>) -> (words: Vec<Vec<char>>)
    ensures
        views(words@) == words_of(text@),
{
    let mut words: Vec<Vec<char>> = Vec::new();
    let mut cur: Vec<char> = Vec::new();
    let mut i: usize = 0;
    while i < text.len()
        invariant
            i <= text.len(),
            words_of(text@.take(i as int)) == if cur@.len() > 0 {
                views(words@).push(cur@)
            } else {
                views(words@)
            },
            cur@.len() > 0 <==> (i > 0 && !white_space(text@[i - 1])),
        decreases text.len() - i,
    {
        let c = text[i];
        assert(text@.take(i + 1).drop_last() =~= text@.take(i as int));
        assert(text@.take(i + 1).last() == c);
        if i > 0 {
            assert(text@.take(i + 1)[i - 1] == text@[i - 1]);
        }
        if is_white(c) {
            if cur.len() > 0 {
                let ghost before = views(words@);
                let ghost w = cur@;
                words.push(cur);
                cur = Vec::new();
                assert(views(words@) =~= before.push(w));
            }
        } else {
            let ghost before = views(words@);
            let ghost old_cur = cur@;
            cur.push(c);
            proof {
                if old_cur.len() == 0 {
                    assert(cur@ =~= seq![c]);
                }
                if old_cur.len() > 0 {
                    assert(before.push(old_cur).update(before.len() as int, old_cur.push(c))
                        =~= before.push(cur@));
                }
            }
        }
        i = i + 1;
    }
    if cur.len() > 0 {
        let ghost before = views(words@);
        words.push(cur);
        assert(views(words@) =~= before.push(cur@));
    }
    assert(text@.take(text.len() as int) =~= text@);
    words
}

} // verus!
