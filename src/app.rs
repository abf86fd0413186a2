//! The controller: the session's typing state, its dirty flag and its summary.

use vstd::prelude::*;
use crate::error::{TerminalTooSmallError, TyperError};
use crate::event::Event;
use crate::layout::{fits, format_quote, lemma_wrap_laws, line_bound, line_width, wrap};
use crate::render::{draw, shows, Frame};
use crate::state::State;
use crate::typing::{backspace_step, initial, key_step, well_sized, Session};
use crate::text::{all_nonempty, chars_of, string_from_chars, lemma_words_of_fit, same_chars, split_words, text_len, views, words_of};

verus! {

/// Milliseconds between two render ticks.
pub const TICK_RATE: u64 = 1000 / 20;
/// The fewest terminal columns a session runs in.
pub const MIN_TERM_COL: u16 = 40;
/// The fewest terminal rows a session runs in.
pub const MIN_TERM_ROW: u16 = 10;
/// The widest a passage line is ever laid out.
pub const MAX_QUOTE_LINE: u16 = 80;
/// The fewest blank columns on each side of a passage line.
pub const MIN_MARGIN: u16 = 4;

/// `n / d` rounded to the nearest integer, halves upward.
pub open spec fn round_div(n: nat, d: nat) -> nat {
    ((2 * n + d) / (2 * d)) as nat
}

/// The outcome of a session.
#[derive(Clone, Copy, Debug, PartialEq, Eq, Structural)]
pub struct Summary {
    /// Words per minute, a word being five characters, rounded; none when no
    /// time elapsed.
    pub wpm: Option<u128>,
    /// The percentage of keystrokes that were right, rounded; none when there
    /// were no characters and no mistakes.
    pub accuracy: Option<u64>,
    /// How many wrong keystrokes there were.
    pub mistakes: u64,
}

/// The summary of a session over the words `ws` with `count` mistakes,
/// typed in `ms` milliseconds.
pub open spec fn summary_of(ws: Seq<Seq<char>>, count: nat, ms: nat) -> Summary {
    let total = text_len(ws);
    Summary {
        wpm: if ms == 0 {
            None
        } else {
            Some(round_div(total * 12000, ms) as u128)
        },
        accuracy: if total + count == 0 {
            None
        } else {
            Some(round_div(total * 100, total + count) as u64)
        },
        mistakes: count as u64,
    }
}

/// How character `c` stands in the transcript: wrapped in the red highlight
/// marker when it was typed wrong.
pub open spec fn marked(c: char, hit: bool) -> Seq<char> {
    if hit {
        seq!['\x1b', '[', '3', '1', 'm', c, '\x1b', '[', '0', 'm']
    } else {
        seq![c]
    }
}

/// The first `n` characters of word `i`, which is `w`, each marked when
/// `m` holds its position.
pub open spec fn marked_word(w: Seq<char>, i: int, m: Set<(usize, usize)>, n: int) -> Seq<char>
    decreases n,
{
    if n <= 0 {
        Seq::empty()
    } else {
        marked_word(w, i, m, n - 1) + marked(w[n - 1], m.contains((i as usize, (n - 1) as usize)))
    }
}

/// The first `k` words of `ws`, one space apart, with the positions in `m`
/// marked.
pub open spec fn transcript(ws: Seq<Seq<char>>, m: Set<(usize, usize)>, k: int) -> Seq<char>
    decreases k,
{
    if k <= 0 {
        Seq::empty()
    } else if k == 1 {
        marked_word(ws[0], 0, m, ws[0].len() as int)
    } else {
        transcript(ws, m, k - 1).push(' ') + marked_word(ws[k - 1], k - 1, m, ws[k - 1].len() as int)
    }
}

fn push_marked(out: &mut Vec<char>, c: char, hit: bool)
    ensures
        final(out)@ == old(out)@ + marked(c, hit),
{
    if hit {
        out.push('\x1b');
        out.push('[');
        out.push('3');
        out.push('1');
        out.push('m');
        out.push(c);
        out.push('\x1b');
        out.push('[');
        out.push('0');
        out.push('m');
    } else {
        out.push(c);
    }
    assert(final(out)@ =~= old(out)@ + marked(c, hit));
}

fn has_mistake(mistakes: &Vec<(usize, usize)>, w: usize, p: usize) -> (r: bool)
    ensures
        r == mistakes@.to_set().contains((w, p)),
{
    let mut i: usize = 0;
    while i < mistakes.len()
        invariant
            i <= mistakes@.len(),
            forall|j: int| 0 <= j < i ==> mistakes@[j] != (w, p),
        decreases mistakes.len() - i,
    {
        let (a, b) = mistakes[i];
        if a == w && b == p {
            assert(mistakes@[i as int] == (w, p));
            return true;
        }
        i = i + 1;
    }
    false
}

/// The session controller: the passage, the typing position, the mistakes,
/// and whether the screen needs a repaint.
pub struct App {
    quote: Vec<Vec<char>>,
    state: State,
    running: bool,
    should_render: bool,
    completed: bool,
    mistake_count: u64,
    mistakes: Vec<(usize, usize)>,
    error: Option<TyperError>,
}

impl View for App {
    type V = Session;

    closed spec fn view(&self) -> Session {
        Session {
            words: views(self.quote@),
            current: self.state.current as nat,
            buffer: self.state.buffer@,
            mistakes: self.mistakes@.to_set(),
            mistake_count: self.mistake_count as nat,
            running: self.running,
            completed: self.completed,
        }
    }
}

impl App {
    #[verifier::type_invariant]
    closed spec fn inv(&self) -> bool {
        &&& well_sized(self@)
        &&& self.mistakes@.no_duplicates()
    }

    /// Whether the next paint is due.
    pub closed spec fn spec_should_render(&self) -> bool {
        self.should_render
    }

    /// The condition that stopped the session, if any.
    pub closed spec fn spec_error(&self) -> Option<TyperError> {
        self.error
    }

    /// A session on the words of `quote`, not yet running, with no paint due.
    pub fn new(quote: &str) -> (r: App)
        ensures
            r@ == (Session { running: false, ..initial(words_of(quote@)) }),
            well_sized(r@),
            !r.spec_should_render(),
            r.spec_error() is None,
    {
        let chars = chars_of(quote);
        let words = split_words(&chars);
        proof {
            lemma_words_of_fit(chars@);
        }
        let r = App {
            quote: words,
            state: State::default(),
            running: false,
            should_render: false,
            completed: false,
            mistake_count: 0,
            mistakes: Vec::new(),
            error: None,
        };
        assert(r.mistakes@.to_set() =~= Set::empty());
        assert(r.state.buffer@ =~= Seq::empty());
        r
    }

    /// Marks the session as running.
    pub fn begin(&mut self)
        ensures
            well_sized(final(self)@),
            final(self)@ == (Session { running: true, ..old(self)@ }),
            final(self).spec_should_render() == old(self).spec_should_render(),
            final(self).spec_error() == old(self).spec_error(),
    {
        proof {
            use_type_invariant(&*self);
        }
        self.running = true;
    }

    /// Whether the session is still taking events.
    pub fn is_running(&self) -> (r: bool)
        ensures
            r == self@.running,
    {
        self.running
    }

    /// Whether the whole passage was typed.
    pub fn is_completed(&self) -> (r: bool)
        ensures
            r == self@.completed,
    {
        self.completed
    }

    /// How many wrong keystrokes there were.
    pub fn mistake_count(&self) -> (r: u64)
        ensures
            r == self@.mistake_count,
    {
        self.mistake_count
    }

    /// The index of the word being typed.
    pub fn current(&self) -> (r: usize)
        ensures
            r == self@.current,
            well_sized(self@),
    {
        proof {
            use_type_invariant(self);
        }
        self.state.current
    }

    /// What has been typed of the current word.
    pub fn buffer(&self) -> (r: &Vec<char>)
        ensures
            r@ == self@.buffer,
    {
        &self.state.buffer
    }

    /// The recorded mistake positions, each once.
    pub fn mistakes(&self) -> (r: &Vec<(usize, usize)>)
        ensures
            r@.to_set() == self@.mistakes,
            r@.no_duplicates(),
    {
        proof {
            use_type_invariant(self);
        }
        &self.mistakes
    }

    /// The passage's words.
    pub fn words(&self) -> (r: &Vec<Vec<char>>)
        ensures
            views(r@) == self@.words,
            well_sized(self@),
    {
        proof {
            use_type_invariant(self);
        }
        &self.quote
    }

    /// The condition that stopped the session, if any.
    pub fn error(&self) -> (r: &Option<TyperError>)
        ensures
            *r == self.spec_error(),
    {
        &self.error
    }

    fn record_mistake(mistakes: &mut Vec<(usize, usize)>, w: usize, p: usize)
        requires
            old(mistakes)@.no_duplicates(),
        ensures
            final(mistakes)@.to_set() == old(mistakes)@.to_set().insert((w, p)),
            final(mistakes)@.no_duplicates(),
    {
        let mut i: usize = 0;
        while i < mistakes.len()
            invariant
                i <= mistakes@.len(),
                mistakes@.no_duplicates(),
                forall|j: int| 0 <= j < i ==> mistakes@[j] != (w, p),
            decreases mistakes.len() - i,
        {
            let (a, b) = mistakes[i];
            if a == w && b == p {
                assert(mistakes@.to_set().contains((w, p)));
                assert(mistakes@.to_set() =~= mistakes@.to_set().insert((w, p)));
                return;
            }
            i = i + 1;
        }
        let ghost before = mistakes@;
        mistakes.push((w, p));
        proof {
            before.lemma_push_to_set_commute((w, p));
            assert forall|a: int, b: int| 0 <= a < b < mistakes@.len() implies mistakes@[a] != mistakes@[b] by {
                if b < before.len() {
                    assert(mistakes@[a] == before[a] && mistakes@[b] == before[b]);
                } else {
                    assert(mistakes@[a] == before[a]);
                }
            }
        }
    }

    /// Takes the typed character `k`: see `key_step`.
    pub fn handle_keypress(&mut self, k: char)
        ensures
            well_sized(final(self)@),
            final(self)@ == key_step(old(self)@, k),
            final(self).spec_should_render() == old(self).spec_should_render(),
            final(self).spec_error() == old(self).spec_error(),
    {
        proof {
            use_type_invariant(&*self);
        }
        let cur = self.state.current;
        if cur >= self.quote.len() {
            return;
        }
        let ghost t = self@;
        assert(t.words[cur as int] == self.quote@[cur as int]@);
        let was_word = same_chars(&self.state.buffer, &self.quote[cur]);
        let mut buffer: Vec<char> = Vec::new();
        std::mem::swap(&mut buffer, &mut self.state.buffer);
        buffer.push(k);
        let last = cur + 1 == self.quote.len();
        if was_word && k == ' ' && !last {
            self.state.current = cur + 1;
        } else if last && ((was_word && k == ' ') || same_chars(&buffer, &self.quote[cur])) {
            self.state.current = cur + 1;
            self.running = false;
            self.completed = true;
        } else {
            let n = buffer.len();
            let len = self.quote[cur].len();
            if n <= len && k == self.quote[cur][n - 1] {
            } else {
                if self.mistake_count < u64::MAX {
                    self.mistake_count = self.mistake_count + 1;
                }
                if n <= len {
                    let mut mistakes: Vec<(usize, usize)> = Vec::new();
                    std::mem::swap(&mut mistakes, &mut self.mistakes);
                    App::record_mistake(&mut mistakes, cur, n - 1);
                    self.mistakes = mistakes;
                }
            }
            self.state.buffer = buffer;
        }
    }

    /// Takes back the last typed character of the current word, if any;
    /// neither the recorded mistakes nor the current word change.
    pub fn handle_backspace(&mut self)
        ensures
            well_sized(final(self)@),
            final(self)@ == backspace_step(old(self)@),
            final(self)@.mistakes == old(self)@.mistakes,
            final(self)@.mistake_count == old(self)@.mistake_count,
            final(self)@.current == old(self)@.current,
            final(self).spec_should_render() == old(self).spec_should_render(),
            final(self).spec_error() == old(self).spec_error(),
    {
        proof {
            use_type_invariant(&*self);
        }
        if self.state.buffer.len() > 0 {
            let mut buffer: Vec<char> = Vec::new();
            std::mem::swap(&mut buffer, &mut self.state.buffer);
            buffer.pop();
            self.state.buffer = buffer;
        }
    }

    /// Paints the screen for a terminal `cols` by `rows`, if a paint is due,
    /// and does nothing otherwise. A terminal under the minimum size, or a
    /// word that does not fit any line, stops the session with that error
    /// instead. Either way no paint is due afterwards.
    pub fn render(&mut self, cols: u16, rows: u16) -> (r: Option<Frame>)
        ensures
            well_sized(final(self)@),
            !final(self).spec_should_render(),
            !old(self).spec_should_render() ==> r is None && final(self)@ == old(self)@
                && final(self).spec_error() == old(self).spec_error(),
            final(self)@ == if old(self).spec_should_render() && (cols < MIN_TERM_COL || rows < MIN_TERM_ROW
                || !fits(old(self)@.words, line_bound(cols))) {
                Session { running: false, ..old(self)@ }
            } else {
                old(self)@
            },
            old(self).spec_should_render() && (cols < MIN_TERM_COL || rows < MIN_TERM_ROW) ==> r is None
                && final(self).spec_error() == Some(TyperError::TerminalTooSmallError(TerminalTooSmallError)),
            old(self).spec_should_render() && cols >= MIN_TERM_COL && rows >= MIN_TERM_ROW && !fits(
                old(self)@.words,
                line_bound(cols),
            ) ==> r is None && (final(self).spec_error() matches Some(
                TyperError::WordTooLongError(e),
            ) && (exists|i: int|
                0 <= i < old(self)@.words.len() && #[trigger] old(self)@.words[i].len() > line_bound(cols)
                    && (forall|j: int| 0 <= j < i ==> old(self)@.words[j].len() <= line_bound(cols))
                    && e.spec_word() == old(self)@.words[i] && e.spec_max_length() == line_bound(cols))),
            old(self).spec_should_render() && cols >= MIN_TERM_COL && rows >= MIN_TERM_ROW && fits(
                old(self)@.words,
                line_bound(cols),
            ) ==> (r matches Some(f) && shows(
                f,
                old(self)@.words,
                wrap(old(self)@.words, line_bound(cols)),
                old(self)@.current as int,
                old(self)@.buffer,
                cols,
                rows,
            )) && final(self).spec_error() == old(self).spec_error(),
    {
        proof {
            use_type_invariant(&*self);
        }
        if !self.should_render {
            return None;
        }
        if cols < MIN_TERM_COL || rows < MIN_TERM_ROW {
            self.error = Some(TyperError::TerminalTooSmallError(TerminalTooSmallError));
            self.running = false;
            self.should_render = false;
            return None;
        }
        let lines = match format_quote(&self.quote, cols) {
            Ok(v) => v,
            Err(e) => {
                let ghost ws = self@.words;
                assert forall|i: int| 0 <= i < ws.len() implies ws[i] == #[trigger] self.quote@[i]@ by {}
                self.error = Some(TyperError::WordTooLongError(e));
                self.running = false;
                self.should_render = false;
                return None;
            },
        };
        proof {
            lemma_wrap_laws(self@.words, line_bound(cols));
            assert forall|i: int| 0 <= i < lines@.len() implies #[trigger] lines@[i].width <= cols by {
                assert(lines@[i] == wrap(self@.words, line_bound(cols))[i]);
                assert(line_width(self@.words, wrap(self@.words, line_bound(cols))[i]) <= line_bound(cols));
            }
        }
        let f = draw(&self.quote, &lines, self.state.current, &self.state.buffer, cols, rows);
        self.should_render = false;
        Some(f)
    }

    /// The summary of the session, `elapsed_ms` milliseconds after it began.
    pub fn summary(&self, elapsed_ms: u64) -> (r: Summary)
        ensures
            r == summary_of(self@.words, self@.mistake_count, elapsed_ms as nat),
    {
        proof {
            use_type_invariant(self);
        }
        let ghost ws = self@.words;
        let mut letters: usize = 0;
        let mut i: usize = 0;
        while i < self.quote.len()
            invariant
                ws == views(self.quote@),
                text_len(ws) <= usize::MAX,
                i <= ws.len(),
                letters == crate::text::letters(ws.take(i as int)),
            decreases self.quote.len() - i,
        {
            proof {
                assert(ws.take(i + 1).drop_last() =~= ws.take(i as int));
                crate::text::lemma_letters_prefix(ws, i + 1);
            }
            letters = letters + self.quote[i].len();
            i = i + 1;
        }
        assert(ws.take(ws.len() as int) =~= ws);
        let total: u128 = if self.quote.len() == 0 {
            0
        } else {
            letters as u128 + self.quote.len() as u128 - 1
        };
        let wpm = if elapsed_ms == 0 {
            None
        } else {
            Some((2 * (total * 12000) + elapsed_ms as u128) / (2 * elapsed_ms as u128))
        };
        let count = self.mistake_count as u128;
        let accuracy = if total + count == 0 {
            None
        } else {
            let q = (2 * (total * 100) + (total + count)) / (2 * (total + count));
            assert(q <= 100) by {
                let t = total as int;
                let c = count as int;
                assert((2 * (t * 100) + (t + c)) < 101 * (2 * (t + c))) by (nonlinear_arith)
                    requires
                        t >= 0,
                        c >= 0,
                        t + c > 0,
                ;
                assert((2 * (t * 100) + (t + c)) / (2 * (t + c)) < 101) by (nonlinear_arith)
                    requires
                        (2 * (t * 100) + (t + c)) < 101 * (2 * (t + c)),
                        t + c > 0,
                        t >= 0,
                ;
            }
            Some(q as u64)
        };
        Summary { wpm, accuracy, mistakes: self.mistake_count }
    }

    /// The passage with every recorded mistake highlighted.
    pub fn generate_mistake_locations(&self) -> (r: String)
        ensures
            r@ == transcript(self@.words, self@.mistakes, self@.words.len() as int),
    {
        let ghost ws = self@.words;
        let ghost m = self@.mistakes;
        let mut out: Vec<char> = Vec::new();
        let mut i: usize = 0;
        while i < self.quote.len()
            invariant
                ws == views(self.quote@),
                m == self.mistakes@.to_set(),
                i <= ws.len(),
                out@ == transcript(ws, m, i as int),
            decreases self.quote.len() - i,
        {
            let w = &self.quote[i];
            assert(ws[i as int] == w@);
            if i > 0 {
                out.push(' ');
            }
            let ghost head = out@;
            let mut j: usize = 0;
            while j < w.len()
                invariant
                    m == self.mistakes@.to_set(),
                    j <= w@.len(),
                    out@ == head + marked_word(w@, i as int, m, j as int),
                decreases w.len() - j,
            {
                let hit = has_mistake(&self.mistakes, i, j);
                push_marked(&mut out, w[j], hit);
                assert(head + marked_word(w@, i as int, m, j + 1) =~= head + marked_word(w@, i as int, m, j as int) + marked(w@[j as int], hit));
                j = j + 1;
            }
            proof {
                if i == 0 {
                    assert(head =~= Seq::<char>::empty());
                    assert(out@ =~= marked_word(w@, 0, m, w@.len() as int));
                }
            }
            i = i + 1;
        }
        string_from_chars(&out)
    }

    /// Dispatches one event of the stream. Every event but `Render` makes a
    /// paint due. A `Render` changes nothing: it answers whether a paint is
    /// due, and the caller then calls `render`, which clears the flag.
    pub fn process(&mut self, event: Event) -> (paint: bool)
        ensures
            well_sized(final(self)@),
            final(self)@ == match event {
                Event::Terminate => Session { running: false, ..old(self)@ },
                Event::KeyPress(c) => key_step(old(self)@, c),
                Event::Backspace => backspace_step(old(self)@),
                Event::Render => old(self)@,
                Event::ForceRender => old(self)@,
            },
            event != Event::Render ==> final(self).spec_should_render() && !paint,
            event == Event::Render ==> final(self).spec_should_render() == old(self).spec_should_render()
                && paint == old(self).spec_should_render(),
            final(self).spec_error() == old(self).spec_error(),
    {
        proof {
            use_type_invariant(&*self);
        }
        match event {
            Event::Terminate => {
                self.running = false;
            },
            Event::KeyPress(k) => self.handle_keypress(k),
            Event::Backspace => self.handle_backspace(),
            Event::Render => {
                return self.should_render;
            },
            Event::ForceRender => {},
        }
        proof {
            use_type_invariant(&*self);
        }
        self.should_render = true;
        false
    }
}

} // verus!
