//! The per-word typing position of a session.

use vstd::prelude::*;

verus! {

/// Where the typist is: the index of the word being typed, and what has been
/// typed of it so far.
pub struct State {
    pub current: usize,
    pub buffer: Vec<char>,
    pub state: StateEnum,
}

/// Whether the session is still being typed or has produced its result.
#[derive(Clone, Copy, Debug, PartialEq, Eq, Structural)]
pub enum StateEnum {
    Typing,
    Results(u8),
}

impl Default for State {
    fn default() -> (r: State)
        ensures
            r.current == 0,
            r.buffer@.len() == 0,
            r.state == StateEnum::Typing,
    {
        State { current: 0, buffer: Vec::new(), state: StateEnum::Typing }
    }
}

} // verus!
