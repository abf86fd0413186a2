//! The events that drive a session, and how terminal input becomes one.

use vstd::prelude::*;

verus! {

/// One event of the session's event stream.
#[derive(Clone, Copy, Debug, PartialEq, Eq, Structural)]
pub enum Event {
    /// The operator interrupted the session.
    Terminate,
    /// A character was typed.
    KeyPress(char),
    /// The last typed character is to be taken back.
    Backspace,
    /// A periodic tick: repaint if anything changed.
    Render,
    /// A repaint is needed, for instance after the terminal was resized.
    ForceRender,
}

/// A key as the terminal reports it, reduced to what the session reads.
#[derive(Clone, Copy, Debug, PartialEq, Eq, Structural)]
pub enum KeyInput {
    Char(char),
    Backspace,
    Other,
}

/// What the terminal reported.
#[derive(Clone, Copy, Debug, PartialEq, Eq, Structural)]
pub enum TermInput {
    /// The terminal changed size.
    Resize,
    /// A key; `control_only` when Control, and no other modifier, was held.
    Key { code: KeyInput, control_only: bool },
    /// Anything else (focus, mouse, paste).
    Other,
}

/// The event that a terminal input stands for, if any: Control-C terminates,
/// Backspace takes a character back, any other character is typed, and a
/// resize asks for a repaint.
pub open spec fn event_for(input: TermInput) -> Option<Event> {
    match input {
        TermInput::Resize => Some(Event::ForceRender),
        TermInput::Key { code, control_only } => match code {
            KeyInput::Char(c) => if c == 'c' && control_only {
                Some(Event::Terminate)
            } else {
                Some(Event::KeyPress(c))
            },
            KeyInput::Backspace => Some(Event::Backspace),
            KeyInput::Other => None,
        },
        TermInput::Other => None,
    }
}

/// The event that a terminal input stands for, if any.
pub fn input_event(input: TermInput) -> (r: Option<Event>)
    ensures
        r == event_for(input),
{
    match input {
        TermInput::Resize => Some(Event::ForceRender),
        TermInput::Key { code, control_only } => match code {
            KeyInput::Char(c) => if c == 'c' && control_only {
                Some(Event::Terminate)
            } else {
                Some(Event::KeyPress(c))
            },
            KeyInput::Backspace => Some(Event::Backspace),
            KeyInput::Other => None,
        },
        TermInput::Other => None,
    }
}

} // verus!
