//! The events that the display loop takes, and what it does on each.

use vstd::prelude::*;

verus! {

/// The key that ends the session.
pub const QUIT_KEY: char = 'q';

/// A keystroke, as far as the loop tells keystrokes apart.
#[derive(Clone, Copy, PartialEq, Eq, Structural, Debug)]
pub enum Key {
    /// A key that stands for a character.
    Char(char),
    /// Any other key.
    Other,
}

/// What reaches the display loop: a keystroke, or the notice that a new
/// projection of the book can be read.
#[derive(Clone, Copy, PartialEq, Eq, Structural, Debug)]
pub enum Event {
    Input(Key),
    Tick,
}

/// What the display loop does next.
#[derive(Clone, Copy, PartialEq, Eq, Structural, Debug)]
pub enum Reaction {
    /// Read the buffer and draw it.
    Render,
    /// Leave the loop.
    Quit,
    /// Nothing.
    Ignore,
}

/// The reaction that an event calls for: a tick is drawn, the quit key ends
/// the loop, every other key is ignored.
pub open spec fn reaction_to(event: Event) -> Reaction {
    match event {
        Event::Tick => Reaction::Render,
        Event::Input(Key::Char(c)) => if c == QUIT_KEY {
            Reaction::Quit
        } else {
            Reaction::Ignore
        },
        Event::Input(Key::Other) => Reaction::Ignore,
    }
}

/// Decides what the display loop does on `event`.
pub fn react(event: Event) -> (r: Reaction)
    ensures
        r == reaction_to(event),
{
    match event {
        Event::Tick => Reaction::Render,
        Event::Input(Key::Char(c)) => {
            if c == QUIT_KEY {
                Reaction::Quit
            } else {
                Reaction::Ignore
            }
        },
        Event::Input(Key::Other) => Reaction::Ignore,
    }
}

} // verus!
