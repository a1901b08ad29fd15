//! From key presses to the pager's commands.

use crate::navigator::{Command, HorizontalMove, VerticalMove};
use vstd::prelude::*;

verus! {

/// The key of a key press.
#[derive(Debug, Clone, Copy, PartialEq, Eq)]
pub enum KeyCode {
    Char(char),
    Up,
    Down,
    Left,
    Right,
    PageUp,
    PageDown,
    /// Any other key.
    Other,
}

/// A key press.
#[derive(Debug, Clone, Copy, PartialEq, Eq)]
pub struct KeyPress {
    pub code: KeyCode,
    /// Control, and no other modifier, was held down.
    pub control: bool,
}

/// The command that a key press stands for, if it stands for one.
///
/// | key | command |
/// |---|---|
/// | `q` | quit |
/// | `j`, Down | a line down |
/// | `k`, Up | a line up |
/// | Control with `d` | half a page down |
/// | Control with `u` | half a page up |
/// | PageDown, PageUp | a page down, a page up |
/// | `G`, `g` | to the bottom, to the top |
/// | Left, Right | to the left, to the right |
pub open spec fn command_of(key: KeyPress) -> Option<Command> {
    match key.code {
        KeyCode::Char(c) => if c == 'q' {
            Some(Command::Quit)
        } else if c == 'j' {
            Some(Command::V(VerticalMove::LineDown))
        } else if c == 'k' {
            Some(Command::V(VerticalMove::LineUp))
        } else if c == 'd' && key.control {
            Some(Command::V(VerticalMove::HalfPageDown))
        } else if c == 'u' && key.control {
            Some(Command::V(VerticalMove::HalfPageUp))
        } else if c == 'G' {
            Some(Command::V(VerticalMove::Bottom))
        } else if c == 'g' {
            Some(Command::V(VerticalMove::Top))
        } else {
            None
        },
        KeyCode::Up => Some(Command::V(VerticalMove::LineUp)),
        KeyCode::Down => Some(Command::V(VerticalMove::LineDown)),
        KeyCode::PageDown => Some(Command::V(VerticalMove::PageDown)),
        KeyCode::PageUp => Some(Command::V(VerticalMove::PageUp)),
        KeyCode::Left => Some(Command::H(HorizontalMove::Left)),
        KeyCode::Right => Some(Command::H(HorizontalMove::Right)),
        KeyCode::Other => None,
    }
}

/// Gives the command that the key press `key` stands for, and `None` for a
/// key press that stands for none.
pub fn parse(key: &KeyPress) -> (r: Option<Command>)
    ensures
        r == command_of(*key),
{
    match key.code {
        KeyCode::Char(c) => {
            if c == 'q' {
                Some(Command::Quit)
            } else if c == 'j' {
                Some(Command::V(VerticalMove::LineDown))
            } else if c == 'k' {
                Some(Command::V(VerticalMove::LineUp))
            } else if c == 'd' && key.control {
                Some(Command::V(VerticalMove::HalfPageDown))
            } else if c == 'u' && key.control {
                Some(Command::V(VerticalMove::HalfPageUp))
            } else if c == 'G' {
                Some(Command::V(VerticalMove::Bottom))
            } else if c == 'g' {
                Some(Command::V(VerticalMove::Top))
            } else {
                None
            }
        },
        KeyCode::Up => Some(Command::V(VerticalMove::LineUp)),
        KeyCode::Down => Some(Command::V(VerticalMove::LineDown)),
        KeyCode::PageDown => Some(Command::V(VerticalMove::PageDown)),
        KeyCode::PageUp => Some(Command::V(VerticalMove::PageUp)),
        KeyCode::Left => Some(Command::H(HorizontalMove::Left)),
        KeyCode::Right => Some(Command::H(HorizontalMove::Right)),
        KeyCode::Other => None,
    }
}

/// The commands that the key presses `keys` stand for, in their order; key
/// presses that stand for no command are passed over.
pub open spec fn commands_of(keys: Seq<KeyPress>) -> Seq<Command>
    decreases keys.len(),
{
    if keys.len() == 0 {
        Seq::empty()
    } else {
        match command_of(keys.last()) {
            Some(cmd) => commands_of(keys.drop_last()).push(cmd),
            None => commands_of(keys.drop_last()),
        }
    }
}

/// Gives the commands that the key presses `keys` stand for.
pub fn parse_all(keys: &Vec<KeyPress>) -> (r: Vec<Command>)
    ensures
        r@ == commands_of(keys@),
{
    let mut out: Vec<Command> = Vec::new();
    let mut i: usize = 0;
    while i < keys.len()
        invariant
            i <= keys@.len(),
            out@ == commands_of(keys@.take(i as int)),
        decreases keys@.len() - i,
    {
        proof {
            assert(keys@.take(i + 1).drop_last() =~= keys@.take(i as int));
        }
        match parse(&keys[i]) {
            Some(cmd) => {
                out.push(cmd);
            },
            None => {},
        }
        i += 1;
    }
    proof {
        assert(keys@.take(i as int) =~= keys@);
    }
    out
}

} // verus!
