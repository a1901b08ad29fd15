//! The keys of a console that hands over raw bytes.

use vstd::prelude::*;

verus! {

/// A key of the console.
#[derive(Debug, Clone, Copy, PartialEq, Eq)]
pub enum Event {
    A,
    B,
    C,
    D,
    E,
    F,
    G,
    H,
    I,
    J,
    K,
    L,
    M,
    N,
    O,
    P,
    Q,
    R,
    S,
    T,
    U,
    V,
    W,
    X,
    Y,
    Z,
    Zero,
    One,
    Two,
    Three,
    Four,
    Five,
    Six,
    Seven,
    Eight,
    Nine,
    ExlamationMark,
    DoubleQuote,
    NumberSign,
    DollarSign,
    PercentSign,
    Ampersand,
    SingleQuote,
    OpeningParenthesis,
    ClosingParenthesis,
    Asterisk,
    PlusSign,
    Comma,
    MinusSign,
    Dot,
    ForwardSlash,
    Colon,
    SemiColon,
    LessThanSign,
    EqualSign,
    MoreThanSign,
    QuestionMark,
    AtSign,
    OpeningBracket,
    BackwardSlash,
    ClosingBracket,
    Caret,
    Underscore,
    GraveAccent,
    OpeningBraces,
    VerticalLine,
    ClosingBraces,
    Tilde,
    LeftArrow,
    RightArrow,
    UpArrow,
    DownArrow,
}

/// The letter key that the byte `byte` stands for: the small letters `a` to
/// `z` stand for the keys `A` to `Z`, and no other byte stands for a key.
pub open spec fn letter_of(byte: u8) -> Option<Event> {
    if byte == 97 {
        Some(Event::A)
    } else if byte == 98 {
        Some(Event::B)
    } else if byte == 99 {
        Some(Event::C)
    } else if byte == 100 {
        Some(Event::D)
    } else if byte == 101 {
        Some(Event::E)
    } else if byte == 102 {
        Some(Event::F)
    } else if byte == 103 {
        Some(Event::G)
    } else if byte == 104 {
        Some(Event::H)
    } else if byte == 105 {
        Some(Event::I)
    } else if byte == 106 {
        Some(Event::J)
    } else if byte == 107 {
        Some(Event::K)
    } else if byte == 108 {
        Some(Event::L)
    } else if byte == 109 {
        Some(Event::M)
    } else if byte == 110 {
        Some(Event::N)
    } else if byte == 111 {
        Some(Event::O)
    } else if byte == 112 {
        Some(Event::P)
    } else if byte == 113 {
        Some(Event::Q)
    } else if byte == 114 {
        Some(Event::R)
    } else if byte == 115 {
        Some(Event::S)
    } else if byte == 116 {
        Some(Event::T)
    } else if byte == 117 {
        Some(Event::U)
    } else if byte == 118 {
        Some(Event::V)
    } else if byte == 119 {
        Some(Event::W)
    } else if byte == 120 {
        Some(Event::X)
    } else if byte == 121 {
        Some(Event::Y)
    } else if byte == 122 {
        Some(Event::Z)
    } else {
        None
    }
}

/// The key that the bytes `bytes`, read from the console at once, stand
/// for: a single byte that is a small letter stands for that letter's key.
pub open spec fn event_of(bytes: Seq<u8>) -> Option<Event> {
    if bytes.len() == 1 {
        letter_of(bytes[0])
    } else {
        None
    }
}

/// Gives the key that the bytes `bytes` stand for, and `None` where they
/// stand for none.
pub fn read_event(bytes: &[u8]) -> (r: Option<Event>)
    ensures
        r == event_of(bytes@),
{
    if bytes.len() != 1 {
        return None;
    }
    let byte: u8 = bytes[0];
    if byte == 97 {
        Some(Event::A)
    } else if byte == 98 {
        Some(Event::B)
    } else if byte == 99 {
        Some(Event::C)
    } else if byte == 100 {
        Some(Event::D)
    } else if byte == 101 {
        Some(Event::E)
    } else if byte == 102 {
        Some(Event::F)
    } else if byte == 103 {
        Some(Event::G)
    } else if byte == 104 {
        Some(Event::H)
    } else if byte == 105 {
        Some(Event::I)
    } else if byte == 106 {
        Some(Event::J)
    } else if byte == 107 {
        Some(Event::K)
    } else if byte == 108 {
        Some(Event::L)
    } else if byte == 109 {
        Some(Event::M)
    } else if byte == 110 {
        Some(Event::N)
    } else if byte == 111 {
        Some(Event::O)
    } else if byte == 112 {
        Some(Event::P)
    } else if byte == 113 {
        Some(Event::Q)
    } else if byte == 114 {
        Some(Event::R)
    } else if byte == 115 {
        Some(Event::S)
    } else if byte == 116 {
        Some(Event::T)
    } else if byte == 117 {
        Some(Event::U)
    } else if byte == 118 {
        Some(Event::V)
    } else if byte == 119 {
        Some(Event::W)
    } else if byte == 120 {
        Some(Event::X)
    } else if byte == 121 {
        Some(Event::Y)
    } else if byte == 122 {
        Some(Event::Z)
    } else {
        None
    }
}

} // verus!
