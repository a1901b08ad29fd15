//! Console commands and the text that carries them out on an ANSI terminal.

use vstd::prelude::*;
use vstd::string::StringExecFns;

verus! {

/// Something for the console to do.
#[derive(Debug, PartialEq, Eq)]
pub enum Cmd {
    ShowCursor,
    HideCursor,
    ClearScreen,
    ClearLine,
    Bold,
    Underline,
    Inverse,
    Reset,
    /// Write this text at the cursor.
    Print { content: String },
    /// Move the cursor to column `x` of row `y`, both counted from 0.
    Pos { x: u16, y: u16 },
}

/// What a `Cmd` holds.
pub enum CmdView {
    ShowCursor,
    HideCursor,
    ClearScreen,
    ClearLine,
    Bold,
    Underline,
    Inverse,
    Reset,
    Print { content: Seq<char> },
    Pos { x: u16, y: u16 },
}

impl View for Cmd {
    type V = CmdView;

    open spec fn view(&self) -> CmdView {
        match *self {
            Cmd::ShowCursor => CmdView::ShowCursor,
            Cmd::HideCursor => CmdView::HideCursor,
            Cmd::ClearScreen => CmdView::ClearScreen,
            Cmd::ClearLine => CmdView::ClearLine,
            Cmd::Bold => CmdView::Bold,
            Cmd::Underline => CmdView::Underline,
            Cmd::Inverse => CmdView::Inverse,
            Cmd::Reset => CmdView::Reset,
            Cmd::Print { content } => CmdView::Print { content: content@ },
            Cmd::Pos { x, y } => CmdView::Pos { x, y },
        }
    }
}

/// The size of the console, in character cells.
#[derive(Debug, Clone, Copy, PartialEq, Eq)]
pub struct Win {
    pub width: u16,
    pub height: u16,
}

/// The character of the digit `d`.
pub open spec fn digit_char(d: int) -> char {
    if d == 0 {
        '0'
    } else if d == 1 {
        '1'
    } else if d == 2 {
        '2'
    } else if d == 3 {
        '3'
    } else if d == 4 {
        '4'
    } else if d == 5 {
        '5'
    } else if d == 6 {
        '6'
    } else if d == 7 {
        '7'
    } else if d == 8 {
        '8'
    } else {
        '9'
    }
}

/// The decimal digits of `n`, most significant first, without leading
/// zeros; `0` is written `0`.
pub open spec fn decimal(n: nat) -> Seq<char>
    decreases n,
{
    if n < 10 {
        seq![digit_char(n as int)]
    } else {
        decimal(n / 10).push(digit_char((n % 10) as int))
    }
}

/// The text that carries out `cmd` on an ANSI terminal. The terminal counts
/// rows and columns from 1, and takes the row first.
pub open spec fn ansi_text(cmd: CmdView) -> Seq<char> {
    match cmd {
        CmdView::ShowCursor => "\x1B[?25h"@,
        CmdView::HideCursor => "\x1B[?25l"@,
        CmdView::ClearScreen => "\x1B[2J"@,
        CmdView::Pos { x, y } => "\x1B["@ + decimal((y + 1) as nat) + ";"@ + decimal(
            (x + 1) as nat,
        ) + "H"@,
        CmdView::ClearLine => "\x1B[2K"@,
        CmdView::Print { content } => content,
        CmdView::Reset => "\x1B[0m"@,
        CmdView::Inverse => "\x1B[7m"@,
        CmdView::Bold => "\x1B[1m"@,
        CmdView::Underline => "\x1B[4m"@,
    }
}

/// The text of the commands `cmds`, one after the other.
pub open spec fn batch_text(cmds: Seq<Cmd>) -> Seq<char>
    decreases cmds.len(),
{
    if cmds.len() == 0 {
        Seq::empty()
    } else {
        batch_text(cmds.drop_last()) + ansi_text(cmds.last()@)
    }
}

/// The digit `d` as text.
fn digit(d: u32) -> (r: &'static str)
    requires
        d < 10,
    ensures
        r@ == seq![digit_char(d as int)],
{
    proof {
        reveal_strlit("0");
        reveal_strlit("1");
        reveal_strlit("2");
        reveal_strlit("3");
        reveal_strlit("4");
        reveal_strlit("5");
        reveal_strlit("6");
        reveal_strlit("7");
        reveal_strlit("8");
        reveal_strlit("9");
    }
    let r = if d == 0 {
        "0"
    } else if d == 1 {
        "1"
    } else if d == 2 {
        "2"
    } else if d == 3 {
        "3"
    } else if d == 4 {
        "4"
    } else if d == 5 {
        "5"
    } else if d == 6 {
        "6"
    } else if d == 7 {
        "7"
    } else if d == 8 {
        "8"
    } else {
        "9"
    };
    assert(r@ =~= seq![digit_char(d as int)]);
    r
}

/// Writes the decimal digits of `n` behind `out`.
pub fn push_decimal(out: &mut String, n: u32)
    ensures
        final(out)@ == old(out)@ + decimal(n as nat),
    decreases n,
{
    if n >= 10 {
        push_decimal(out, n / 10);
    }
    out.append(digit(n % 10));
    proof {
        assert(out@ =~= old(out)@ + decimal(n as nat));
    }
}

/// The text that carries out `command` on an ANSI terminal.
pub fn ansi(command: &Cmd) -> (r: String)
    ensures
        r@ == ansi_text(command@),
{
    match command {
        Cmd::ShowCursor => String::from_str("\x1B[?25h"),
        Cmd::HideCursor => String::from_str("\x1B[?25l"),
        Cmd::ClearScreen => String::from_str("\x1B[2J"),
        Cmd::Pos { x, y } => {
            let mut out = String::from_str("\x1B[");
            push_decimal(&mut out, *y as u32 + 1);
            out.append(";");
            push_decimal(&mut out, *x as u32 + 1);
            out.append("H");
            out
        },
        Cmd::ClearLine => String::from_str("\x1B[2K"),
        Cmd::Print { content } => content.clone(),
        Cmd::Reset => String::from_str("\x1B[0m"),
        Cmd::Inverse => String::from_str("\x1B[7m"),
        Cmd::Bold => String::from_str("\x1B[1m"),
        Cmd::Underline => String::from_str("\x1B[4m"),
    }
}

/// The text that carries out `commands`, in order, on an ANSI terminal.
pub fn render(commands: &Vec<Cmd>) -> (r: String)
    ensures
        r@ == batch_text(commands@),
{
    let mut out = String::new();
    let mut i: usize = 0;
    while i < commands.len()
        invariant
            i <= commands@.len(),
            out@ == batch_text(commands@.take(i as int)),
        decreases commands@.len() - i,
    {
        let text = ansi(&commands[i]);
        out.append(text.as_str());
        proof {
            assert(commands@.take(i + 1).drop_last() =~= commands@.take(i as int));
        }
        i += 1;
    }
    proof {
        assert(commands@.take(i as int) =~= commands@);
    }
    out
}

} // verus!
