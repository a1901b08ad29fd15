use linepager::con::{ansi, push_decimal, render, Cmd, Win};
use linepager::keys::{parse, parse_all, KeyCode, KeyPress};
use linepager::navigator::{Command, HorizontalMove, VerticalMove};
use linepager::raw_keys::{read_event, Event};

#[test]
fn ansi_of_the_plain_commands() {
    assert_eq!(ansi(&Cmd::ShowCursor), "\x1B[?25h");
    assert_eq!(ansi(&Cmd::HideCursor), "\x1B[?25l");
    assert_eq!(ansi(&Cmd::ClearScreen), "\x1B[2J");
    assert_eq!(ansi(&Cmd::ClearLine), "\x1B[2K");
    assert_eq!(ansi(&Cmd::Reset), "\x1B[0m");
    assert_eq!(ansi(&Cmd::Inverse), "\x1B[7m");
    assert_eq!(ansi(&Cmd::Bold), "\x1B[1m");
    assert_eq!(ansi(&Cmd::Underline), "\x1B[4m");
}

#[test]
fn ansi_of_print_is_the_text() {
    let cmd = Cmd::Print {
        content: String::from("two words"),
    };
    assert_eq!(ansi(&cmd), "two words");
}

#[test]
fn ansi_of_pos_counts_from_one_and_takes_the_row_first() {
    assert_eq!(ansi(&Cmd::Pos { x: 0, y: 0 }), "\x1B[1;1H");
    assert_eq!(ansi(&Cmd::Pos { x: 10, y: 5 }), "\x1B[6;11H");
    assert_eq!(ansi(&Cmd::Pos { x: 99, y: 1234 }), "\x1B[1235;100H");
    assert_eq!(
        ansi(&Cmd::Pos {
            x: u16::MAX,
            y: u16::MAX
        }),
        "\x1B[65536;65536H"
    );
}

#[test]
fn decimal_digits() {
    let numbers: Vec<u32> = vec![0, 7, 10, 99, 100, 4096, 65536, u32::MAX];
    for n in numbers {
        let mut out = String::from("n=");
        push_decimal(&mut out, n);
        assert_eq!(out, format!("n={}", n));
    }
}

#[test]
fn render_joins_the_commands() {
    let cmds = vec![
        Cmd::Pos { x: 0, y: 2 },
        Cmd::ClearLine,
        Cmd::Inverse,
        Cmd::Print {
            content: String::from("status"),
        },
        Cmd::Reset,
    ];
    assert_eq!(render(&cmds), "\x1B[3;1H\x1B[2K\x1B[7mstatus\x1B[0m");
    assert_eq!(render(&Vec::new()), "");
}

#[test]
fn win_holds_a_size() {
    let win = Win {
        width: 80,
        height: 24,
    };
    assert_eq!(win.width, 80);
    assert_eq!(win.height, 24);
}

fn key(code: KeyCode) -> KeyPress {
    KeyPress {
        code,
        control: false,
    }
}

fn control(code: KeyCode) -> KeyPress {
    KeyPress {
        code,
        control: true,
    }
}

#[test]
fn keys_of_the_table() {
    assert_eq!(parse(&key(KeyCode::Char('q'))), Some(Command::Quit));
    assert_eq!(
        parse(&key(KeyCode::Char('j'))),
        Some(Command::V(VerticalMove::LineDown))
    );
    assert_eq!(
        parse(&key(KeyCode::Char('k'))),
        Some(Command::V(VerticalMove::LineUp))
    );
    assert_eq!(
        parse(&key(KeyCode::Up)),
        Some(Command::V(VerticalMove::LineUp))
    );
    assert_eq!(
        parse(&key(KeyCode::Down)),
        Some(Command::V(VerticalMove::LineDown))
    );
    assert_eq!(
        parse(&key(KeyCode::PageDown)),
        Some(Command::V(VerticalMove::PageDown))
    );
    assert_eq!(
        parse(&key(KeyCode::PageUp)),
        Some(Command::V(VerticalMove::PageUp))
    );
    assert_eq!(
        parse(&key(KeyCode::Char('G'))),
        Some(Command::V(VerticalMove::Bottom))
    );
    assert_eq!(
        parse(&key(KeyCode::Char('g'))),
        Some(Command::V(VerticalMove::Top))
    );
    assert_eq!(
        parse(&key(KeyCode::Left)),
        Some(Command::H(HorizontalMove::Left))
    );
    assert_eq!(
        parse(&key(KeyCode::Right)),
        Some(Command::H(HorizontalMove::Right))
    );
}

#[test]
fn half_pages_need_control() {
    assert_eq!(
        parse(&control(KeyCode::Char('d'))),
        Some(Command::V(VerticalMove::HalfPageDown))
    );
    assert_eq!(
        parse(&control(KeyCode::Char('u'))),
        Some(Command::V(VerticalMove::HalfPageUp))
    );
    assert_eq!(parse(&key(KeyCode::Char('d'))), None);
    assert_eq!(parse(&key(KeyCode::Char('u'))), None);
}

#[test]
fn control_does_not_matter_for_the_other_keys() {
    assert_eq!(parse(&control(KeyCode::Char('q'))), Some(Command::Quit));
    assert_eq!(
        parse(&control(KeyCode::Char('j'))),
        Some(Command::V(VerticalMove::LineDown))
    );
    assert_eq!(
        parse(&control(KeyCode::Up)),
        Some(Command::V(VerticalMove::LineUp))
    );
}

#[test]
fn other_keys_stand_for_nothing() {
    assert_eq!(parse(&key(KeyCode::Other)), None);
    assert_eq!(parse(&key(KeyCode::Char('x'))), None);
    assert_eq!(parse(&key(KeyCode::Char('Q'))), None);
}

#[test]
fn parse_all_passes_over_keys_without_a_command() {
    let keys = vec![
        key(KeyCode::Char('j')),
        key(KeyCode::Char('x')),
        key(KeyCode::Other),
        control(KeyCode::Char('d')),
        key(KeyCode::Char('q')),
    ];
    assert_eq!(
        parse_all(&keys),
        vec![
            Command::V(VerticalMove::LineDown),
            Command::V(VerticalMove::HalfPageDown),
            Command::Quit
        ]
    );
    assert_eq!(parse_all(&Vec::new()), Vec::<Command>::new());
}

#[test]
fn a_small_letter_is_its_key() {
    assert_eq!(read_event(b"a"), Some(Event::A));
    assert_eq!(read_event(b"m"), Some(Event::M));
    assert_eq!(read_event(b"q"), Some(Event::Q));
    assert_eq!(read_event(b"z"), Some(Event::Z));
}

#[test]
fn other_bytes_are_no_key() {
    assert_eq!(read_event(b""), None);
    assert_eq!(read_event(b"A"), None);
    assert_eq!(read_event(b"1"), None);
    assert_eq!(read_event(b"ab"), None);
    assert_eq!(read_event(b"`"), None);
    assert_eq!(read_event(b"{"), None);
}
