use linepager::con::{Cmd, Win};
use linepager::screen::{
    draw_commands, layout, plain_style, status_style, styled, Attribute, Colour, DrawError,
    Layout, Point, Rect, ScreenError, Style, StyledString,
};

#[test]
fn rect_from_its_top_left_cell() {
    let r = Rect::from_topleft(Point { x: 2, y: 3 }, 10, 4);
    assert_eq!(r.topleft, Point { x: 2, y: 3 });
    assert_eq!(r.botright, Point { x: 12, y: 7 });
    assert_eq!(r.width(), 10);
    assert_eq!(r.height(), 4);
}

#[test]
fn rect_from_its_bottom_right_corner() {
    let r = Rect::from_botright(Point { x: 80, y: 24 }, 80, 1);
    assert_eq!(r.topleft, Point { x: 0, y: 23 });
    assert_eq!(r.botright, Point { x: 80, y: 24 });
    assert_eq!(r.width(), 80);
    assert_eq!(r.height(), 1);
}

#[test]
fn rect_of_no_size() {
    let r = Rect::from_topleft(Point { x: 5, y: 5 }, 0, 0);
    assert_eq!(r.width(), 0);
    assert_eq!(r.height(), 0);
}

#[test]
fn layout_gives_the_content_what_is_left() {
    let win = Win {
        width: 80,
        height: 24,
    };
    let l = layout(&win, 2, 1).unwrap();
    assert_eq!(
        l,
        Layout {
            bounds: Rect {
                topleft: Point { x: 0, y: 0 },
                botright: Point { x: 80, y: 24 }
            },
            header_bounds: Rect {
                topleft: Point { x: 0, y: 0 },
                botright: Point { x: 80, y: 2 }
            },
            content_bounds: Rect {
                topleft: Point { x: 0, y: 2 },
                botright: Point { x: 80, y: 23 }
            },
            status_bounds: Rect {
                topleft: Point { x: 0, y: 23 },
                botright: Point { x: 80, y: 24 }
            },
        }
    );
    assert_eq!(l.content_bounds.height(), 21);
}

#[test]
fn layout_needs_a_row_of_content() {
    let win = Win {
        width: 80,
        height: 3,
    };
    assert_eq!(
        layout(&win, 2, 1),
        Err(ScreenError::NotEnoughSpace {
            desired_height: 4,
            screen_height: 3
        })
    );
    let l = layout(&win, 1, 1).unwrap();
    assert_eq!(l.content_bounds.height(), 1);
}

#[test]
fn layout_without_header_and_status() {
    let win = Win {
        width: 10,
        height: 1,
    };
    let l = layout(&win, 0, 0).unwrap();
    assert_eq!(l.content_bounds, l.bounds);
    assert_eq!(l.header_bounds.height(), 0);
    assert_eq!(l.status_bounds.height(), 0);
    let none = Win {
        width: 10,
        height: 0,
    };
    assert_eq!(
        layout(&none, 0, 0),
        Err(ScreenError::NotEnoughSpace {
            desired_height: 1,
            screen_height: 0
        })
    );
}

#[test]
fn a_console_failure_is_some_error() {
    let e = std::io::Error::new(std::io::ErrorKind::Other, "closed");
    assert_eq!(ScreenError::from(e), ScreenError::SomeError);
}

#[test]
fn every_failure_of_the_terminal_is_the_one_draw_error() {
    let e = std::io::Error::new(std::io::ErrorKind::Other, "closed");
    assert_eq!(DrawError::from(e), DrawError::SomeError);
    let inner = std::io::Error::new(std::io::ErrorKind::Other, "closed");
    assert_eq!(
        DrawError::from(crossterm::ErrorKind::IoError(inner)),
        DrawError::SomeError
    );
    assert_eq!(
        DrawError::from(crossterm::ErrorKind::ResizingTerminalFailure(String::from("no"))),
        DrawError::SomeError
    );
    assert_eq!(
        DrawError::from(crossterm::ErrorKind::FmtError(std::fmt::Error)),
        DrawError::SomeError
    );
}

#[test]
fn draw_commands_fill_row_after_row() {
    let style = plain_style();
    let lines: Vec<&str> = vec!["one", "two"];
    let content = styled(&lines, &style);
    let bounds = Rect::from_topleft(Point { x: 3, y: 1 }, 40, 5);
    assert_eq!(
        draw_commands(&content, &bounds),
        vec![
            Cmd::Pos { x: 3, y: 1 },
            Cmd::ClearLine,
            Cmd::Print {
                content: String::from("one")
            },
            Cmd::Reset,
            Cmd::Pos { x: 3, y: 2 },
            Cmd::ClearLine,
            Cmd::Print {
                content: String::from("two")
            },
            Cmd::Reset,
        ]
    );
}

#[test]
fn draw_commands_leave_out_lines_without_a_row() {
    let style = plain_style();
    let lines: Vec<&str> = vec!["one", "two", "three"];
    let content = styled(&lines, &style);
    let bounds = Rect::from_topleft(Point { x: 0, y: 0 }, 40, 2);
    let cmds = draw_commands(&content, &bounds);
    assert_eq!(cmds.len(), 8);
    assert_eq!(cmds[4], Cmd::Pos { x: 0, y: 1 });
    let none = Rect::from_topleft(Point { x: 0, y: 0 }, 40, 0);
    assert!(draw_commands(&content, &none).is_empty());
}

#[test]
fn draw_commands_switch_the_attributes_on_before_each_piece() {
    let loud = Style {
        attrs: vec![Attribute::Bold, Attribute::Underline],
        colour: Colour::Normal,
    };
    let status = status_style();
    let line: StyledString = vec![("a", &loud), ("b", &status)];
    let empty: StyledString = vec![];
    let content = vec![line, empty];
    let bounds = Rect::from_topleft(Point { x: 0, y: 7 }, 40, 3);
    assert_eq!(
        draw_commands(&content, &bounds),
        vec![
            Cmd::Pos { x: 0, y: 7 },
            Cmd::ClearLine,
            Cmd::Bold,
            Cmd::Underline,
            Cmd::Print {
                content: String::from("a")
            },
            Cmd::Reset,
            Cmd::Inverse,
            Cmd::Print {
                content: String::from("b")
            },
            Cmd::Reset,
            Cmd::Pos { x: 0, y: 8 },
            Cmd::ClearLine,
        ]
    );
}

#[test]
fn styled_makes_one_piece_a_line() {
    let style = status_style();
    let lines: Vec<&str> = vec!["x", "y"];
    let content = styled(&lines, &style);
    assert_eq!(content.len(), 2);
    assert_eq!(content[0].len(), 1);
    assert_eq!(content[0][0].0, "x");
    assert_eq!(content[1][0].0, "y");
    assert_eq!(content[1][0].1.attrs, vec![Attribute::Inverse]);
}

#[test]
fn the_two_styles() {
    let plain = plain_style();
    assert!(plain.attrs.is_empty());
    assert_eq!(plain.colour, Colour::Normal);
    let status = status_style();
    assert_eq!(status.attrs, vec![Attribute::Inverse]);
    assert_eq!(status.colour, Colour::Normal);
}
