use linepager::line_range::LinesRange;
use linepager::line_reader::{Line, LineReader};
use linepager::navigator::{
    mv, Command, DrawCommand, HorizontalMove, Mode, NormalMode, Step, VerticalMove,
};

const HEADER: [&str; 2] = ["pager", "-----"];

fn numbered(n: usize) -> Vec<u8> {
    let mut buf = Vec::new();
    for i in 0..n {
        buf.extend_from_slice(format!("{}\n", i).as_bytes());
    }
    buf
}

fn content(cmds: &[DrawCommand]) -> (LinesRange, Vec<String>) {
    assert_eq!(cmds.len(), 3);
    match &cmds[0] {
        DrawCommand::DrawHeader { header } => assert_eq!(*header, &HEADER[..]),
        _ => panic!("the header did not come first"),
    }
    let shown = match &cmds[1] {
        DrawCommand::DrawContent { lines } => {
            let mut out = Vec::new();
            for line in lines.lines.iter() {
                match line {
                    Line::Text(s) => out.push(s.to_string()),
                    Line::Raw(_) => panic!("a line that is not text"),
                }
            }
            (lines.range.clone(), out)
        }
        _ => panic!("the content did not come second"),
    };
    match &cmds[2] {
        DrawCommand::DrawStatus { status } => assert_eq!(*status, "file.txt"),
        _ => panic!("the status did not come last"),
    }
    shown
}

fn strings(from: usize, to: usize) -> Vec<String> {
    (from..to).map(|i| i.to_string()).collect()
}

#[test]
fn moves_ask_for_the_windows_of_the_table() {
    let cur = LinesRange::pos(20..30);
    assert_eq!(mv(VerticalMove::Top, cur.clone(), 10), LinesRange::pos(0..10));
    assert_eq!(mv(VerticalMove::Bottom, cur.clone(), 10), LinesRange::neg(0..10));
    assert_eq!(mv(VerticalMove::LineUp, cur.clone(), 10), LinesRange::pos(19..29));
    assert_eq!(mv(VerticalMove::LineDown, cur.clone(), 10), LinesRange::pos(21..31));
    assert_eq!(mv(VerticalMove::PageUp, cur.clone(), 10), LinesRange::pos(10..20));
    assert_eq!(mv(VerticalMove::PageDown, cur.clone(), 10), LinesRange::pos(30..40));
    assert_eq!(mv(VerticalMove::HalfPageUp, cur.clone(), 11), LinesRange::pos(15..25));
    assert_eq!(mv(VerticalMove::HalfPageDown, cur.clone(), 11), LinesRange::pos(25..35));
}

#[test]
fn moves_of_a_backward_window() {
    let cur = LinesRange::neg(20..30);
    assert_eq!(mv(VerticalMove::LineUp, cur.clone(), 10), LinesRange::neg(21..31));
    assert_eq!(mv(VerticalMove::LineDown, cur.clone(), 10), LinesRange::neg(19..29));
    assert_eq!(mv(VerticalMove::PageUp, cur.clone(), 10), LinesRange::neg(30..40));
    assert_eq!(mv(VerticalMove::PageDown, cur.clone(), 10), LinesRange::neg(10..20));
    assert_eq!(mv(VerticalMove::PageDown, cur.clone(), 25), LinesRange::neg(0..10));
}

#[test]
fn opening_draws_the_first_page() {
    let buf = numbered(100);
    let (mode, cmds) = NormalMode::open(LineReader::new(&buf), &HEADER, "file.txt", 5);
    let (range, lines) = content(&cmds);
    assert_eq!(range, LinesRange::pos(0..5));
    assert_eq!(lines, strings(0, 5));
    assert_eq!(mode.current_range(), &LinesRange::pos(0..5));
    assert_eq!(mode.line_reader().eols_forw().len(), 5);
}

#[test]
fn line_up_at_the_top_draws_nothing() {
    let buf = numbered(100);
    let (mut mode, _) = NormalMode::open(LineReader::new(&buf), &HEADER, "file.txt", 5);
    let cmds = mode.process_move(VerticalMove::LineUp, 5);
    assert!(cmds.is_empty());
    assert_eq!(mode.current_range(), &LinesRange::pos(0..5));
}

#[test]
fn page_up_at_the_top_draws_nothing() {
    let buf = numbered(100);
    let (mut mode, _) = NormalMode::open(LineReader::new(&buf), &HEADER, "file.txt", 5);
    assert!(mode.process_move(VerticalMove::PageUp, 5).is_empty());
    assert!(mode.process_move(VerticalMove::HalfPageUp, 5).is_empty());
    assert!(mode.process_move(VerticalMove::Top, 5).is_empty());
}

#[test]
fn line_down_moves_by_one_line() {
    let buf = numbered(100);
    let (mut mode, _) = NormalMode::open(LineReader::new(&buf), &HEADER, "file.txt", 5);
    let cmds = mode.process_move(VerticalMove::LineDown, 5);
    let (range, lines) = content(&cmds);
    assert_eq!(range, LinesRange::pos(1..6));
    assert_eq!(lines, strings(1, 6));
    assert_eq!(mode.current_range(), &LinesRange::pos(1..6));
}

#[test]
fn page_and_half_page_moves() {
    let buf = numbered(100);
    let (mut mode, _) = NormalMode::open(LineReader::new(&buf), &HEADER, "file.txt", 10);
    let (range, _) = content(&mode.process_move(VerticalMove::PageDown, 10));
    assert_eq!(range, LinesRange::pos(10..20));
    let (range, _) = content(&mode.process_move(VerticalMove::HalfPageDown, 10));
    assert_eq!(range, LinesRange::pos(15..25));
    let (range, _) = content(&mode.process_move(VerticalMove::HalfPageUp, 10));
    assert_eq!(range, LinesRange::pos(10..20));
    let (range, lines) = content(&mode.process_move(VerticalMove::PageUp, 10));
    assert_eq!(range, LinesRange::pos(0..10));
    assert_eq!(lines, strings(0, 10));
}

#[test]
fn a_page_down_past_the_end_shows_the_last_full_page() {
    let buf = numbered(15);
    let (mut mode, _) = NormalMode::open(LineReader::new(&buf), &HEADER, "file.txt", 10);
    let (range, lines) = content(&mode.process_move(VerticalMove::PageDown, 10));
    assert_eq!(range, LinesRange::pos(5..15));
    assert_eq!(lines, strings(5, 15));
    assert!(mode.process_move(VerticalMove::PageDown, 10).is_empty());
    assert!(mode.process_move(VerticalMove::LineDown, 10).is_empty());
    assert_eq!(mode.current_range(), &LinesRange::pos(5..15));
}

#[test]
fn bottom_of_a_long_file_is_counted_from_the_end() {
    let buf = numbered(100);
    let (mut mode, _) = NormalMode::open(LineReader::new(&buf), &HEADER, "file.txt", 10);
    let (range, lines) = content(&mode.process_move(VerticalMove::Bottom, 10));
    assert_eq!(range, LinesRange::neg(0..10));
    assert_eq!(lines, strings(90, 100));
    assert!(!mode.line_reader().is_complete());
    assert!(mode.process_move(VerticalMove::LineDown, 10).is_empty());
    let (range, lines) = content(&mode.process_move(VerticalMove::LineUp, 10));
    assert_eq!(range, LinesRange::neg(1..11));
    assert_eq!(lines, strings(89, 99));
}

#[test]
fn bottom_of_a_short_file_shows_the_whole_file() {
    let buf = numbered(3);
    let (mut mode, cmds) = NormalMode::open(LineReader::new(&buf), &HEADER, "file.txt", 10);
    let (range, lines) = content(&cmds);
    assert_eq!(range, LinesRange::pos(0..3));
    assert_eq!(lines, strings(0, 3));
    assert!(mode.process_move(VerticalMove::Bottom, 10).is_empty());
    assert_eq!(mode.current_range(), &LinesRange::pos(0..3));
}

#[test]
fn top_after_bottom_comes_back() {
    let buf = numbered(100);
    let (mut mode, _) = NormalMode::open(LineReader::new(&buf), &HEADER, "file.txt", 10);
    mode.process_move(VerticalMove::Bottom, 10);
    let (range, lines) = content(&mode.process_move(VerticalMove::Top, 10));
    assert_eq!(range, LinesRange::pos(0..10));
    assert_eq!(lines, strings(0, 10));
}

#[test]
fn quit_reads_nothing() {
    let buf = numbered(100);
    let (normal, _) = NormalMode::open(LineReader::new(&buf), &HEADER, "file.txt", 10);
    let mut mode = Mode::Viewing(normal);
    assert!(matches!(mode.process(Command::Quit, 10), Step::Quit));
    match &mode {
        Mode::Viewing(normal) => {
            assert_eq!(normal.current_range(), &LinesRange::pos(0..10));
            assert_eq!(normal.line_reader().eols_forw().len(), 10);
        }
        _ => panic!("the mode changed"),
    }
}

#[test]
fn a_vertical_command_is_carried_out_while_viewing() {
    let buf = numbered(100);
    let (normal, _) = NormalMode::open(LineReader::new(&buf), &HEADER, "file.txt", 10);
    let mut mode = Mode::Viewing(normal);
    match mode.process(Command::V(VerticalMove::PageDown), 10) {
        Step::Draw(cmds) => {
            let (range, lines) = content(&cmds);
            assert_eq!(range, LinesRange::pos(10..20));
            assert_eq!(lines, strings(10, 20));
        }
        _ => panic!("nothing to draw"),
    }
    match mode.process(Command::V(VerticalMove::Top), 10) {
        Step::Draw(cmds) => assert_eq!(cmds.len(), 3),
        _ => panic!("nothing to draw"),
    }
    match mode.process(Command::V(VerticalMove::LineUp), 10) {
        Step::Draw(cmds) => assert!(cmds.is_empty()),
        _ => panic!("no answer"),
    }
}

#[test]
fn a_horizontal_command_draws_nothing() {
    let buf = numbered(100);
    let (normal, _) = NormalMode::open(LineReader::new(&buf), &HEADER, "file.txt", 10);
    let mut mode = Mode::Viewing(normal);
    match mode.process(Command::H(HorizontalMove::Left), 10) {
        Step::Draw(cmds) => assert!(cmds.is_empty()),
        _ => panic!("no answer"),
    }
    match mode.process(Command::H(HorizontalMove::Right), 10) {
        Step::Draw(cmds) => assert!(cmds.is_empty()),
        _ => panic!("no answer"),
    }
}

#[test]
fn the_other_modes_carry_out_nothing_but_quit() {
    let mut searching = Mode::Searching;
    assert!(matches!(
        searching.process(Command::V(VerticalMove::LineDown), 10),
        Step::Unsupported
    ));
    assert!(matches!(
        searching.process(Command::H(HorizontalMove::Left), 10),
        Step::Unsupported
    ));
    assert!(matches!(searching.process(Command::Quit, 10), Step::Quit));
    let mut command = Mode::Command;
    assert!(matches!(
        command.process(Command::V(VerticalMove::Top), 10),
        Step::Unsupported
    ));
    assert!(matches!(command.process(Command::Quit, 10), Step::Quit));
}

#[test]
fn move_and_read_leaves_the_window_on_display() {
    let buf = numbered(100);
    let (mut mode, _) = NormalMode::open(LineReader::new(&buf), &HEADER, "file.txt", 10);
    let lines = mode.move_and_read(VerticalMove::PageDown, 10);
    assert_eq!(lines.range, LinesRange::pos(10..20));
    assert_eq!(lines.lines.len(), 10);
    assert_eq!(mode.current_range(), &LinesRange::pos(0..10));
}

#[test]
fn a_viewport_of_no_rows() {
    let buf = numbered(5);
    let (mut mode, cmds) = NormalMode::open(LineReader::new(&buf), &HEADER, "file.txt", 0);
    let (range, lines) = content(&cmds);
    assert_eq!(range, LinesRange::pos(0..0));
    assert!(lines.is_empty());
    let (range, _) = content(&mode.process_move(VerticalMove::LineDown, 0));
    assert_eq!(range, LinesRange::pos(1..1));
}
