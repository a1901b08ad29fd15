//! The pager's navigation: from a command and the height of the viewport to
//! the window to show next, and to whether anything is to be drawn.

use crate::index_laws::lemma_read_keeps_inv;
use crate::line_range::{interval, LinesRange, Sign};
use crate::line_reader::{window_len, IndexView, LineReader, ReadLines, ReadView};
use crate::text::lemma_count;
use core::ops::Range;
use vstd::prelude::*;

verus! {

/// A move of the viewport up or down the file.
#[derive(Debug, Clone, Copy, PartialEq, Eq, Structural)]
pub enum VerticalMove {
    Bottom,
    HalfPageDown,
    HalfPageUp,
    LineDown,
    LineUp,
    PageDown,
    PageUp,
    Top,
}

/// A move of the viewport to the left or to the right.
#[derive(Debug, Clone, Copy, PartialEq, Eq, Structural)]
pub enum HorizontalMove {
    Left,
    Right,
}

/// What the user asks of the pager.
#[derive(Debug, Clone, Copy, PartialEq, Eq, Structural)]
pub enum Command {
    Quit,
    V(VerticalMove),
    H(HorizontalMove),
}

/// The window that the move `mv` asks for, from the window `current` on a
/// viewport of `rows` rows. `Top` and `Bottom` ask for a page at that end of
/// the file; the other moves slide the current window by a line, by a page
/// or by half a page.
pub open spec fn moved(mv: VerticalMove, current: LinesRange, rows: usize) -> LinesRange {
    match mv {
        VerticalMove::Top => LinesRange::forward(interval(0, rows as int)),
        VerticalMove::Bottom => LinesRange::backward(interval(0, rows as int)),
        VerticalMove::LineUp => current.shifted_toward_start(1),
        VerticalMove::LineDown => current.shifted_toward_end(1),
        VerticalMove::PageUp => current.shifted_toward_start(rows),
        VerticalMove::PageDown => current.shifted_toward_end(rows),
        VerticalMove::HalfPageUp => current.shifted_toward_start(rows / 2),
        VerticalMove::HalfPageDown => current.shifted_toward_end(rows / 2),
    }
}

/// Computes the window that the move `vmove` asks for.
pub fn mv(vmove: VerticalMove, current_line_range: LinesRange, rows: usize) -> (r: LinesRange)
    requires
        current_line_range.wf(),
    ensures
        r == moved(vmove, current_line_range, rows),
        r.wf(),
{
    match vmove {
        VerticalMove::Top => LinesRange::pos(Range { start: 0, end: rows }),
        VerticalMove::Bottom => LinesRange::neg(Range { start: 0, end: rows }),
        VerticalMove::LineUp => current_line_range.shiftl(1),
        VerticalMove::LineDown => current_line_range.shiftr(1),
        VerticalMove::PageUp => current_line_range.shiftl(rows),
        VerticalMove::PageDown => current_line_range.shiftr(rows),
        VerticalMove::HalfPageUp => current_line_range.shiftl(rows / 2),
        VerticalMove::HalfPageDown => current_line_range.shiftr(rows / 2),
    }
}

/// Something for the screen to draw.
#[derive(Debug)]
pub enum DrawCommand<'a> {
    /// Fill the header region with these lines.
    DrawHeader { header: &'a [&'a str] },
    /// Fill the content region with these lines.
    DrawContent { lines: ReadLines<'a> },
    /// Fill the status region with this text.
    DrawStatus { status: &'a str },
}

/// What a `DrawCommand` holds.
pub enum DrawView {
    Header(Seq<Seq<char>>),
    Content(ReadView),
    Status(Seq<char>),
}

impl<'a> View for DrawCommand<'a> {
    type V = DrawView;

    open spec fn view(&self) -> DrawView {
        match *self {
            DrawCommand::DrawHeader { header } => DrawView::Header(texts(header@)),
            DrawCommand::DrawContent { lines } => DrawView::Content(lines@),
            DrawCommand::DrawStatus { status } => DrawView::Status(status@),
        }
    }
}

/// What the lines `lines` hold, in order.
pub open spec fn texts(lines: Seq<&str>) -> Seq<Seq<char>> {
    Seq::new(lines.len(), |i: int| lines[i]@)
}

/// What the draw commands `cmds` hold, in order.
pub open spec fn drawn(cmds: Seq<DrawCommand>) -> Seq<DrawView> {
    Seq::new(cmds.len(), |i: int| cmds[i]@)
}

/// What the pager knows while it shows a file.
pub struct NormalView {
    /// The line index of the file.
    pub index: IndexView,
    /// The lines of the header region.
    pub header: Seq<Seq<char>>,
    /// The text of the status region.
    pub status: Seq<char>,
    /// The window on display.
    pub current: LinesRange,
}

impl NormalView {
    /// The invariant of the viewing state.
    pub open spec fn inv(self) -> bool {
        self.index.inv() && self.current.wf()
    }

    /// The window that the move asks for.
    pub open spec fn target(self, vmove: VerticalMove, rows: usize) -> LinesRange {
        moved(vmove, self.current, rows)
    }

    /// The number of lines by which the file falls short of the window
    /// `target`.
    pub open spec fn shortfall(self, target: LinesRange) -> int {
        target.width() - window_len(self.index.bytes, target)
    }

    /// The window that is read in the end: `target` or, where the file falls
    /// short of it, `target` grown toward the start of the file by the
    /// shortfall.
    pub open spec fn request(self, target: LinesRange) -> LinesRange {
        if self.shortfall(target) > 0 {
            target.extended_toward_start(self.shortfall(target) as usize)
        } else {
            target
        }
    }

    /// The index after a move to the window `target`.
    pub open spec fn index_after(self, target: LinesRange) -> IndexView {
        if self.shortfall(target) > 0 {
            self.index.after_read(target).after_read(self.request(target))
        } else {
            self.index.after_read(target)
        }
    }

    /// What a move to the window `target` reads in the end.
    pub open spec fn answer(self, target: LinesRange) -> ReadView {
        if self.shortfall(target) > 0 {
            self.index.after_read(target).answer(self.request(target))
        } else {
            self.index.answer(target)
        }
    }

    /// A move to the window `target` changes what is on display: the window
    /// it fills is not the one shown.
    pub open spec fn redraws(self, target: LinesRange) -> bool {
        self.answer(target).range != self.current
    }

    /// The state after a move to the window `target`. The index has grown by
    /// what the move read; the window on display changes only where the move
    /// redraws.
    pub open spec fn after(self, target: LinesRange) -> NormalView {
        NormalView {
            index: self.index_after(target),
            header: self.header,
            status: self.status,
            current: if self.redraws(target) {
                self.answer(target).range
            } else {
                self.current
            },
        }
    }

    /// What is drawn for the content `lines`: the header, the content, and
    /// the status.
    pub open spec fn drawing(self, lines: ReadView) -> Seq<DrawView> {
        seq![
            DrawView::Header(self.header),
            DrawView::Content(lines),
            DrawView::Status(self.status),
        ]
    }

    /// What a move to the window `target` draws: nothing where the window on
    /// display stays; the header, the new content and the status where it
    /// changes.
    pub open spec fn drawn_by(self, target: LinesRange) -> Seq<DrawView> {
        if self.redraws(target) {
            self.drawing(self.answer(target))
        } else {
            Seq::empty()
        }
    }

    /// The state after the move `vmove` on a viewport of `rows` rows.
    pub open spec fn after_move(self, vmove: VerticalMove, rows: usize) -> NormalView {
        self.after(self.target(vmove, rows))
    }

    /// What the move `vmove` draws on a viewport of `rows` rows.
    pub open spec fn drawn_by_move(self, vmove: VerticalMove, rows: usize) -> Seq<DrawView> {
        self.drawn_by(self.target(vmove, rows))
    }
}

/// The pager while it shows a file: the line index, the lines of the header,
/// the status text and the window on display.
pub struct NormalMode<'a> {
    line_reader: LineReader<'a>,
    header: &'a [&'a str],
    status: &'a str,
    current_range: LinesRange,
}

impl<'a> View for NormalMode<'a> {
    type V = NormalView;

    closed spec fn view(&self) -> NormalView {
        NormalView {
            index: self.line_reader@,
            header: texts(self.header@),
            status: self.status@,
            current: self.current_range,
        }
    }
}

impl<'a> NormalMode<'a> {
    /// The invariant of the viewing state.
    pub open spec fn wf(&self) -> bool {
        self@.inv()
    }

    /// Starts to show a file on a viewport of `rows` rows: reads the first
    /// page, and gives the state together with what is to be drawn.
    pub fn open(
        line_reader: LineReader<'a>,
        header: &'a [&'a str],
        status: &'a str,
        rows: usize,
    ) -> (r: (Self, Vec<DrawCommand<'a>>))
        requires
            line_reader.wf(),
        ensures
            r.0.wf(),
            r.0@.index == line_reader@.after_read(LinesRange::forward(interval(0, rows as int))),
            r.0@.header == texts(header@),
            r.0@.status == status@,
            r.0@.current == line_reader@.materialized(
                LinesRange::forward(interval(0, rows as int)),
            ),
            drawn(r.1@) == r.0@.drawing(
                line_reader@.answer(LinesRange::forward(interval(0, rows as int))),
            ),
    {
        let mut line_reader = line_reader;
        let lines = line_reader.read(&LinesRange::pos(Range { start: 0, end: rows }));
        let mode = NormalMode { line_reader, header, status, current_range: lines.range.clone() };
        let cmds = mode.mk_draw_commands(lines);
        (mode, cmds)
    }

    /// The window on display.
    pub fn current_range(&self) -> (r: &LinesRange)
        ensures
            *r == self@.current,
    {
        &self.current_range
    }

    /// The line index of the file on display.
    pub fn line_reader(&self) -> (r: &LineReader<'a>)
        ensures
            r@ == self@.index,
    {
        &self.line_reader
    }

    /// Carries out the move `vmove` on a viewport of `rows` rows. Gives what
    /// is to be drawn: nothing where the move leaves the window on display
    /// as it is.
    pub fn process_move(&mut self, vmove: VerticalMove, rows: usize) -> (r: Vec<DrawCommand<'a>>)
        requires
            old(self).wf(),
        ensures
            final(self).wf(),
            final(self)@ == old(self)@.after_move(vmove, rows),
            drawn(r@) == old(self)@.drawn_by_move(vmove, rows),
    {
        let read_lines = self.move_and_read(vmove, rows);
        if !(read_lines.range == self.current_range) {
            self.current_range = read_lines.range.clone();
            return self.mk_draw_commands(read_lines);
        }
        let none: Vec<DrawCommand<'a>> = Vec::new();
        proof {
            assert(drawn(none@) =~= Seq::empty());
        }
        none
    }

    /// The commands that draw the header, the content `lines` and the
    /// status.
    pub fn mk_draw_commands(&self, lines: ReadLines<'a>) -> (r: Vec<DrawCommand<'a>>)
        ensures
            drawn(r@) == self@.drawing(lines@),
    {
        let mut cmds: Vec<DrawCommand<'a>> = Vec::new();
        cmds.push(DrawCommand::DrawHeader { header: self.header });
        cmds.push(DrawCommand::DrawContent { lines });
        cmds.push(DrawCommand::DrawStatus { status: self.status });
        proof {
            assert(drawn(cmds@) =~= self@.drawing(lines@));
        }
        cmds
    }

    /// Reads the window that the move `vmove` asks for. Where the file falls
    /// short of that window, reads it once more, grown toward the start of
    /// the file by the shortfall, so that a full page is shown wherever the
    /// file has one.
    pub fn move_and_read(&mut self, vmove: VerticalMove, rows: usize) -> (r: ReadLines<'a>)
        requires
            old(self).wf(),
        ensures
            final(self).wf(),
            final(self)@.index == old(self)@.index_after(old(self)@.target(vmove, rows)),
            final(self)@.header == old(self)@.header,
            final(self)@.status == old(self)@.status,
            final(self)@.current == old(self)@.current,
            r@ == old(self)@.answer(old(self)@.target(vmove, rows)),
            r.range.wf(),
    {
        let ghost before = self@;
        let new_range = mv(vmove, self.current_range.clone(), rows);
        let requested_nr: usize = new_range.range.end - new_range.range.start;
        let lines = self.line_reader.read(&new_range);
        let returned_nr: usize = lines.lines.len();
        proof {
            assert(lines@.lines.len() == lines.lines@.len());
            assert(returned_nr == window_len(before.index.bytes, new_range));
            assert(before.shortfall(new_range) == requested_nr - returned_nr);
        }
        if returned_nr >= requested_nr {
            lines
        } else {
            let lack: usize = requested_nr - returned_nr;
            self.line_reader.read(&new_range.extendl(lack))
        }
    }
}

/// The pager's state. Commands are carried out while a file is shown; the
/// two other modes answer every command but `Quit` with
/// `Step::Unsupported`.
pub enum Mode<'a> {
    /// The pager shows a file.
    Viewing(NormalMode<'a>),
    /// The pager takes a search pattern.
    Searching,
    /// The pager takes a command line.
    Command,
}

/// What the loop around the pager is to do after a command.
pub enum Step<'a> {
    /// Leave the loop; nothing was read.
    Quit,
    /// Draw these, in order; they may be none.
    Draw(Vec<DrawCommand<'a>>),
    /// The pager is in a mode that carries out no command.
    Unsupported,
}

impl<'a> Mode<'a> {
    /// The invariant of the pager's state.
    pub open spec fn wf(&self) -> bool {
        match self {
            Mode::Viewing(normal) => normal.wf(),
            _ => true,
        }
    }

    /// Carries out the command `cmd` on a viewport of `rows` rows. `Quit`
    /// reads nothing and leaves the state as it is. While a file is shown,
    /// a vertical move is carried out as `NormalMode::process_move` does,
    /// and a horizontal move draws nothing. In the other two modes no
    /// command but `Quit` is carried out, and the answer says so.
    pub fn process(&mut self, cmd: Command, rows: usize) -> (r: Step<'a>)
        requires
            old(self).wf(),
        ensures
            final(self).wf(),
            match (cmd, *old(self)) {
                (Command::Quit, _) => r is Quit && *final(self) == *old(self),
                (Command::V(vmove), Mode::Viewing(before)) => {
                    &&& *final(self) matches Mode::Viewing(after)
                    &&& after@ == before@.after_move(vmove, rows)
                    &&& r matches Step::Draw(cmds)
                    &&& drawn(cmds@) == before@.drawn_by_move(vmove, rows)
                },
                (Command::H(_), Mode::Viewing(_)) => {
                    &&& *final(self) == *old(self)
                    &&& r matches Step::Draw(cmds)
                    &&& cmds@.len() == 0
                },
                _ => r is Unsupported && *final(self) == *old(self),
            },
    {
        match cmd {
            Command::Quit => Step::Quit,
            Command::V(vmove) => match self {
                Mode::Viewing(normal) => Step::Draw(normal.process_move(vmove, rows)),
                _ => Step::Unsupported,
            },
            Command::H(_) => match self {
                Mode::Viewing(_) => Step::Draw(Vec::new()),
                _ => Step::Unsupported,
            },
        }
    }
}

/// A line up at the top of the file draws nothing: where the window on
/// display starts at the first line and lies within the file, the move
/// fills the same window again, and the window on display stays.
pub proof fn lemma_line_up_at_top(n: NormalView, rows: usize)
    requires
        n.inv(),
        n.current.sign == Sign::Pos,
        n.current.range.start == 0,
        n.current.range.end <= n.index.total(),
    ensures
        n.answer(n.target(VerticalMove::LineUp, rows)).range == n.current,
        n.drawn_by_move(VerticalMove::LineUp, rows) == Seq::<DrawView>::empty(),
        n.after_move(VerticalMove::LineUp, rows).current == n.current,
{
}

/// A line down at the bottom of the file draws nothing: where the window on
/// display is counted from the start and ends with the last line, the move
/// falls short by one line, is read again grown by that line, and fills the
/// window on display again.
pub proof fn lemma_line_down_at_bottom(n: NormalView, rows: usize)
    requires
        n.inv(),
        n.current.sign == Sign::Pos,
        n.current.range.end == n.index.total(),
    ensures
        n.answer(n.target(VerticalMove::LineDown, rows)).range == n.current,
        n.drawn_by_move(VerticalMove::LineDown, rows) == Seq::<DrawView>::empty(),
        n.after_move(VerticalMove::LineDown, rows).current == n.current,
{
    lemma_read_keeps_inv(n.index, n.target(VerticalMove::LineDown, rows));
}

/// A window that lies within the file, or asks for no line, is filled as
/// wide as it is.
proof fn lemma_within_is_filled(n: NormalView, target: LinesRange)
    requires
        n.inv(),
        target.wf(),
        target.range.end <= n.index.total() || target.width() == 0,
    ensures
        n.shortfall(target) == 0,
        n.answer(target).range.width() == target.width(),
        n.answer(target).lines.len() == target.width(),
{
    lemma_count(n.index.bytes);
}

/// A start-anchored window that starts within the file and ends behind it
/// is filled, in the end, with as many of the last lines as it is wide,
/// where the file has that many.
proof fn lemma_overhang_is_made_up(n: NormalView, target: LinesRange)
    requires
        n.inv(),
        target.wf(),
        target.sign == Sign::Pos,
        target.range.end > n.index.total(),
        target.width() <= n.index.total(),
        target.range.start <= n.index.total(),
    ensures
        n.answer(target).range == LinesRange::forward(
            interval(n.index.total() - target.width(), n.index.total()),
        ),
        n.answer(target).lines.len() == target.width(),
{
    lemma_read_keeps_inv(n.index, target);
}

/// A full page stays a full page: where the window on display is counted
/// from the start, lies within the file and is as high as the viewport,
/// every move fills a window as high as the viewport.
pub proof fn lemma_full_page_stays(n: NormalView, vmove: VerticalMove, rows: usize)
    requires
        n.inv(),
        n.current.sign == Sign::Pos,
        n.current.range.end <= n.index.total(),
        n.current.width() == rows,
    ensures
        n.answer(n.target(vmove, rows)).range.width() == rows,
        n.answer(n.target(vmove, rows)).lines.len() == rows,
{
    let target = n.target(vmove, rows);
    assert(target.wf() && target.width() == rows);
    if target.range.end <= n.index.total() || rows == 0 {
        lemma_within_is_filled(n, target);
    } else {
        assert(target.sign == Sign::Pos);
        lemma_overhang_is_made_up(n, target);
    }
}

} // verus!
