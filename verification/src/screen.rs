//! The layout of the screen and the console commands that fill a region of
//! it.

use crate::con::{Cmd, CmdView, Win};
use vstd::prelude::*;
use vstd::std_specs::convert::FromSpecImpl;
use vstd::string::StringExecFns;

verus! {

/// A character cell of the screen: column `x` of row `y`, both counted from
/// 0.
#[derive(Debug, Clone, Copy, PartialEq, Eq)]
pub struct Point {
    pub x: u16,
    pub y: u16,
}

/// A region of the screen, from its top left cell to the cell just beyond
/// its bottom right one.
#[derive(Debug, Clone, Copy, PartialEq, Eq)]
pub struct Rect {
    pub topleft: Point,
    pub botright: Point,
}

/// The colours that text can have.
#[derive(Debug, Clone, Copy, PartialEq, Eq)]
pub enum Colour {
    Normal,
}

/// How a piece of text is shown.
#[derive(Debug)]
pub struct Style {
    pub attrs: Vec<Attribute>,
    pub colour: Colour,
}

/// One way to set text off.
#[derive(Debug, Clone, Copy, PartialEq, Eq)]
pub enum Attribute {
    Bold,
    Underline,
    Inverse,
}

/// What can go wrong with the screen.
#[derive(Debug, PartialEq, Eq)]
pub enum ScreenError {
    /// The screen is lower than the header, one row of content and the
    /// status need.
    NotEnoughSpace { desired_height: u16, screen_height: u16 },
    /// The console failed.
    SomeError,
}

/// `std::io::Error`, the error of the console's input and output. Nothing is
/// known of a value of it.
#[verifier::external_type_specification]
#[verifier::external_body]
pub struct ExIoError(std::io::Error);

impl From<std::io::Error> for ScreenError {
    fn from(_e: std::io::Error) -> (r: ScreenError) {
        ScreenError::SomeError
    }
}

impl FromSpecImpl<std::io::Error> for ScreenError {
    open spec fn obeys_from_spec() -> bool {
        true
    }

    open spec fn from_spec(_e: std::io::Error) -> ScreenError {
        ScreenError::SomeError
    }
}

/// What can go wrong while drawing: every failure of the terminal is the one
/// error.
#[derive(Debug, PartialEq, Eq)]
pub enum DrawError {
    SomeError,
}

/// `crossterm::ErrorKind`, the error of the terminal library. Nothing is
/// known of a value of it.
#[verifier::external_type_specification]
#[verifier::external_body]
pub struct ExTerminalError(crossterm::ErrorKind);

impl From<std::io::Error> for DrawError {
    fn from(_e: std::io::Error) -> (r: DrawError) {
        DrawError::SomeError
    }
}

impl FromSpecImpl<std::io::Error> for DrawError {
    open spec fn obeys_from_spec() -> bool {
        true
    }

    open spec fn from_spec(_e: std::io::Error) -> DrawError {
        DrawError::SomeError
    }
}

impl From<crossterm::ErrorKind> for DrawError {
    fn from(_e: crossterm::ErrorKind) -> (r: DrawError) {
        DrawError::SomeError
    }
}

impl FromSpecImpl<crossterm::ErrorKind> for DrawError {
    open spec fn obeys_from_spec() -> bool {
        true
    }

    open spec fn from_spec(_e: crossterm::ErrorKind) -> DrawError {
        DrawError::SomeError
    }
}

impl Rect {
    /// The region's invariant: its top left cell is neither right of nor
    /// below its bottom right corner.
    pub open spec fn wf(&self) -> bool {
        self.topleft.x <= self.botright.x && self.topleft.y <= self.botright.y
    }

    /// The region of the given size whose top left cell is `topleft`.
    pub fn from_topleft(topleft: Point, width: u16, height: u16) -> (r: Self)
        requires
            topleft.x + width <= u16::MAX,
            topleft.y + height <= u16::MAX,
        ensures
            r.topleft == topleft,
            r.botright.x == topleft.x + width,
            r.botright.y == topleft.y + height,
            r.wf(),
    {
        Self { topleft, botright: Point { x: topleft.x + width, y: topleft.y + height } }
    }

    /// The region of the given size whose bottom right corner is
    /// `botright`.
    pub fn from_botright(botright: Point, width: u16, height: u16) -> (r: Self)
        requires
            width <= botright.x,
            height <= botright.y,
        ensures
            r.botright == botright,
            r.topleft.x == botright.x - width,
            r.topleft.y == botright.y - height,
            r.wf(),
    {
        Self { botright, topleft: Point { x: botright.x - width, y: botright.y - height } }
    }

    /// The number of rows of the region.
    pub fn height(&self) -> (r: u16)
        requires
            self.wf(),
        ensures
            r == self.botright.y - self.topleft.y,
    {
        self.botright.y - self.topleft.y
    }

    /// The number of columns of the region.
    pub fn width(&self) -> (r: u16)
        requires
            self.wf(),
        ensures
            r == self.botright.x - self.topleft.x,
    {
        self.botright.x - self.topleft.x
    }
}

/// A line of text in pieces, each with its style.
pub type StyledString<'a> = Vec<(&'a str, &'a Style)>;

/// A screen of three regions, one above the other: a header, the content,
/// and a status. Each drawing method fills its region with the lines given,
/// first line in the first row, and may be called again with the same
/// effect.
pub trait Screen {
    fn init(header_height: u16, status_height: u16) -> Result<Self, ScreenError> where Self: Sized;

    fn header_bounds(&self) -> Rect;

    fn content_bounds(&self) -> Rect;

    fn status_bounds(&self) -> Rect;

    fn draw_header(&mut self, header: &[&str]) -> Result<(), std::io::Error>;

    fn draw_status(&mut self, status: &str) -> Result<(), std::io::Error>;

    fn draw_content(&mut self, content: &[&str]) -> Result<(), std::io::Error>;

    fn draw(&mut self, content: &[StyledString], bound: &Rect) -> Result<(), std::io::Error>;
}

/// The regions of a screen.
#[derive(Debug, Clone, Copy, PartialEq, Eq)]
pub struct Layout {
    /// The whole screen.
    pub bounds: Rect,
    /// The topmost rows.
    pub header_bounds: Rect,
    /// The rows between the header and the status.
    pub content_bounds: Rect,
    /// The bottommost rows.
    pub status_bounds: Rect,
}

/// The region from column `left` and row `top` to just before column `right`
/// and row `bottom`.
pub open spec fn region(left: int, top: int, right: int, bottom: int) -> Rect {
    Rect {
        topleft: Point { x: left as u16, y: top as u16 },
        botright: Point { x: right as u16, y: bottom as u16 },
    }
}

/// The layout of a screen of size `win` with a header of `header_height` rows
/// and a status of `status_height` rows. All regions are as wide as the
/// screen; the content takes the rows that the other two leave.
pub open spec fn layout_of(win: Win, header_height: u16, status_height: u16) -> Layout {
    Layout {
        bounds: region(0, 0, win.width as int, win.height as int),
        header_bounds: region(0, 0, win.width as int, header_height as int),
        content_bounds: region(
            0,
            header_height as int,
            win.width as int,
            win.height - status_height,
        ),
        status_bounds: region(
            0,
            win.height - status_height,
            win.width as int,
            win.height as int,
        ),
    }
}

/// Divides a screen of size `win` into its three regions. The screen must
/// leave at least one row to the content: where it does not, the error
/// names the height that is needed and the height that there is.
pub fn layout(win: &Win, header_height: u16, status_height: u16) -> (r: Result<
    Layout,
    ScreenError,
>)
    requires
        header_height + status_height + 1 <= u16::MAX,
    ensures
        header_height + status_height + 1 > win.height ==> r == Err::<Layout, ScreenError>(
            ScreenError::NotEnoughSpace {
                desired_height: (header_height + status_height + 1) as u16,
                screen_height: win.height,
            },
        ),
        header_height + status_height + 1 <= win.height ==> r == Ok::<Layout, ScreenError>(
            layout_of(*win, header_height, status_height),
        ),
        r matches Ok(l) ==> l.bounds.wf() && l.header_bounds.wf() && l.content_bounds.wf()
            && l.status_bounds.wf() && l.content_bounds.botright.y > l.content_bounds.topleft.y,
{
    let origin = Point { x: 0, y: 0 };
    let screen_bounds = Rect::from_topleft(origin, win.width, win.height);
    let desired_height: u16 = header_height + status_height + 1;
    if desired_height > win.height {
        return Err(
            ScreenError::NotEnoughSpace {
                desired_height: desired_height,
                screen_height: win.height,
            },
        );
    }
    let header_bounds = Rect::from_topleft(screen_bounds.topleft, win.width, header_height);
    let status_bounds = Rect::from_botright(screen_bounds.botright, win.width, status_height);
    let content_bounds = Rect {
        topleft: Point { x: 0, y: header_bounds.botright.y },
        botright: Point { x: win.width, y: status_bounds.topleft.y },
    };
    Ok(
        Layout {
            bounds: screen_bounds,
            header_bounds: header_bounds,
            content_bounds: content_bounds,
            status_bounds: status_bounds,
        },
    )
}

/// The command that switches the attribute `attr` on.
pub open spec fn attr_cmd(attr: Attribute) -> CmdView {
    match attr {
        Attribute::Bold => CmdView::Bold,
        Attribute::Underline => CmdView::Underline,
        Attribute::Inverse => CmdView::Inverse,
    }
}

/// The commands that write the piece `text` with the attributes `attrs`:
/// each attribute is switched on, the text is written, and all attributes
/// are switched off.
pub open spec fn part_cmds(text: Seq<char>, attrs: Seq<Attribute>) -> Seq<CmdView> {
    Seq::new(attrs.len(), |i: int| attr_cmd(attrs[i])) + seq![
        CmdView::Print { content: text },
        CmdView::Reset,
    ]
}

/// The commands that write the first `n` pieces of `line`, one after the
/// other.
pub open spec fn parts_cmds(line: Seq<(&str, &Style)>, n: int) -> Seq<CmdView>
    decreases n,
{
    if n <= 0 {
        Seq::empty()
    } else {
        parts_cmds(line, n - 1) + part_cmds(line[n - 1].0@, line[n - 1].1.attrs@)
    }
}

/// The commands that fill the row `y` from column `x` on with `line`: the
/// cursor is moved there, the row is cleared, and the pieces are written.
pub open spec fn row_cmds(line: Seq<(&str, &Style)>, x: u16, y: u16) -> Seq<CmdView> {
    seq![CmdView::Pos { x, y }, CmdView::ClearLine] + parts_cmds(line, line.len() as int)
}

/// The commands that fill the first `n` rows of the region `bounds` with
/// the first `n` lines of `content`.
pub open spec fn rows_cmds(content: Seq<StyledString>, bounds: Rect, n: int) -> Seq<CmdView>
    decreases n,
{
    if n <= 0 {
        Seq::empty()
    } else {
        rows_cmds(content, bounds, n - 1) + row_cmds(
            content[n - 1]@,
            bounds.topleft.x,
            (bounds.topleft.y + n - 1) as u16,
        )
    }
}

/// The commands that fill the region `bounds` with `content`, first line in
/// the first row. Lines for which the region has no row are left out.
pub open spec fn draw_cmds(content: Seq<StyledString>, bounds: Rect) -> Seq<CmdView> {
    rows_cmds(
        content,
        bounds,
        if content.len() <= bounds.botright.y - bounds.topleft.y {
            content.len() as int
        } else {
            bounds.botright.y - bounds.topleft.y
        },
    )
}

/// What the commands `cmds` hold, in order.
pub open spec fn cmd_views(cmds: Seq<Cmd>) -> Seq<CmdView> {
    Seq::new(cmds.len(), |i: int| cmds[i]@)
}

/// Appending a command appends what it holds.
proof fn lemma_cmd_views_push(cmds: Seq<Cmd>, cmd: Cmd)
    ensures
        cmd_views(cmds.push(cmd)) == cmd_views(cmds).push(cmd@),
{
    assert(cmd_views(cmds.push(cmd)) =~= cmd_views(cmds).push(cmd@));
}

/// Appends to `out` the commands that write the piece `text` in the style
/// `style`.
fn push_part(out: &mut Vec<Cmd>, text: &str, style: &Style)
    ensures
        cmd_views(final(out)@) == cmd_views(old(out)@) + part_cmds(text@, style.attrs@),
{
    let ghost before = cmd_views(out@);
    let mut i: usize = 0;
    while i < style.attrs.len()
        invariant
            i <= style.attrs@.len(),
            cmd_views(out@) == before + Seq::new(i as nat, |k: int| attr_cmd(style.attrs@[k])),
        decreases style.attrs@.len() - i,
    {
        let cmd = match style.attrs[i] {
            Attribute::Bold => Cmd::Bold,
            Attribute::Underline => Cmd::Underline,
            Attribute::Inverse => Cmd::Inverse,
        };
        proof {
            lemma_cmd_views_push(out@, cmd);
        }
        out.push(cmd);
        proof {
            assert(cmd_views(out@) =~= before + Seq::new(
                (i + 1) as nat,
                |k: int| attr_cmd(style.attrs@[k]),
            ));
        }
        i += 1;
    }
    let print = Cmd::Print { content: String::from_str(text) };
    proof {
        lemma_cmd_views_push(out@, print);
        lemma_cmd_views_push(out@.push(print), Cmd::Reset);
    }
    out.push(print);
    out.push(Cmd::Reset);
    proof {
        assert(cmd_views(out@) =~= before + part_cmds(text@, style.attrs@));
    }
}

/// Appends to `out` the commands that fill the row `y` from column `x` on
/// with `line`.
fn push_row(out: &mut Vec<Cmd>, line: &StyledString, x: u16, y: u16)
    ensures
        cmd_views(final(out)@) == cmd_views(old(out)@) + row_cmds(line@, x, y),
{
    let ghost before = cmd_views(out@);
    proof {
        lemma_cmd_views_push(out@, Cmd::Pos { x, y });
        lemma_cmd_views_push(out@.push(Cmd::Pos { x, y }), Cmd::ClearLine);
    }
    out.push(Cmd::Pos { x, y });
    out.push(Cmd::ClearLine);
    let ghost head = seq![CmdView::Pos { x, y }, CmdView::ClearLine];
    proof {
        assert(cmd_views(out@) =~= before + head + parts_cmds(line@, 0));
    }
    let mut i: usize = 0;
    while i < line.len()
        invariant
            i <= line@.len(),
            cmd_views(out@) == before + head + parts_cmds(line@, i as int),
        decreases line@.len() - i,
    {
        let part = &line[i];
        push_part(out, part.0, part.1);
        proof {
            assert(cmd_views(out@) =~= before + head + parts_cmds(line@, i + 1));
        }
        i += 1;
    }
    proof {
        assert(cmd_views(out@) =~= before + row_cmds(line@, x, y));
    }
}

/// The commands that fill the region `bounds` with `content`, first line in
/// the first row. Lines for which the region has no row are left out.
pub fn draw_commands(content: &[StyledString], bounds: &Rect) -> (r: Vec<Cmd>)
    requires
        bounds.wf(),
    ensures
        cmd_views(r@) == draw_cmds(content@, *bounds),
{
    let height: usize = bounds.height() as usize;
    let rows: usize = if content.len() <= height {
        content.len()
    } else {
        height
    };
    let mut out: Vec<Cmd> = Vec::new();
    let mut i: usize = 0;
    proof {
        assert(cmd_views(out@) =~= rows_cmds(content@, *bounds, 0));
    }
    while i < rows
        invariant
            i <= rows <= content@.len(),
            rows <= bounds.botright.y - bounds.topleft.y,
            bounds.wf(),
            cmd_views(out@) == rows_cmds(content@, *bounds, i as int),
        decreases rows - i,
    {
        let y: u16 = bounds.topleft.y + i as u16;
        push_row(&mut out, &content[i], bounds.topleft.x, y);
        i += 1;
    }
    out
}

/// The lines `lines`, each as a single piece in the style `style`.
pub fn styled<'a>(lines: &[&'a str], style: &'a Style) -> (r: Vec<StyledString<'a>>)
    ensures
        r@.len() == lines@.len(),
        forall|i: int|
            0 <= i < lines@.len() ==> (#[trigger] r@[i])@.len() == 1 && r@[i]@[0].0 == lines@[i]
                && r@[i]@[0].1 == style,
{
    let mut out: Vec<StyledString<'a>> = Vec::new();
    let mut i: usize = 0;
    while i < lines.len()
        invariant
            i <= lines@.len(),
            out@.len() == i,
            forall|k: int|
                0 <= k < i ==> (#[trigger] out@[k])@.len() == 1 && out@[k]@[0].0 == lines@[k]
                    && out@[k]@[0].1 == style,
        decreases lines@.len() - i,
    {
        let mut line: StyledString<'a> = Vec::new();
        line.push((lines[i], style));
        out.push(line);
        i += 1;
    }
    out
}

/// The style of the header and of the content: no attribute.
pub fn plain_style() -> (r: Style)
    ensures
        r.attrs@.len() == 0,
        r.colour == Colour::Normal,
{
    Style { attrs: Vec::new(), colour: Colour::Normal }
}

/// The style of the status: inverse.
pub fn status_style() -> (r: Style)
    ensures
        r.attrs@ == seq![Attribute::Inverse],
        r.colour == Colour::Normal,
{
    let mut attrs: Vec<Attribute> = Vec::new();
    attrs.push(Attribute::Inverse);
    Style { attrs, colour: Colour::Normal }
}

} // verus!
