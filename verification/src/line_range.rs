//! Windows of line ordinals, anchored to the start or to the end of a file.
//!
//! A window is a half-open interval `[lo, hi)` of line ordinals together with
//! the end of the file the ordinals are counted from. Moving a window "toward
//! the start" or "toward the end" always refers to the file, so the raw
//! transform applied to the bounds of an end-anchored window is the opposite
//! of the one applied to a start-anchored window.

use core::ops::Range;
use vstd::prelude::*;
use vstd::std_specs::cmp::PartialEqSpecImpl;

verus! {

/// The end of the file that a window's ordinals are counted from.
#[derive(Debug, Clone, Copy, PartialEq, Eq, Structural)]
pub enum Sign {
    /// Ordinal 0 is the first line of the file.
    Pos,
    /// Ordinal 0 is the last line of the file, counting backward.
    Neg,
}

/// The smaller of two integers.
pub open spec fn min_int(a: int, b: int) -> int {
    if a <= b {
        a
    } else {
        b
    }
}

/// `lo <= hi`: the interval is well formed.
pub open spec fn ordered(range: Range<usize>) -> bool {
    range.start <= range.end
}

/// The interval with bounds `lo` and `hi`.
pub open spec fn interval(lo: int, hi: int) -> Range<usize> {
    Range { start: lo as usize, end: hi as usize }
}

/// The interval `range` lowered by `by`, stopping at ordinal 0 so that its
/// width is kept.
pub open spec fn lowered(range: Range<usize>, by: usize) -> Range<usize> {
    let step = min_int(by as int, range.start as int);
    interval(range.start - step, range.end - step)
}

/// The interval `range` raised by `by`, stopping at the largest ordinal so
/// that its width is kept.
pub open spec fn raised(range: Range<usize>, by: usize) -> Range<usize> {
    let step = min_int(by as int, usize::MAX - range.end);
    interval(range.start + step, range.end + step)
}

/// The interval `range` with its lower bound moved down by `by`, stopping
/// at ordinal 0.
pub open spec fn widened_down(range: Range<usize>, by: usize) -> Range<usize> {
    interval(range.start - min_int(by as int, range.start as int), range.end as int)
}

/// The interval `range` with its upper bound moved up by `by`, stopping at
/// the largest ordinal.
pub open spec fn widened_up(range: Range<usize>, by: usize) -> Range<usize> {
    interval(range.start as int, range.end + min_int(by as int, usize::MAX - range.end))
}

/// The same lines counted from the other end of a file of `len` lines:
/// `[len - hi, len - lo)`, each bound stopping at 0.
pub open spec fn mirrored(range: Range<usize>, len: int) -> Range<usize> {
    interval(len - min_int(range.end as int, len), len - min_int(range.start as int, len))
}

/// The part of `range` that lies within the first `to` ordinals.
pub open spec fn clipped(range: Range<usize>, to: int) -> Range<usize> {
    interval(min_int(range.start as int, to), min_int(range.end as int, to))
}

/// Raises both bounds by `by`; the step is cut short where the upper bound
/// would pass the largest ordinal.
pub fn shiftr(range: &Range<usize>, by: usize) -> (r: Range<usize>)
    requires
        ordered(*range),
    ensures
        r == raised(*range, by),
        ordered(r),
{
    let room: usize = usize::MAX - range.end;
    let step: usize = if by <= room {
        by
    } else {
        room
    };
    Range { start: range.start + step, end: range.end + step }
}

/// Lowers both bounds by `by`; the step is cut short where the lower bound
/// would pass ordinal 0.
pub fn shiftl(range: &Range<usize>, by: usize) -> (r: Range<usize>)
    requires
        ordered(*range),
    ensures
        r == lowered(*range, by),
        ordered(r),
{
    let step: usize = if by <= range.start {
        by
    } else {
        range.start
    };
    Range { start: range.start - step, end: range.end - step }
}

/// Raises the upper bound by `by`, stopping at the largest ordinal.
pub fn extendr(range: &Range<usize>, by: usize) -> (r: Range<usize>)
    requires
        ordered(*range),
    ensures
        r == widened_up(*range, by),
        ordered(r),
{
    let room: usize = usize::MAX - range.end;
    let step: usize = if by <= room {
        by
    } else {
        room
    };
    Range { start: range.start, end: range.end + step }
}

/// Lowers the lower bound by `by`, stopping at ordinal 0.
pub fn extendl(range: &Range<usize>, by: usize) -> (r: Range<usize>)
    requires
        ordered(*range),
    ensures
        r == widened_down(*range, by),
        ordered(r),
{
    let step: usize = if by <= range.start {
        by
    } else {
        range.start
    };
    Range { start: range.start - step, end: range.end }
}

/// Re-expresses `range` relative to the other end of a file of `len` lines.
pub fn inverted(range: &Range<usize>, len: usize) -> (r: Range<usize>)
    requires
        ordered(*range),
    ensures
        r == mirrored(*range, len as int),
        ordered(r),
{
    let start: usize = if range.end <= len {
        len - range.end
    } else {
        0
    };
    let end: usize = if range.start <= len {
        len - range.start
    } else {
        0
    };
    Range { start, end }
}

/// Cuts `range` down to the `to` lines that exist.
pub fn limit(range: &Range<usize>, to: usize) -> (r: Range<usize>)
    requires
        ordered(*range),
    ensures
        r == clipped(*range, to as int),
        ordered(r),
{
    let start: usize = if range.start <= to {
        range.start
    } else {
        to
    };
    let end: usize = if range.end <= to {
        range.end
    } else {
        to
    };
    Range { start, end }
}

/// A window of line ordinals `[range.start, range.end)` counted from the end
/// of the file that `sign` names.
#[derive(Debug)]
pub struct LinesRange {
    pub sign: Sign,
    pub range: Range<usize>,
}

impl Clone for LinesRange {
    fn clone(&self) -> (r: Self)
        ensures
            r == *self,
    {
        LinesRange { sign: self.sign, range: Range { start: self.range.start, end: self.range.end } }
    }
}

impl PartialEq for LinesRange {
    fn eq(&self, other: &Self) -> (r: bool) {
        self.sign == other.sign && self.range.start == other.range.start && self.range.end
            == other.range.end
    }
}

impl PartialEqSpecImpl for LinesRange {
    open spec fn obeys_eq_spec() -> bool {
        true
    }

    open spec fn eq_spec(&self, other: &Self) -> bool {
        self.sign == other.sign && self.range.start == other.range.start && self.range.end
            == other.range.end
    }
}

impl LinesRange {
    /// The window's invariant: `lo <= hi`.
    pub open spec fn wf(&self) -> bool {
        ordered(self.range)
    }

    /// The number of lines the window asks for.
    pub open spec fn width(&self) -> int {
        self.range.end - self.range.start
    }

    /// The window counted from the start of the file with bounds `range`.
    pub open spec fn forward(range: Range<usize>) -> LinesRange {
        LinesRange { sign: Sign::Pos, range }
    }

    /// The window counted from the end of the file with bounds `range`.
    pub open spec fn backward(range: Range<usize>) -> LinesRange {
        LinesRange { sign: Sign::Neg, range }
    }

    /// The window slid toward the start of the file by `by` lines.
    pub open spec fn shifted_toward_start(&self, by: usize) -> LinesRange {
        match self.sign {
            Sign::Pos => Self::forward(lowered(self.range, by)),
            Sign::Neg => Self::backward(raised(self.range, by)),
        }
    }

    /// The window slid toward the end of the file by `by` lines.
    pub open spec fn shifted_toward_end(&self, by: usize) -> LinesRange {
        match self.sign {
            Sign::Pos => Self::forward(raised(self.range, by)),
            Sign::Neg => Self::backward(lowered(self.range, by)),
        }
    }

    /// The window grown by `by` lines at the edge nearer the start of the
    /// file.
    pub open spec fn extended_toward_start(&self, by: usize) -> LinesRange {
        match self.sign {
            Sign::Pos => Self::forward(widened_down(self.range, by)),
            Sign::Neg => Self::backward(widened_up(self.range, by)),
        }
    }

    /// The window grown by `by` lines at the edge nearer the end of the file.
    pub open spec fn extended_toward_end(&self, by: usize) -> LinesRange {
        match self.sign {
            Sign::Pos => Self::forward(widened_up(self.range, by)),
            Sign::Neg => Self::backward(widened_down(self.range, by)),
        }
    }

    /// Sliding the window toward the start of the file by `by` lines moves
    /// both bounds by exactly `by`: neither end of the ordinal space is hit.
    pub open spec fn slides_toward_start(&self, by: usize) -> bool {
        match self.sign {
            Sign::Pos => by <= self.range.start,
            Sign::Neg => self.range.end + by <= usize::MAX,
        }
    }

    /// Sliding the window toward the end of the file by `by` lines moves both
    /// bounds by exactly `by`: neither end of the ordinal space is hit.
    pub open spec fn slides_toward_end(&self, by: usize) -> bool {
        match self.sign {
            Sign::Pos => self.range.end + by <= usize::MAX,
            Sign::Neg => by <= self.range.start,
        }
    }

    /// A window counted from the start of the file.
    pub fn pos(range: Range<usize>) -> (r: Self)
        ensures
            r == Self::forward(range),
    {
        Self { sign: Sign::Pos, range }
    }

    /// A window counted from the end of the file.
    pub fn neg(range: Range<usize>) -> (r: Self)
        ensures
            r == Self::backward(range),
    {
        Self { sign: Sign::Neg, range }
    }

    /// Slides the window toward the start of the file by `by` lines. The
    /// anchor and the width stay as they are; the slide is cut short where a
    /// bound would leave the ordinal space.
    pub fn shiftl(&self, by: usize) -> (r: LinesRange)
        requires
            self.wf(),
        ensures
            r == self.shifted_toward_start(by),
            r.wf(),
            r.width() == self.width(),
    {
        match self.sign {
            Sign::Pos => LinesRange::pos(shiftl(&self.range, by)),
            Sign::Neg => LinesRange::neg(shiftr(&self.range, by)),
        }
    }

    /// Slides the window toward the end of the file by `by` lines. The anchor
    /// and the width stay as they are; the slide is cut short where a bound
    /// would leave the ordinal space.
    pub fn shiftr(&self, by: usize) -> (r: LinesRange)
        requires
            self.wf(),
        ensures
            r == self.shifted_toward_end(by),
            r.wf(),
            r.width() == self.width(),
    {
        match self.sign {
            Sign::Pos => LinesRange::pos(shiftr(&self.range, by)),
            Sign::Neg => LinesRange::neg(shiftl(&self.range, by)),
        }
    }

    /// Grows the window by `by` lines at the edge nearer the start of the
    /// file; the other edge stays.
    pub fn extendl(&self, by: usize) -> (r: LinesRange)
        requires
            self.wf(),
        ensures
            r == self.extended_toward_start(by),
            r.wf(),
    {
        match self.sign {
            Sign::Pos => LinesRange::pos(extendl(&self.range, by)),
            Sign::Neg => LinesRange::neg(extendr(&self.range, by)),
        }
    }

    /// Grows the window by `by` lines at the edge nearer the end of the file;
    /// the other edge stays.
    pub fn extendr(&self, by: usize) -> (r: LinesRange)
        requires
            self.wf(),
        ensures
            r == self.extended_toward_end(by),
            r.wf(),
    {
        match self.sign {
            Sign::Pos => LinesRange::pos(extendr(&self.range, by)),
            Sign::Neg => LinesRange::neg(extendl(&self.range, by)),
        }
    }
}

/// Sliding a window toward the start of the file and then toward the end by
/// the same amount gives the window back, whenever the first slide was not
/// cut short.
pub proof fn lemma_shift_round_trip(r: LinesRange, k: usize)
    requires
        r.wf(),
        r.slides_toward_start(k),
    ensures
        r.shifted_toward_start(k).shifted_toward_end(k) == r,
{
}

/// Sliding a window toward the end of the file and then toward the start by
/// the same amount gives the window back, whenever the first slide was not
/// cut short.
pub proof fn lemma_shift_round_trip_from_end(r: LinesRange, k: usize)
    requires
        r.wf(),
        r.slides_toward_end(k),
    ensures
        r.shifted_toward_end(k).shifted_toward_start(k) == r,
{
}

/// A slide keeps the width of the window, cut short or not, and growing a
/// window never shrinks it.
pub proof fn lemma_width(r: LinesRange, k: usize)
    requires
        r.wf(),
    ensures
        r.shifted_toward_start(k).width() == r.width(),
        r.shifted_toward_end(k).width() == r.width(),
        r.extended_toward_start(k).width() >= r.width(),
        r.extended_toward_end(k).width() >= r.width(),
{
}

} // verus!
