//! A line index that grows on demand, from either end of the buffer.
//!
//! The index remembers the boundaries it has found: those discovered
//! scanning from the start, and those discovered scanning from the end. A
//! read scans only as far as its window asks, and never scans a byte twice.
//! Once the two scans have met, or the scan from the start has reached the
//! end of the buffer, the index is complete and every window is answered
//! from the start-anchored boundaries alone.

use crate::index_laws::{lemma_read_keeps_boundaries, lemma_read_keeps_inv};
use crate::line_range::{clipped, inverted, limit, min_int, mirrored, ordered, LinesRange, Sign};
use crate::scan::{next_newline, prev_newline};
use crate::text::{
    boundary_before, eols, is_eol, lemma_count, lemma_empty_has_no_line, lemma_eols, lemma_last_eol,
    lemma_line_span, lemma_next_eol, lemma_no_next_eol, lemma_prev_eol, line_bytes, line_count,
    line_end, line_start, no_eol_in, BEFORE_FIRST_BYTE, NEWLINE,
};
use core::ops::Range;
use vstd::prelude::*;
use vstd::slice::slice_subrange;
use vstd::utf8::{decode_utf8, encode_utf8, encode_utf8_decode_utf8, valid_utf8};

verus! {

/// One line of the buffer, without the newline that ends it.
#[derive(Debug, Clone, Copy, PartialEq, Eq)]
pub enum Line<'a> {
    /// The line is valid UTF-8.
    Text(&'a str),
    /// The line is not valid UTF-8; these are its bytes.
    Raw(&'a [u8]),
}

/// What a `Line` holds.
pub enum LineView {
    Text(Seq<char>),
    Raw(Seq<u8>),
}

impl<'a> View for Line<'a> {
    type V = LineView;

    open spec fn view(&self) -> LineView {
        match *self {
            Line::Text(s) => LineView::Text(s@),
            Line::Raw(b) => LineView::Raw(b@),
        }
    }
}

/// The line that the bytes `bytes` make: text where they are valid UTF-8,
/// the bytes themselves where they are not.
pub open spec fn decoded(bytes: Seq<u8>) -> LineView {
    if valid_utf8(bytes) {
        LineView::Text(decode_utf8(bytes))
    } else {
        LineView::Raw(bytes)
    }
}

/// `core::str::from_utf8` checks that a byte slice is valid UTF-8 and, where
/// it is, hands the same bytes back as a string slice. It is taken at its
/// documentation: it succeeds exactly on valid UTF-8, and the string slice
/// is made of the bytes given.
#[verifier::external_body]
fn text_of<'a>(bytes: &'a [u8]) -> (text: Option<&'a str>)
    ensures
        text is Some <==> valid_utf8(bytes@),
        text matches Some(s) ==> encode_utf8(s@) == bytes@,
{
    match core::str::from_utf8(bytes) {
        Ok(s) => Some(s),
        Err(_) => None,
    }
}

/// The lines that a read gives, the window they fill and the part of the
/// buffer they come from.
#[derive(Debug)]
pub struct ReadLines<'a> {
    /// The window that was filled. It may be narrower than the one asked
    /// for, and it is start-anchored wherever the index is complete.
    pub range: LinesRange,
    /// The lines of the window, first line of the file first.
    pub lines: Vec<Line<'a>>,
    /// The first and the last boundary that the lines lie between: the
    /// boundary before the first line and the boundary of the last line.
    /// Before the first line of the file lies the boundary before the first
    /// byte, written `BEFORE_FIRST_BYTE`. Where there is no line, both are
    /// the boundary before the line the window starts at.
    pub buf_range: Range<usize>,
}

/// What a `ReadLines` holds.
pub struct ReadView {
    /// The window that was filled.
    pub range: LinesRange,
    /// What each line holds, first line of the file first.
    pub lines: Seq<LineView>,
    /// The boundary before the first line and the boundary of the last.
    pub span: (int, int),
}

impl<'a> ReadLines<'a> {
    /// What the lines hold, in order.
    pub open spec fn shown(&self) -> Seq<LineView> {
        Seq::new(self.lines@.len(), |i: int| self.lines@[i]@)
    }
}

impl<'a> View for ReadLines<'a> {
    type V = ReadView;

    open spec fn view(&self) -> ReadView {
        ReadView {
            range: self.range,
            lines: self.shown(),
            span: (self.buf_range.start as int, self.buf_range.end as int),
        }
    }
}

/// Lines `first`, ..., `first + count - 1` of `buf`, each as what it
/// holds.
pub open spec fn lines_from(buf: Seq<u8>, first: int, count: int) -> Seq<LineView> {
    Seq::new(count as nat, |i: int| decoded(line_bytes(buf, first + i)))
}

/// The first and the last boundary that lines `first`, ...,
/// `first + count - 1` of `buf` lie between: the boundary before the first
/// of them and the boundary of the last, in the order of the file for
/// either anchor. For no line, both are the boundary before line `first`.
/// The boundary before line 0 is `BEFORE_FIRST_BYTE`.
pub open spec fn span_from(buf: Seq<u8>, first: int, count: int) -> (int, int) {
    if count > 0 {
        (boundary_before(buf, first), line_end(buf, first + count - 1))
    } else {
        (boundary_before(buf, first), boundary_before(buf, first))
    }
}

/// Counted from the start of the file, the number of the first line in the
/// part of the window `range` that exists in `buf`.
pub open spec fn window_first(buf: Seq<u8>, range: LinesRange) -> int {
    let total = line_count(buf);
    match range.sign {
        Sign::Pos => min_int(range.range.start as int, total),
        Sign::Neg => total - min_int(range.range.end as int, total),
    }
}

/// The number of lines in the part of the window `range` that exists in
/// `buf`.
pub open spec fn window_len(buf: Seq<u8>, range: LinesRange) -> int {
    let total = line_count(buf);
    min_int(range.range.end as int, total) - min_int(range.range.start as int, total)
}

/// The lines of `buf` that the window `range` covers, first line of the file
/// first.
pub open spec fn window_lines(buf: Seq<u8>, range: LinesRange) -> Seq<LineView> {
    lines_from(buf, window_first(buf, range), window_len(buf, range))
}

/// The first and the last boundary that the lines of the window `range`
/// lie between.
pub open spec fn window_span(buf: Seq<u8>, range: LinesRange) -> (int, int) {
    span_from(buf, window_first(buf, range), window_len(buf, range))
}

/// The first `n` boundaries of `buf`.
pub open spec fn first_eols(buf: Seq<u8>, n: int) -> Seq<int> {
    eols(buf).take(n)
}

/// The last `n` boundaries of `buf`, the one nearest to the end first.
pub open spec fn last_eols(buf: Seq<u8>, n: int) -> Seq<int> {
    Seq::new(n as nat, |j: int| eols(buf)[line_count(buf) - 1 - j])
}

/// The larger of two integers.
pub open spec fn max_int(a: int, b: int) -> int {
    if a >= b {
        a
    } else {
        b
    }
}

/// What a line index knows.
pub struct IndexView {
    /// The buffer that is indexed.
    pub bytes: Seq<u8>,
    /// The boundaries found scanning from the start, in ascending order. The
    /// boundary before the first byte is implied.
    pub forward: Seq<int>,
    /// The boundaries found scanning from the end, nearest to the end
    /// first.
    pub backward: Seq<int>,
    /// The two scans have met, or the scan from the start has reached the
    /// end of the buffer: `forward` holds every boundary.
    pub complete: bool,
}

impl IndexView {
    /// The number of lines in the buffer.
    pub open spec fn total(self) -> int {
        line_count(self.bytes)
    }

    /// The invariant of a line index. The buffer is one that a slice can
    /// hold. What was found from the start is the first boundaries of the
    /// buffer and what was found from the end is its last ones, no boundary
    /// was found from both ends, and a complete index holds all of them in
    /// `forward`.
    pub open spec fn inv(self) -> bool {
        &&& self.bytes.len() <= usize::MAX
        &&& self.forward.len() + self.backward.len() <= self.total()
        &&& self.forward == first_eols(self.bytes, self.forward.len() as int)
        &&& self.backward == last_eols(self.bytes, self.backward.len() as int)
        &&& self.complete ==> self.forward.len() == self.total()
    }

    /// The index of `bytes` that has not scanned anything.
    pub open spec fn fresh(bytes: Seq<u8>) -> IndexView {
        IndexView { bytes, forward: Seq::empty(), backward: Seq::empty(), complete: false }
    }

    /// The complete index of `bytes`.
    pub open spec fn finished(bytes: Seq<u8>) -> IndexView {
        IndexView { bytes, forward: eols(bytes), backward: Seq::empty(), complete: true }
    }

    /// A scan from the start that is to find `count` boundaries runs dry:
    /// fewer than that are left between the start and what the scan from
    /// the end has found.
    pub open spec fn forward_runs_dry(self, count: int) -> bool {
        count > self.total() - self.backward.len()
    }

    /// A scan from the start for `count` boundaries reaches the end of the
    /// buffer: it has boundaries to find, and the last of them is the last
    /// boundary of the buffer.
    pub open spec fn forward_reaches_end(self, count: int) -> bool {
        self.backward.len() == 0 && self.forward.len() < count && count == self.total()
    }

    /// A scan from the end that is to find `count` boundaries runs dry.
    pub open spec fn backward_runs_dry(self, count: int) -> bool {
        count > self.total() - self.forward.len()
    }

    /// The index after a scan from the start for `count` boundaries.
    pub open spec fn scanned_forward(self, count: int) -> IndexView {
        let reach = min_int(
            max_int(self.forward.len() as int, count),
            self.total() - self.backward.len(),
        );
        IndexView {
            bytes: self.bytes,
            forward: first_eols(self.bytes, reach),
            backward: self.backward,
            complete: self.complete,
        }
    }

    /// The index after a scan from the end for `count` boundaries.
    pub open spec fn scanned_backward(self, count: int) -> IndexView {
        let reach = min_int(
            max_int(self.backward.len() as int, count),
            self.total() - self.forward.len(),
        );
        IndexView {
            bytes: self.bytes,
            forward: self.forward,
            backward: last_eols(self.bytes, reach),
            complete: self.complete,
        }
    }

    /// The index after a read of the window `range`. A start-anchored window
    /// `[lo, hi)` needs `hi` boundaries from the start, and an end-anchored
    /// one needs `hi + 1` from the end: the last of them is where its first
    /// line starts. A scan that runs dry completes the index, and so does a
    /// scan from the start that reaches the end of the buffer.
    pub open spec fn after_read(self, range: LinesRange) -> IndexView {
        if self.complete {
            self
        } else {
            match range.sign {
                Sign::Pos => if self.forward_runs_dry(range.range.end as int)
                    || self.forward_reaches_end(range.range.end as int) {
                    Self::finished(self.bytes)
                } else {
                    self.scanned_forward(range.range.end as int)
                },
                Sign::Neg => if self.backward_runs_dry(range.range.end + 1) {
                    Self::finished(self.bytes)
                } else {
                    self.scanned_backward(range.range.end + 1)
                },
            }
        }
    }

    /// The window that a read of `range` fills. A start-anchored window is
    /// cut down to the lines that exist. An end-anchored window is filled
    /// as it is while the index stays incomplete, and is turned into the
    /// start-anchored window of the same lines where the read finds the
    /// index complete or completes it.
    pub open spec fn materialized(self, range: LinesRange) -> LinesRange {
        match range.sign {
            Sign::Pos => LinesRange::forward(clipped(range.range, self.total())),
            Sign::Neg => if self.after_read(range).complete {
                LinesRange::forward(mirrored(range.range, self.total()))
            } else {
                range
            },
        }
    }

    /// What a read of the window `range` gives: the window that is filled,
    /// its lines, and the part of the buffer they come from.
    pub open spec fn answer(self, range: LinesRange) -> ReadView {
        ReadView {
            range: self.materialized(range),
            lines: window_lines(self.bytes, range),
            span: window_span(self.bytes, range),
        }
    }

    /// Every boundary that the index has found.
    pub open spec fn known(self) -> Set<int> {
        self.forward.to_set().union(self.backward.to_set())
    }
}

/// The integers that `v` holds.
pub open spec fn offsets(v: Seq<usize>) -> Seq<int> {
    Seq::new(v.len(), |i: int| v[i] as int)
}

/// Appending to `v` appends to the integers it holds.
proof fn lemma_offsets_push(v: Seq<usize>, x: usize)
    ensures
        offsets(v.push(x)) == offsets(v).push(x as int),
{
    assert(offsets(v.push(x)) =~= offsets(v).push(x as int));
}

/// Dropping the last of `v` drops the last of the integers it holds.
proof fn lemma_offsets_drop_last(v: Seq<usize>)
    requires
        v.len() > 0,
    ensures
        offsets(v.drop_last()) == offsets(v).drop_last(),
        offsets(v).last() == v.last(),
{
    assert(offsets(v.drop_last()) =~= offsets(v).drop_last());
}

/// A lazy index of the lines of a byte buffer. It borrows the buffer and
/// never copies it: the lines it gives are slices of the buffer.
pub struct LineReader<'a> {
    eols_forw: Vec<usize>,
    eols_back: Vec<usize>,
    buf: &'a [u8],
    full: bool,
}

impl<'a> View for LineReader<'a> {
    type V = IndexView;

    closed spec fn view(&self) -> IndexView {
        IndexView {
            bytes: self.buf@,
            forward: offsets(self.eols_forw@),
            backward: offsets(self.eols_back@),
            complete: self.full,
        }
    }
}

impl<'a> LineReader<'a> {
    /// The invariant of the index.
    pub open spec fn wf(&self) -> bool {
        self@.inv()
    }

    /// An index of `buf` that has scanned nothing yet.
    pub fn new(buf: &'a [u8]) -> (r: Self)
        ensures
            r.wf(),
            r@ == IndexView::fresh(buf@),
    {
        let r = LineReader { eols_forw: Vec::new(), eols_back: Vec::new(), buf, full: false };
        proof {
            assert(buf@.len() == buf.len());
            lemma_count(buf@);
            assert(r@.forward =~= Seq::empty());
            assert(r@.backward =~= Seq::empty());
            assert(r@.forward =~= first_eols(buf@, 0));
            assert(r@.backward =~= last_eols(buf@, 0));
        }
        r
    }

    /// The buffer that is indexed.
    pub fn buffer(&self) -> (r: &'a [u8])
        ensures
            r@ == self@.bytes,
    {
        self.buf
    }

    /// The boundaries found scanning from the start, in ascending order.
    pub fn eols_forw(&self) -> (r: &Vec<usize>)
        ensures
            offsets(r@) == self@.forward,
    {
        &self.eols_forw
    }

    /// The boundaries found scanning from the end, nearest to the end
    /// first.
    pub fn eols_back(&self) -> (r: &Vec<usize>)
        ensures
            offsets(r@) == self@.backward,
    {
        &self.eols_back
    }

    /// Whether every boundary of the buffer has been found.
    pub fn is_complete(&self) -> (r: bool)
        ensures
            r == self@.complete,
    {
        self.full
    }

    /// The offset at which the scan from the start goes on.
    fn frontier(&self) -> (from: usize)
        requires
            self.wf(),
        ensures
            self@.forward.len() == 0 ==> from == 0,
            self@.forward.len() > 0 ==> from == min_int(
                self@.forward.last() + 1,
                self@.bytes.len() as int,
            ),
    {
        let f: usize = self.eols_forw.len();
        if f == 0 {
            0
        } else {
            let last: usize = self.eols_forw[f - 1];
            if last < self.buf.len() {
                last + 1
            } else {
                self.buf.len()
            }
        }
    }

    /// Scans from the start until `count` boundaries are known from there.
    /// Returns whether the scan has met the scan from the end or the end of
    /// the buffer: whether it ran dry, or found the last boundary of the
    /// buffer.
    fn extend(&mut self, count: usize) -> (met: bool)
        requires
            old(self).wf(),
            !old(self)@.complete,
        ensures
            final(self).wf(),
            final(self)@ == old(self)@.scanned_forward(count as int),
            met == (old(self)@.forward_runs_dry(count as int) || old(self)@.forward_reaches_end(
                count as int,
            )),
            met ==> final(self)@.forward.len() + final(self)@.backward.len()
                == old(self)@.total(),
    {
        let ghost before = self@;
        let ghost all = eols(self.buf@);
        let mut ended: bool = false;
        proof {
            lemma_eols(self.buf@);
        }
        while self.eols_forw.len() < count
            invariant
                ended == (self@.backward.len() == 0 && before.forward.len() < self@.forward.len()
                    && self@.forward.len() == all.len()),
                self.wf(),
                !self@.complete,
                self@.bytes == before.bytes,
                self@.backward == before.backward,
                all == eols(self.buf@),
                before == old(self)@,
                before.inv(),
                !before.complete,
                before.forward.len() <= self@.forward.len(),
                self@.forward.len() <= max_int(before.forward.len() as int, count as int),
            decreases count - self.eols_forw.len(),
        {
            let f: usize = self.eols_forw.len();
            let b: usize = self.eols_back.len();
            let len: usize = self.buf.len();
            let from: usize = self.frontier();
            proof {
                lemma_eols(self.buf@);
                if f > 0 {
                    assert(self@.forward[f - 1] == all[f - 1]);
                }
                if b > 0 {
                    assert(self@.backward[b - 1] == all[all.len() - b]);
                    if f > 0 {
                        assert(all[f - 1] < all[all.len() - b]);
                    }
                }
            }
            let to: usize = if b == 0 {
                len
            } else {
                self.eols_back[b - 1]
            };
            let found = next_newline(self.buf, from, to);
            let ghost start = if f > 0 {
                all[f - 1] + 1
            } else {
                0
            };
            let next: usize = match found {
                Some(p) => {
                    proof {
                        assert(is_eol(self.buf@, p as int));
                        assert(no_eol_in(self.buf@, start, p as int));
                        lemma_next_eol(self.buf@, f as int, p as int);
                        if b > 0 && f + b == all.len() {
                            // boundary f would be one that the other scan holds
                            assert(all[f as int] == all[all.len() - b]);
                        }
                    }
                    p
                },
                None => {
                    if b == 0 && from < len {
                        proof {
                            assert(self.buf@[len - 1] != NEWLINE);
                            assert(is_eol(self.buf@, len as int));
                            assert(no_eol_in(self.buf@, start, len as int));
                            lemma_next_eol(self.buf@, f as int, len as int);
                        }
                        len
                    } else {
                        proof {
                            if b > 0 {
                                assert(no_eol_in(self.buf@, start, all[all.len() - b]));
                            } else {
                                assert(no_eol_in(self.buf@, start, len + 1)) by {
                                    if f > 0 && all[f - 1] == len - 1 {
                                        assert(is_eol(self.buf@, all[f - 1]));
                                    }
                                }
                            }
                            lemma_no_next_eol(self.buf@, f as int, all.len() - b);
                            assert(self@.forward =~= before.scanned_forward(count as int).forward);
                        }
                        return true;
                    }
                },
            };
            proof {
                lemma_offsets_push(self.eols_forw@, next);
                // the boundary found is the last one where it stands at the
                // last byte or at the end of the buffer
                lemma_last_eol(self.buf@);
                if f + 1 < all.len() {
                    assert(all[f as int] < all[all.len() - 1]);
                }
            }
            ended = b == 0 && len - next <= 1;
            self.eols_forw.push(next);
            proof {
                assert(self@.forward =~= first_eols(self.buf@, f + 1));
            }
        }
        proof {
            assert(self@.forward =~= before.scanned_forward(count as int).forward);
        }
        ended
    }

    /// Scans from the end until `count` boundaries are known from there.
    /// Returns whether the scan ran dry before that.
    fn extend_back(&mut self, count: usize) -> (dry: bool)
        requires
            old(self).wf(),
            !old(self)@.complete,
        ensures
            final(self).wf(),
            final(self)@ == old(self)@.scanned_backward(count as int),
            dry == old(self)@.backward_runs_dry(count as int),
    {
        let ghost before = self@;
        let ghost all = eols(self.buf@);
        proof {
            lemma_eols(self.buf@);
        }
        while self.eols_back.len() < count
            invariant
                self.wf(),
                !self@.complete,
                self@.bytes == before.bytes,
                self@.forward == before.forward,
                all == eols(self.buf@),
                before == old(self)@,
                before.inv(),
                !before.complete,
                before.backward.len() <= self@.backward.len(),
                self@.backward.len() <= max_int(before.backward.len() as int, count as int),
            decreases count - self.eols_back.len(),
        {
            let f: usize = self.eols_forw.len();
            let b: usize = self.eols_back.len();
            let len: usize = self.buf.len();
            proof {
                lemma_eols(self.buf@);
                if f > 0 {
                    assert(self@.forward[f - 1] == all[f - 1]);
                }
            }
            let next: usize;
            if b == 0 {
                if len == 0 {
                    proof {
                        lemma_empty_has_no_line(self.buf@);
                        assert(self@.backward =~= before.scanned_backward(count as int).backward);
                    }
                    return true;
                }
                let last: usize = if self.buf[len - 1] == NEWLINE {
                    len - 1
                } else {
                    len
                };
                proof {
                    lemma_last_eol(self.buf@);
                    assert(all[all.len() - 1] == last);
                }
                if f > 0 && self.eols_forw[f - 1] >= last {
                    proof {
                        if f < all.len() {
                            assert(all[f - 1] < all[all.len() - 1]);
                        }
                        assert(self@.backward =~= before.scanned_backward(count as int).backward);
                    }
                    return true;
                }
                proof {
                    if f == all.len() {
                        assert(f > 0);
                    }
                }
                next = last;
            } else {
                let to: usize = self.eols_back[b - 1];
                proof {
                    assert(self@.backward[b - 1] == all[all.len() - b]);
                    if f > 0 {
                        assert(all[f - 1] < all[all.len() - b]);
                    }
                }
                let from: usize = if f == 0 {
                    0
                } else {
                    self.eols_forw[f - 1] + 1
                };
                let to: usize = if to < len {
                    to
                } else {
                    len
                };
                let found = prev_newline(self.buf, from, to);
                match found {
                    Some(p) => {
                        proof {
                            assert(is_eol(self.buf@, p as int));
                            assert(no_eol_in(self.buf@, p + 1, all[all.len() - b]));
                            lemma_prev_eol(self.buf@, all.len() - b, p as int);
                            if f + b >= all.len() {
                                assert(f > 0);
                                assert(all[all.len() - b - 1] == all[f - 1]);
                            }
                        }
                        next = p;
                    },
                    None => {
                        proof {
                            assert(no_eol_in(self.buf@, from as int, all[all.len() - b]));
                            lemma_no_next_eol(self.buf@, f as int, all.len() - b);
                            assert(self@.backward =~= before.scanned_backward(
                                count as int,
                            ).backward);
                        }
                        return true;
                    },
                }
            }
            proof {
                lemma_offsets_push(self.eols_back@, next);
            }
            self.eols_back.push(next);
            proof {
                assert(self@.backward =~= last_eols(self.buf@, b + 1));
            }
        }
        proof {
            assert(self@.backward =~= before.scanned_backward(count as int).backward);
        }
        false
    }

    /// Completes an index that has found every boundary: the boundaries found
    /// from the end are moved, one by one and farthest from the end first,
    /// behind those found from the start.
    fn merge(&mut self)
        requires
            old(self).wf(),
            !old(self)@.complete,
            old(self)@.forward.len() + old(self)@.backward.len() == old(self)@.total(),
        ensures
            final(self).wf(),
            final(self)@ == IndexView::finished(old(self)@.bytes),
    {
        let ghost all = eols(self.buf@);
        while self.eols_back.len() > 0
            invariant
                self.wf(),
                !self@.complete,
                self@.bytes == old(self)@.bytes,
                all == eols(self.buf@),
                self@.forward.len() + self@.backward.len() == all.len(),
            decreases self.eols_back.len(),
        {
            let ghost f = self.eols_forw.len();
            let ghost b = self.eols_back.len();
            assert(self@.backward[b - 1] == all[f as int]);
            proof {
                lemma_offsets_drop_last(self.eols_back@);
            }
            let moved: usize = self.eols_back.pop().unwrap();
            proof {
                lemma_offsets_push(self.eols_forw@, moved);
            }
            self.eols_forw.push(moved);
            proof {
                assert(self@.forward =~= first_eols(self.buf@, f + 1));
                assert(self@.backward =~= last_eols(self.buf@, b - 1));
            }
        }
        self.full = true;
        proof {
            assert(self@.forward =~= all);
            assert(self@.backward =~= Seq::empty());
        }
    }

    /// The line of `buf` from `start` to `end`.
    fn line(buf: &'a [u8], start: usize, end: usize) -> (r: Line<'a>)
        requires
            start <= end <= buf@.len(),
        ensures
            r@ == decoded(buf@.subrange(start as int, end as int)),
    {
        let bytes = slice_subrange(buf, start, end);
        match text_of(bytes) {
            Some(s) => {
                proof {
                    encode_utf8_decode_utf8(s@);
                }
                Line::Text(s)
            },
            None => Line::Raw(bytes),
        }
    }

    /// The lines of `buf` that end at `ends[lo]`, ..., `ends[hi - 1]`. The
    /// first of them starts at `first_start`, each other one behind the
    /// boundary of the line before it.
    fn lines(buf: &'a [u8], first_start: usize, ends: &Vec<usize>, lo: usize, hi: usize) -> (r: Vec<
        Line<'a>,
    >)
        requires
            lo <= hi <= ends@.len(),
            lo < hi ==> first_start <= ends@[lo as int],
            forall|i: int| lo <= i < hi ==> ends@[i] <= buf@.len(),
            forall|i: int| lo < i < hi ==> ends@[i - 1] < #[trigger] ends@[i],
        ensures
            r@.len() == hi - lo,
            forall|i: int|
                0 <= i < hi - lo ==> (#[trigger] r@[i])@ == decoded(
                    buf@.subrange(
                        if i == 0 {
                            first_start as int
                        } else {
                            ends@[lo + i - 1] + 1
                        },
                        ends@[lo + i] as int,
                    ),
                ),
    {
        let mut out: Vec<Line<'a>> = Vec::new();
        let mut i: usize = lo;
        while i < hi
            invariant
                lo <= i <= hi <= ends@.len(),
                lo < hi ==> first_start <= ends@[lo as int],
                forall|k: int| lo <= k < hi ==> ends@[k] <= buf@.len(),
                forall|k: int| lo < k < hi ==> ends@[k - 1] < #[trigger] ends@[k],
                out@.len() == i - lo,
                forall|k: int|
                    0 <= k < i - lo ==> (#[trigger] out@[k])@ == decoded(
                        buf@.subrange(
                            if k == 0 {
                                first_start as int
                            } else {
                                ends@[lo + k - 1] + 1
                            },
                            ends@[lo + k] as int,
                        ),
                    ),
            decreases hi - i,
        {
            let end: usize = ends[i];
            let start: usize = if i == lo {
                first_start
            } else {
                ends[i - 1] + 1
            };
            out.push(Self::line(buf, start, end));
            i += 1;
        }
        out
    }

    /// Entry `i` of what was found from the start is boundary `i`.
    proof fn lemma_forward_entry(&self, i: int)
        requires
            self.wf(),
            0 <= i < self.eols_forw@.len(),
        ensures
            i < line_count(self.buf@),
            self.eols_forw@[i] == eols(self.buf@)[i],
    {
        assert(self@.forward[i] == first_eols(self.buf@, self.eols_forw@.len() as int)[i]);
    }

    /// Entry `j` of what was found from the end is the boundary `j` places
    /// before the last.
    proof fn lemma_backward_entry(&self, j: int)
        requires
            self.wf(),
            0 <= j < self.eols_back@.len(),
        ensures
            j < line_count(self.buf@),
            self.eols_back@[j] == eols(self.buf@)[line_count(self.buf@) - 1 - j],
    {
        assert(self@.backward[j] == last_eols(self.buf@, self.eols_back@.len() as int)[j]);
    }

    /// The offset at which the line behind the boundary `before` starts.
    fn start_behind(&self, before: usize) -> (start: usize)
        ensures
            start == if before < self@.bytes.len() {
                before + 1
            } else {
                self@.bytes.len() as int
            },
    {
        if before < self.buf.len() {
            before + 1
        } else {
            self.buf.len()
        }
    }

    /// Gives the lines of the window `range`, scanning no more of the
    /// buffer than the window needs. A window that reaches past the lines
    /// that exist is cut down to them; this is no failure. The index grows
    /// by what the read had to scan and loses nothing it held.
    pub fn read(&mut self, range: &LinesRange) -> (r: ReadLines<'a>)
        requires
            old(self).wf(),
            range.wf(),
        ensures
            final(self).wf(),
            final(self)@ == old(self)@.after_read(*range),
            final(self)@.bytes == old(self)@.bytes,
            old(self)@.forward.is_prefix_of(final(self)@.forward),
            old(self)@.known().subset_of(final(self)@.known()),
            r@ == old(self)@.answer(*range),
            r.range.wf(),
            r.lines@.len() == r.range.width(),
            r.range.width() <= range.width(),
    {
        proof {
            lemma_count(self.buf@);
            lemma_read_keeps_inv(self@, *range);
            lemma_read_keeps_boundaries(self@, *range);
        }
        let r = match range.sign {
            Sign::Pos => self.read_forw(&range.range),
            Sign::Neg => self.read_back(&range.range),
        };
        proof {
            assert(r.shown().len() == r.lines@.len());
        }
        r
    }

    /// Answers a start-anchored window.
    fn read_forw(&mut self, range: &Range<usize>) -> (r: ReadLines<'a>)
        requires
            old(self).wf(),
            ordered(*range),
        ensures
            final(self).wf(),
            final(self)@ == old(self)@.after_read(LinesRange::forward(*range)),
            r.range == old(self)@.materialized(LinesRange::forward(*range)),
            r.range.wf(),
            r.shown() == window_lines(old(self)@.bytes, LinesRange::forward(*range)),
            r.buf_range.start == window_span(old(self)@.bytes, LinesRange::forward(*range)).0,
            r.buf_range.end == window_span(old(self)@.bytes, LinesRange::forward(*range)).1,
    {
        if !self.full {
            if self.extend(range.end) {
                self.merge();
            }
        }
        let shown = limit(range, self.eols_forw.len());
        self.serve(&shown)
    }

    /// The lines of the start-anchored window `shown`, all of whose
    /// boundaries are known from the start.
    fn serve(&self, shown: &Range<usize>) -> (r: ReadLines<'a>)
        requires
            self.wf(),
            ordered(*shown),
            shown.end <= self@.forward.len(),
        ensures
            r.range == LinesRange::forward(*shown),
            r.shown() == lines_from(self@.bytes, shown.start as int, shown.end - shown.start),
            r.buf_range.start == span_from(
                self@.bytes,
                shown.start as int,
                shown.end - shown.start,
            ).0,
            r.buf_range.end == span_from(
                self@.bytes,
                shown.start as int,
                shown.end - shown.start,
            ).1,
    {
        let lo: usize = shown.start;
        let hi: usize = shown.end;
        proof {
            assert forall|i: int| 0 <= i < hi implies {
                &&& i < line_count(self.buf@)
                &&& #[trigger] self.eols_forw@[i] == line_end(self.buf@, i)
            } by {
                self.lemma_forward_entry(i);
            }
            assert forall|i: int| lo <= i < hi implies {
                &&& line_start(self.buf@, i) <= #[trigger] line_end(self.buf@, i) <= self.buf@.len()
                &&& i > 0 ==> line_start(self.buf@, i) == line_end(self.buf@, i - 1) + 1
            } by {
                lemma_line_span(self.buf@, i);
            }
        }
        let before: usize = if lo == 0 {
            BEFORE_FIRST_BYTE
        } else {
            self.eols_forw[lo - 1]
        };
        let first_byte: usize = if lo == 0 {
            0
        } else {
            self.start_behind(before)
        };
        let last: usize = if lo < hi {
            self.eols_forw[hi - 1]
        } else {
            before
        };
        let lines = Self::lines(self.buf, first_byte, &self.eols_forw, lo, hi);
        let r = ReadLines {
            range: LinesRange::pos(Range { start: lo, end: hi }),
            lines,
            buf_range: Range { start: before, end: last },
        };
        proof {
            assert forall|i: int| 0 <= i < hi - lo implies (#[trigger] r.lines@[i])@ == decoded(
                line_bytes(self.buf@, lo + i),
            ) by {
                assert(self.eols_forw@[lo + i] == line_end(self.buf@, lo + i));
            }
            assert(r.shown() =~= lines_from(self.buf@, lo as int, hi - lo));
        }
        r
    }

    /// Answers an end-anchored window.
    fn read_back(&mut self, range: &Range<usize>) -> (r: ReadLines<'a>)
        requires
            old(self).wf(),
            ordered(*range),
        ensures
            final(self).wf(),
            final(self)@ == old(self)@.after_read(LinesRange::backward(*range)),
            r.range == old(self)@.materialized(LinesRange::backward(*range)),
            r.range.wf(),
            r.shown() == window_lines(old(self)@.bytes, LinesRange::backward(*range)),
            r.buf_range.start == window_span(old(self)@.bytes, LinesRange::backward(*range)).0,
            r.buf_range.end == window_span(old(self)@.bytes, LinesRange::backward(*range)).1,
    {
        proof {
            lemma_count(self.buf@);
        }
        if !self.full {
            let dry: bool = if range.end < usize::MAX {
                self.extend_back(range.end + 1)
            } else {
                // no buffer holds that many boundaries: the scan takes all
                // that are left
                let _all_left: bool = self.extend_back(range.end);
                true
            };
            if dry {
                self.merge();
            }
        }
        if self.full {
            let turned = inverted(range, self.eols_forw.len());
            self.serve(&turned)
        } else {
            self.serve_back(range)
        }
    }

    /// The lines of the end-anchored window `shown`, all of whose boundaries
    /// are known from the end, and the one before them too.
    fn serve_back(&self, shown: &Range<usize>) -> (r: ReadLines<'a>)
        requires
            self.wf(),
            ordered(*shown),
            shown.end < self@.backward.len(),
        ensures
            r.range == LinesRange::backward(*shown),
            r.shown() == lines_from(
                self@.bytes,
                self@.total() - shown.end,
                shown.end - shown.start,
            ),
            r.buf_range.start == span_from(
                self@.bytes,
                self@.total() - shown.end,
                shown.end - shown.start,
            ).0,
            r.buf_range.end == span_from(
                self@.bytes,
                self@.total() - shown.end,
                shown.end - shown.start,
            ).1,
    {
        let lo: usize = shown.start;
        let hi: usize = shown.end;
        let ghost first = line_count(self.buf@) - hi;
        proof {
            assert forall|j: int| 0 <= j <= hi implies {
                &&& j < line_count(self.buf@)
                &&& #[trigger] self.eols_back@[j] == line_end(
                    self.buf@,
                    line_count(self.buf@) - 1 - j,
                )
            } by {
                self.lemma_backward_entry(j);
            }
            assert forall|i: int| first <= i < first + hi - lo implies {
                &&& line_start(self.buf@, i) <= #[trigger] line_end(self.buf@, i) <= self.buf@.len()
                &&& line_start(self.buf@, i) == line_end(self.buf@, i - 1) + 1
            } by {
                lemma_line_span(self.buf@, i);
            }
            assert(self.eols_back@[hi as int] == line_end(self.buf@, first - 1));
        }
        let before: usize = self.eols_back[hi];
        let first_byte: usize = self.start_behind(before);
        let mut requested: Vec<usize> = Vec::new();
        let mut j: usize = hi;
        while j > lo
            invariant
                lo <= j <= hi < self.eols_back@.len(),
                requested@.len() == hi - j,
                forall|k: int|
                    0 <= k < hi - j ==> #[trigger] requested@[k] == self.eols_back@[hi - 1 - k],
            decreases j,
        {
            j -= 1;
            requested.push(self.eols_back[j]);
        }
        let last: usize = if lo < hi {
            self.eols_back[lo]
        } else {
            before
        };
        proof {
            assert forall|k: int| 0 <= k < hi - lo implies #[trigger] requested@[k] == line_end(
                self.buf@,
                first + k,
            ) by {
                assert(requested@[k] == self.eols_back@[hi - 1 - k]);
            }
            assert forall|k: int| 0 < k < hi - lo implies requested@[k - 1]
                < #[trigger] requested@[k] by {
                assert(requested@[k - 1] == line_end(self.buf@, first + k - 1));
                assert(line_start(self.buf@, first + k) <= line_end(self.buf@, first + k));
            }
            if lo < hi {
                assert(line_start(self.buf@, first) <= line_end(self.buf@, first));
            }
        }
        let lines = Self::lines(self.buf, first_byte, &requested, 0, requested.len());
        let r = ReadLines {
            range: LinesRange::neg(Range { start: lo, end: hi }),
            lines,
            buf_range: Range { start: before, end: last },
        };
        proof {
            assert forall|i: int| 0 <= i < hi - lo implies (#[trigger] r.lines@[i])@ == decoded(
                line_bytes(self.buf@, first + i),
            ) by {
                assert(requested@[i] == line_end(self.buf@, first + i));
                assert(line_start(self.buf@, first + i) <= line_end(self.buf@, first + i));
                if i > 0 {
                    assert(requested@[i - 1] == line_end(self.buf@, first + i - 1));
                }
            }
            assert(r.shown() =~= lines_from(self.buf@, first, hi - lo));
        }
        r
    }
}

} // verus!
