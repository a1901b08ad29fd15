//! What holds of every read of a line index, whatever was read before.

use crate::line_range::{LinesRange, Sign};
use crate::line_reader::{
    first_eols, last_eols, window_first, window_len, window_lines, window_span, IndexView,
};
use crate::text::{ascending, eols, lemma_count, lemma_eols, line_count};
use vstd::prelude::*;

verus! {

/// The index after the reads of `ranges`, one after the other.
pub open spec fn after_reads(v: IndexView, ranges: Seq<LinesRange>) -> IndexView
    decreases ranges.len(),
{
    if ranges.len() == 0 {
        v
    } else {
        after_reads(v, ranges.drop_last()).after_read(ranges.last())
    }
}

/// Every window in `ranges` has `lo <= hi`.
pub open spec fn all_wf(ranges: Seq<LinesRange>) -> bool {
    forall|i: int| 0 <= i < ranges.len() ==> (#[trigger] ranges[i]).wf()
}

/// A read keeps the invariant of the index and the buffer it indexes.
pub proof fn lemma_read_keeps_inv(v: IndexView, range: LinesRange)
    requires
        v.inv(),
        range.wf(),
    ensures
        v.after_read(range).inv(),
        v.after_read(range).bytes == v.bytes,
{
    lemma_count(v.bytes);
    let w = v.after_read(range);
    assert(w.forward =~= first_eols(w.bytes, w.forward.len() as int));
    assert(w.backward =~= last_eols(w.bytes, w.backward.len() as int));
}

/// Direction symmetry: on a complete index, a start-anchored window and the
/// end-anchored window of the same lines are filled alike, with the same
/// lines in the same order from the same part of the buffer.
pub proof fn lemma_direction_symmetry(v: IndexView, fwd: LinesRange, bwd: LinesRange)
    requires
        v.inv(),
        v.complete,
        fwd.wf(),
        fwd.sign == Sign::Pos,
        bwd.sign == Sign::Neg,
        fwd.range.end <= v.total(),
        bwd.range.start == v.total() - fwd.range.end,
        bwd.range.end == v.total() - fwd.range.start,
    ensures
        v.answer(bwd) == v.answer(fwd),
        v.answer(fwd).range == fwd,
        v.after_read(bwd) == v.after_read(fwd),
{
    assert(window_first(v.bytes, bwd) == window_first(v.bytes, fwd));
    assert(window_len(v.bytes, bwd) == window_len(v.bytes, fwd));
}

/// The lines of a window and the part of the buffer they come from depend
/// on the buffer and the window alone, so they are the same on an index
/// that is complete and on one that is not: two windows of the same lines,
/// one from each end, show the same lines.
pub proof fn lemma_same_lines_from_either_end(buf: Seq<u8>, fwd: LinesRange, bwd: LinesRange)
    requires
        fwd.wf(),
        fwd.sign == Sign::Pos,
        bwd.sign == Sign::Neg,
        fwd.range.end <= line_count(buf),
        bwd.range.start == line_count(buf) - fwd.range.end,
        bwd.range.end == line_count(buf) - fwd.range.start,
    ensures
        window_lines(buf, bwd) == window_lines(buf, fwd),
        window_span(buf, bwd) == window_span(buf, fwd),
{
    assert(window_first(buf, bwd) == window_first(buf, fwd));
    assert(window_len(buf, bwd) == window_len(buf, fwd));
}

/// Idempotence: a second read of the same window changes nothing in the
/// index, and fills the same window with the same lines from the same part
/// of the buffer as the first.
pub proof fn lemma_read_idempotent(v: IndexView, range: LinesRange)
    requires
        v.inv(),
        range.wf(),
    ensures
        v.after_read(range).after_read(range) == v.after_read(range),
        v.after_read(range).answer(range) == v.answer(range),
{
    lemma_count(v.bytes);
    lemma_read_keeps_inv(v, range);
    let w = v.after_read(range);
    assert(w.after_read(range).forward =~= w.forward);
    assert(w.after_read(range).backward =~= w.backward);
}

/// Monotonic growth, one read: the boundaries that the index held before a
/// read it holds after it, at the places they had. Where the read completes
/// the index, each boundary found from the end is then found from the
/// start, at its place counted from the end. No boundary is held twice.
pub proof fn lemma_read_keeps_boundaries(v: IndexView, range: LinesRange)
    requires
        v.inv(),
        range.wf(),
    ensures
        v.forward.is_prefix_of(v.after_read(range).forward),
        !v.after_read(range).complete ==> v.backward.is_prefix_of(v.after_read(range).backward),
        v.after_read(range).complete ==> forall|j: int|
            0 <= j < v.backward.len() ==> v.after_read(range).forward[v.total() - 1 - j]
                == #[trigger] v.backward[j],
        v.known().subset_of(v.after_read(range).known()),
        held_once(v.after_read(range)),
{
    lemma_count(v.bytes);
    lemma_read_keeps_inv(v, range);
    let w = v.after_read(range);
    assert(v.forward =~= w.forward.take(v.forward.len() as int));
    if !w.complete {
        assert(v.backward =~= w.backward.take(v.backward.len() as int));
    }
    assert forall|x: int| v.known().contains(x) implies w.known().contains(x) by {
        if v.forward.to_set().contains(x) {
            let i = choose|i: int| 0 <= i < v.forward.len() && v.forward[i] == x;
            assert(w.forward[i] == x);
        } else {
            let j = choose|j: int| 0 <= j < v.backward.len() && v.backward[j] == x;
            if w.complete {
                assert(w.forward[v.total() - 1 - j] == x);
            } else {
                assert(w.backward[j] == x);
            }
        }
    }
    lemma_held_once(w);
}

/// No boundary is held twice: what was found from the start is strictly
/// increasing, what was found from the end is strictly decreasing, and
/// everything found from the start lies below everything found from the
/// end.
pub open spec fn held_once(v: IndexView) -> bool {
    &&& ascending(v.forward)
    &&& ascending(v.backward.reverse())
    &&& forall|i: int, j: int|
        0 <= i < v.forward.len() && 0 <= j < v.backward.len() ==> #[trigger] v.forward[i]
            < #[trigger] v.backward[j]
}

/// An index that meets its invariant holds no boundary twice.
pub proof fn lemma_held_once(v: IndexView)
    requires
        v.inv(),
    ensures
        held_once(v),
{
    lemma_eols(v.bytes);
    let all = eols(v.bytes);
    let total = line_count(v.bytes);
    assert forall|i: int, j: int| 0 <= i < j < v.forward.len() implies v.forward[i]
        < v.forward[j] by {
        assert(v.forward[i] == all[i] && v.forward[j] == all[j]);
    }
    let back = v.backward.reverse();
    assert forall|i: int, j: int| 0 <= i < j < back.len() implies back[i] < back[j] by {
        assert(back[i] == v.backward[back.len() - 1 - i]);
        assert(back[j] == v.backward[back.len() - 1 - j]);
        assert(all[total - back.len() + i] < all[total - back.len() + j]);
    }
    assert forall|i: int, j: int|
        0 <= i < v.forward.len() && 0 <= j < v.backward.len() implies #[trigger] v.forward[i]
        < #[trigger] v.backward[j] by {
        assert(v.forward[i] == all[i]);
        assert(v.backward[j] == all[total - 1 - j]);
        assert(all[i] < all[total - 1 - j]);
    }
}

/// Monotonic growth, any number of reads: the index keeps its invariant and
/// its buffer, what it had found from the start stays where it was, every
/// boundary it held it still holds, and it holds none twice.
pub proof fn lemma_reads_keep_boundaries(v: IndexView, ranges: Seq<LinesRange>)
    requires
        v.inv(),
        all_wf(ranges),
    ensures
        after_reads(v, ranges).inv(),
        after_reads(v, ranges).bytes == v.bytes,
        v.forward.is_prefix_of(after_reads(v, ranges).forward),
        v.known().subset_of(after_reads(v, ranges).known()),
        v.complete ==> after_reads(v, ranges) == v,
        held_once(after_reads(v, ranges)),
    decreases ranges.len(),
{
    if ranges.len() == 0 {
        assert(v.forward =~= v.forward.take(v.forward.len() as int));
        lemma_held_once(v);
    } else {
        let before = after_reads(v, ranges.drop_last());
        assert(all_wf(ranges.drop_last())) by {
            assert forall|i: int| 0 <= i < ranges.drop_last().len() implies (
            #[trigger] ranges.drop_last()[i]).wf() by {
                assert(ranges[i].wf());
            }
        }
        lemma_reads_keep_boundaries(v, ranges.drop_last());
        assert(ranges.last().wf());
        lemma_read_keeps_inv(before, ranges.last());
        lemma_read_keeps_boundaries(before, ranges.last());
        let after = before.after_read(ranges.last());
        assert(v.forward =~= after.forward.take(v.forward.len() as int)) by {
            assert(v.forward =~= before.forward.take(v.forward.len() as int));
            assert(before.forward =~= after.forward.take(before.forward.len() as int));
        }
    }
}

/// The lines a window shows do not depend on what was read before: after
/// any reads, a read of `range` shows the lines it would have shown at
/// first.
pub proof fn lemma_lines_stay(v: IndexView, ranges: Seq<LinesRange>, range: LinesRange)
    requires
        v.inv(),
        all_wf(ranges),
        range.wf(),
    ensures
        window_lines(after_reads(v, ranges).bytes, range) == window_lines(v.bytes, range),
        window_span(after_reads(v, ranges).bytes, range) == window_span(v.bytes, range),
{
    lemma_reads_keep_boundaries(v, ranges);
}

} // verus!
