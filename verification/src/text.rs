//! The lines of a byte buffer, as mathematics.
//!
//! A line is ended either by a newline byte or, for a last line that has no
//! newline, by the end of the buffer. The offsets at which lines end are the
//! buffer's boundaries; the position before the first byte is an implied
//! boundary that no sequence here holds, and that is written
//! `BEFORE_FIRST_BYTE` where a number is asked for. Line `n` lies strictly
//! between boundary `n - 1` and boundary `n`. A trailing newline ends the last line
//! and starts no further one, and an empty buffer has no line.

use vstd::prelude::*;

verus! {

/// The byte that ends a line.
pub const NEWLINE: u8 = 10;

/// A line ends at offset `p`: a newline stands there, or `p` is the end of a
/// buffer whose last byte is not a newline.
pub open spec fn is_eol(buf: Seq<u8>, p: int) -> bool {
    ||| 0 <= p < buf.len() && buf[p] == NEWLINE
    ||| p == buf.len() && p > 0 && buf[p - 1] != NEWLINE
}

/// The boundaries at offsets below `n`, in ascending order.
pub open spec fn eols_below(buf: Seq<u8>, n: int) -> Seq<int>
    decreases n,
{
    if n <= 0 {
        Seq::empty()
    } else if is_eol(buf, n - 1) {
        eols_below(buf, n - 1).push(n - 1)
    } else {
        eols_below(buf, n - 1)
    }
}

/// All boundaries of the buffer, in ascending order.
pub open spec fn eols(buf: Seq<u8>) -> Seq<int> {
    eols_below(buf, buf.len() as int + 1)
}

/// The number of lines in the buffer.
pub open spec fn line_count(buf: Seq<u8>) -> int {
    eols(buf).len() as int
}

/// The offset at which line `n` starts. For `n == line_count(buf)` this is
/// the end of the buffer.
pub open spec fn line_start(buf: Seq<u8>, n: int) -> int {
    if n <= 0 {
        0
    } else if eols(buf)[n - 1] < buf.len() {
        eols(buf)[n - 1] + 1
    } else {
        buf.len() as int
    }
}

/// The number that stands for the boundary before the first byte. That
/// boundary is no offset of the buffer; it is written as the largest
/// `usize`, which no boundary within a buffer is taken for.
pub const BEFORE_FIRST_BYTE: usize = usize::MAX;

/// The boundary before line `n`: the boundary of line `n - 1`, and for the
/// first line the boundary before the first byte, written
/// `BEFORE_FIRST_BYTE`.
pub open spec fn boundary_before(buf: Seq<u8>, n: int) -> int {
    if n <= 0 {
        BEFORE_FIRST_BYTE as int
    } else {
        eols(buf)[n - 1]
    }
}

/// The offset at which line `n` ends: its boundary.
pub open spec fn line_end(buf: Seq<u8>, n: int) -> int {
    eols(buf)[n]
}

/// The bytes of line `n`, without the newline that ends it.
pub open spec fn line_bytes(buf: Seq<u8>, n: int) -> Seq<u8> {
    buf.subrange(line_start(buf, n), line_end(buf, n))
}

/// `s` is strictly increasing.
pub open spec fn ascending(s: Seq<int>) -> bool {
    forall|i: int, j: int| 0 <= i < j < s.len() ==> s[i] < s[j]
}

/// No line ends at an offset in `[from, to)`.
pub open spec fn no_eol_in(buf: Seq<u8>, from: int, to: int) -> bool {
    forall|p: int| from <= p < to ==> !is_eol(buf, p)
}

/// The boundaries below `n` are strictly increasing, each is an offset below
/// `n` at which a line ends, and none of these is missing.
pub proof fn lemma_eols_below(buf: Seq<u8>, n: int)
    ensures
        ascending(eols_below(buf, n)),
        forall|i: int|
            0 <= i < eols_below(buf, n).len() ==> 0 <= #[trigger] eols_below(buf, n)[i] < n
                && is_eol(buf, eols_below(buf, n)[i]),
        forall|p: int|
            0 <= p < n && is_eol(buf, p) ==> #[trigger] eols_below(buf, n).contains(p),
    decreases n,
{
    if n > 0 {
        lemma_eols_below(buf, n - 1);
        let prev = eols_below(buf, n - 1);
        let cur = eols_below(buf, n);
        if is_eol(buf, n - 1) {
            assert(cur[prev.len() as int] == n - 1);
            assert forall|p: int| 0 <= p < n && is_eol(buf, p) implies cur.contains(p) by {
                if p < n - 1 {
                    assert(prev.contains(p));
                    let k = choose|k: int| 0 <= k < prev.len() && prev[k] == p;
                    assert(cur[k] == p);
                } else {
                    assert(cur[prev.len() as int] == p);
                }
            }
        }
    }
}

/// The facts of `lemma_eols_below` for the whole buffer.
pub proof fn lemma_eols(buf: Seq<u8>)
    ensures
        ascending(eols(buf)),
        forall|i: int|
            0 <= i < eols(buf).len() ==> 0 <= #[trigger] eols(buf)[i] <= buf.len() && is_eol(
                buf,
                eols(buf)[i],
            ),
        forall|p: int| is_eol(buf, p) ==> #[trigger] eols(buf).contains(p),
        line_count(buf) <= buf.len(),
{
    lemma_eols_below(buf, buf.len() as int + 1);
    lemma_count_below(buf, buf.len() as int + 1);
}

/// There are at most as many boundaries below `n` as there are bytes in the
/// buffer: the end of the buffer is a boundary only where the last byte is
/// none.
proof fn lemma_count_below(buf: Seq<u8>, n: int)
    ensures
        n <= buf.len() ==> eols_below(buf, n).len() <= if n <= 0 {
            0
        } else {
            n
        },
        n == buf.len() + 1 ==> eols_below(buf, n).len() <= buf.len(),
    decreases n,
{
    if n > 0 {
        lemma_count_below(buf, n - 1);
        if n == buf.len() + 1 && is_eol(buf, n - 1) {
            // the last byte is no boundary, so the boundaries below it are all
            assert(!is_eol(buf, n - 2));
            lemma_count_below(buf, n - 2);
        }
    }
}

/// The first boundary at or after the start of line `k` is boundary `k`.
pub proof fn lemma_next_eol(buf: Seq<u8>, k: int, p: int)
    requires
        0 <= k <= line_count(buf),
        is_eol(buf, p),
        k > 0 ==> eols(buf)[k - 1] < p,
        no_eol_in(buf, if k > 0 { eols(buf)[k - 1] + 1 } else { 0 }, p),
    ensures
        k < line_count(buf),
        eols(buf)[k] == p,
{
    lemma_eols(buf);
    let all = eols(buf);
    assert(all.contains(p));
    let i = choose|i: int| 0 <= i < all.len() && all[i] == p;
    if i < k {
        assert(k > 0);
        if i < k - 1 {
            assert(all[i] < all[k - 1]);
        }
    } else if i > k {
        assert(all[k] < all[i]);
        assert(is_eol(buf, all[k]));
        if k > 0 {
            assert(all[k - 1] < all[k]);
        }
    }
}

/// Where no line ends at or after the start of line `k`, below boundary
/// `k + gap` or the end of the buffer, there is no line `k`, or it is the
/// one that boundary `k + gap` ends.
pub proof fn lemma_no_next_eol(buf: Seq<u8>, k: int, upto: int)
    requires
        0 <= k <= upto <= line_count(buf),
        no_eol_in(
            buf,
            if k > 0 { eols(buf)[k - 1] + 1 } else { 0 },
            if upto < line_count(buf) { eols(buf)[upto] } else { buf.len() as int + 1 },
        ),
    ensures
        k == upto,
{
    lemma_eols(buf);
    let all = eols(buf);
    if k < upto {
        assert(is_eol(buf, all[k]));
        if k > 0 {
            assert(all[k - 1] < all[k]);
        }
        if upto < all.len() {
            assert(all[k] < all[upto]);
        }
    }
}

/// The last boundary below boundary `k` is boundary `k - 1`.
pub proof fn lemma_prev_eol(buf: Seq<u8>, k: int, p: int)
    requires
        0 <= k < line_count(buf),
        is_eol(buf, p),
        p < eols(buf)[k],
        no_eol_in(buf, p + 1, eols(buf)[k]),
    ensures
        k > 0,
        eols(buf)[k - 1] == p,
{
    lemma_eols(buf);
    let all = eols(buf);
    assert(all.contains(p));
    let i = choose|i: int| 0 <= i < all.len() && all[i] == p;
    if i >= k {
        if i > k {
            assert(all[k] < all[i]);
        }
    } else if i < k - 1 {
        assert(all[i] < all[k - 1]);
        assert(all[k - 1] < all[k]);
        assert(is_eol(buf, all[k - 1]));
    }
}

/// The last boundary of a buffer that is not empty is its last byte where
/// that is a newline, and its end where it is not.
pub proof fn lemma_last_eol(buf: Seq<u8>)
    requires
        buf.len() > 0,
    ensures
        line_count(buf) > 0,
        eols(buf).last() == if buf[buf.len() - 1] == NEWLINE {
            buf.len() - 1
        } else {
            buf.len() as int
        },
{
    lemma_eols(buf);
    let all = eols(buf);
    let p = if buf[buf.len() - 1] == NEWLINE {
        buf.len() - 1
    } else {
        buf.len() as int
    };
    assert(is_eol(buf, p));
    assert(all.contains(p));
    let i = choose|i: int| 0 <= i < all.len() && all[i] == p;
    if i < all.len() - 1 {
        assert(all[i] < all[all.len() - 1]);
        assert(is_eol(buf, all[all.len() - 1]));
    }
}

/// A buffer has at most as many lines as bytes.
pub proof fn lemma_count(buf: Seq<u8>)
    ensures
        0 <= line_count(buf) <= buf.len(),
{
    lemma_count_below(buf, buf.len() as int + 1);
}

/// An empty buffer has no line.
pub proof fn lemma_empty_has_no_line(buf: Seq<u8>)
    requires
        buf.len() == 0,
    ensures
        line_count(buf) == 0,
{
    lemma_eols(buf);
}

/// Each line lies within the buffer, and the lines follow one another in
/// the order of their numbers.
pub proof fn lemma_line_span(buf: Seq<u8>, n: int)
    requires
        0 <= n < line_count(buf),
    ensures
        0 <= line_start(buf, n) <= line_end(buf, n) <= buf.len(),
        n > 0 ==> line_start(buf, n) == line_end(buf, n - 1) + 1,
        forall|p: int| line_start(buf, n) <= p < line_end(buf, n) ==> buf[p] != NEWLINE,
{
    lemma_eols(buf);
    let all = eols(buf);
    assert(is_eol(buf, all[n]));
    if n > 0 {
        assert(all[n - 1] < all[n]);
        assert(is_eol(buf, all[n - 1]));
    }
    assert forall|p: int| line_start(buf, n) <= p < line_end(buf, n) implies buf[p]
        != NEWLINE by {
        if buf[p] == NEWLINE {
            assert(is_eol(buf, p));
            assert(all.contains(p));
            let i = choose|i: int| 0 <= i < all.len() && all[i] == p;
            if i < n {
                if i < n - 1 {
                    assert(all[i] < all[n - 1]);
                }
            } else if i > n {
                assert(all[n] < all[i]);
            }
        }
    }
}

/// The boundaries below `m` are the first of the boundaries below `n`,
/// for `m <= n`.
proof fn lemma_eols_below_prefix(buf: Seq<u8>, m: int, n: int)
    requires
        m <= n,
    ensures
        eols_below(buf, m).len() <= eols_below(buf, n).len(),
        eols_below(buf, m) == eols_below(buf, n).take(eols_below(buf, m).len() as int),
    decreases n - m,
{
    if m < n {
        lemma_eols_below_prefix(buf, m, n - 1);
        assert(eols_below(buf, m) =~= eols_below(buf, n).take(eols_below(buf, m).len() as int));
    } else {
        assert(eols_below(buf, m) =~= eols_below(buf, n).take(eols_below(buf, m).len() as int));
    }
}

/// The lines cover the buffer: every byte that is not a newline lies in a
/// line. With `lemma_line_span`, which keeps the newlines out of the lines
/// and the lines apart, each such byte lies in exactly one line.
pub proof fn lemma_byte_in_line(buf: Seq<u8>, p: int) -> (n: int)
    requires
        0 <= p < buf.len(),
        buf[p] != NEWLINE,
    ensures
        0 <= n < line_count(buf),
        line_start(buf, n) <= p < line_end(buf, n),
{
    let all = eols(buf);
    let below = eols_below(buf, p);
    let n = below.len() as int;
    lemma_eols(buf);
    lemma_eols_below(buf, p);
    lemma_eols_below_prefix(buf, p, buf.len() as int + 1);
    // a line ends behind `p`: at the last byte, or at the end of the buffer
    let q = if buf[buf.len() - 1] == NEWLINE {
        buf.len() - 1
    } else {
        buf.len() as int
    };
    assert(is_eol(buf, q) && p < q);
    assert(all.contains(q));
    let i = choose|i: int| 0 <= i < all.len() && all[i] == q;
    if i < n {
        assert(below[i] == all[i]);
    }
    // boundary `n` lies behind `p`, for it is none of those below `p`
    if all[n] <= p {
        assert(is_eol(buf, all[n]));
        assert(below.contains(all[n]));
        let k = choose|k: int| 0 <= k < below.len() && below[k] == all[n];
        assert(all[k] == below[k]);
        if k < n {
            assert(all[k] < all[n]);
        }
    }
    if n > 0 {
        assert(all[n - 1] == below[n - 1]);
    }
    n
}

} // verus!
