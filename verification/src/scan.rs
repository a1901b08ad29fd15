//! Finding newline bytes in a part of a buffer.

use crate::text::NEWLINE;
use vstd::prelude::*;
use vstd::slice::slice_subrange;

verus! {

/// `found` is the index of the first byte of `haystack` that equals `needle`,
/// or `None` where no byte does.
pub open spec fn is_first_match(haystack: Seq<u8>, needle: u8, found: Option<usize>) -> bool {
    match found {
        Some(i) => {
            &&& i < haystack.len()
            &&& haystack[i as int] == needle
            &&& forall|j: int| 0 <= j < i ==> haystack[j] != needle
        },
        None => forall|j: int| 0 <= j < haystack.len() ==> haystack[j] != needle,
    }
}

/// `found` is the index of the last byte of `haystack` that equals `needle`,
/// or `None` where no byte does.
pub open spec fn is_last_match(haystack: Seq<u8>, needle: u8, found: Option<usize>) -> bool {
    match found {
        Some(i) => {
            &&& i < haystack.len()
            &&& haystack[i as int] == needle
            &&& forall|j: int| i < j < haystack.len() ==> haystack[j] != needle
        },
        None => forall|j: int| 0 <= j < haystack.len() ==> haystack[j] != needle,
    }
}

/// `memchr::memchr` searches a slice for the first occurrence of a byte. It
/// is taken at its documentation: the index returned is that of the first
/// byte equal to `needle`, and `None` is returned only where there is none.
pub assume_specification[ memchr::memchr ](needle: u8, haystack: &[u8]) -> (found: Option<usize>)
    ensures
        is_first_match(haystack@, needle, found),
;

/// `memchr::memrchr` searches a slice for the last occurrence of a byte. It
/// is taken at its documentation: the index returned is that of the last
/// byte equal to `needle`, and `None` is returned only where there is none.
pub assume_specification[ memchr::memrchr ](needle: u8, haystack: &[u8]) -> (found: Option<usize>)
    ensures
        is_last_match(haystack@, needle, found),
;

/// `found` is the offset of the first newline of `buf` in `[from, to)`, or
/// `None` where that part holds no newline.
pub open spec fn is_next_newline(buf: Seq<u8>, from: int, to: int, found: Option<usize>) -> bool {
    match found {
        Some(p) => {
            &&& from <= p < to
            &&& buf[p as int] == NEWLINE
            &&& forall|q: int| from <= q < p ==> buf[q] != NEWLINE
        },
        None => forall|q: int| from <= q < to ==> buf[q] != NEWLINE,
    }
}

/// `found` is the offset of the last newline of `buf` in `[from, to)`, or
/// `None` where that part holds no newline.
pub open spec fn is_prev_newline(buf: Seq<u8>, from: int, to: int, found: Option<usize>) -> bool {
    match found {
        Some(p) => {
            &&& from <= p < to
            &&& buf[p as int] == NEWLINE
            &&& forall|q: int| p < q < to ==> buf[q] != NEWLINE
        },
        None => forall|q: int| from <= q < to ==> buf[q] != NEWLINE,
    }
}

/// The offset in `buf` of the first newline at or after `from` and below
/// `to`.
pub fn next_newline(buf: &[u8], from: usize, to: usize) -> (found: Option<usize>)
    requires
        from <= to <= buf@.len(),
    ensures
        is_next_newline(buf@, from as int, to as int, found),
{
    let part = slice_subrange(buf, from, to);
    match memchr::memchr(NEWLINE, part) {
        Some(i) => {
            assert(forall|q: int| from <= q < from + i ==> buf@[q] == part@[q - from]);
            Some(from + i)
        },
        None => {
            assert(forall|q: int| from <= q < to ==> buf@[q] == part@[q - from]);
            None
        },
    }
}

/// The offset in `buf` of the last newline at or after `from` and below `to`.
pub fn prev_newline(buf: &[u8], from: usize, to: usize) -> (found: Option<usize>)
    requires
        from <= to <= buf@.len(),
    ensures
        is_prev_newline(buf@, from as int, to as int, found),
{
    let part = slice_subrange(buf, from, to);
    match memchr::memrchr(NEWLINE, part) {
        Some(i) => {
            assert(forall|q: int| from + i < q < to ==> buf@[q] == part@[q - from]);
            Some(from + i)
        },
        None => {
            assert(forall|q: int| from <= q < to ==> buf@[q] == part@[q - from]);
            None
        },
    }
}

} // verus!
