//! Byte-wise, case-sensitive substring search, and cutting a text at the
//! byte offsets that a search gives.

use vstd::prelude::*;
use vstd::utf8::{
    encode_utf8, encode_utf8_valid_utf8, is_char_boundary,
    is_char_boundary_iff_not_is_continuation_byte, is_char_boundary_start_end_of_seq,
    length_of_first_scalar, pop_first_scalar, valid_utf8, valid_utf8_split,
};

verus! {

/// `needle` stands in `hay` at byte offset `at`.
pub open spec fn occurs_at(hay: Seq<u8>, needle: Seq<u8>, at: int) -> bool {
    &&& 0 <= at
    &&& at + needle.len() <= hay.len()
    &&& hay.subrange(at, at + needle.len()) == needle
}

/// No occurrence of `needle` in `hay` starts at an offset in `[from, to)`.
pub open spec fn absent_between(hay: Seq<u8>, needle: Seq<u8>, from: int, to: int) -> bool {
    forall|k: int| from <= k < to ==> !occurs_at(hay, needle, k)
}

/// No occurrence of `needle` in `hay` starts at `from` or later.
pub open spec fn absent_from(hay: Seq<u8>, needle: Seq<u8>, from: int) -> bool {
    forall|k: int| from <= k ==> !occurs_at(hay, needle, k)
}

/// `needle` is a substring of `hay`.
pub open spec fn contains(hay: Seq<u8>, needle: Seq<u8>) -> bool {
    exists|at: int| occurs_at(hay, needle, at)
}

/// Tells whether `needle` stands in `hay` at offset `at`.
pub fn matches_at(hay: &[u8], needle: &[u8], at: usize) -> (found: bool)
    ensures
        found == occurs_at(hay@, needle@, at as int),
{
    let n: usize = needle.len();
    if n > hay.len() || at > hay.len() - n {
        return false;
    }
    let mut k: usize = 0;
    while k < n
        invariant
            n == needle@.len(),
            at + n <= hay@.len() <= usize::MAX,
            k <= n,
            forall|j: int| 0 <= j < k ==> hay@[at + j] == needle@[j],
        decreases n - k,
    {
        if hay[at + k] != needle[k] {
            proof {
                let window = hay@.subrange(at as int, at + n);
                assert(window[k as int] == hay@[at + k]);
            }
            return false;
        }
        k += 1;
    }
    proof {
        assert(hay@.subrange(at as int, at + n) =~= needle@);
    }
    true
}

/// The first offset at or after `from` at which `needle` stands in `hay`.
pub fn find_from(hay: &[u8], needle: &[u8], from: usize) -> (found: Option<usize>)
    ensures
        match found {
            Some(at) => {
                &&& from <= at
                &&& occurs_at(hay@, needle@, at as int)
                &&& absent_between(hay@, needle@, from as int, at as int)
            },
            None => absent_from(hay@, needle@, from as int),
        },
{
    let n: usize = needle.len();
    if n > hay.len() || from > hay.len() - n {
        return None;
    }
    let last: usize = hay.len() - n;
    let mut at: usize = from;
    loop
        invariant
            n == needle@.len(),
            last + n == hay@.len(),
            from <= at <= last,
            absent_between(hay@, needle@, from as int, at as int),
        decreases last - at,
    {
        if matches_at(hay, needle, at) {
            return Some(at);
        }
        if at == last {
            return None;
        }
        at += 1;
    }
}

/// Tells whether `needle` is a substring of `hay`.
pub fn contains_bytes(hay: &[u8], needle: &[u8]) -> (found: bool)
    ensures
        found == contains(hay@, needle@),
{
    match find_from(hay, needle, 0) {
        Some(_) => true,
        None => false,
    }
}

/// A text that is the start of another ends where a character of the other
/// ends.
pub proof fn lemma_prefix_ends_on_boundary(whole: Seq<u8>, part: Seq<u8>)
    requires
        valid_utf8(whole),
        valid_utf8(part),
        part.len() <= whole.len(),
        whole.subrange(0, part.len() as int) == part,
    ensures
        is_char_boundary(whole, part.len() as int),
    decreases part.len(),
{
    if part.len() > 0 {
        assert(whole[0] == whole.subrange(0, part.len() as int)[0]);
        let width = length_of_first_scalar(part);
        assert(width == length_of_first_scalar(whole));
        assert(width <= part.len());
        let rest_of_whole = pop_first_scalar(whole);
        let rest_of_part = pop_first_scalar(part);
        assert(rest_of_whole.subrange(0, rest_of_part.len() as int) =~= rest_of_part) by {
            assert forall|i: int| 0 <= i < rest_of_part.len() implies rest_of_whole[i]
                == rest_of_part[i] by {
                assert(whole.subrange(0, part.len() as int)[width + i] == whole[width + i]);
            }
        }
        lemma_prefix_ends_on_boundary(rest_of_whole, rest_of_part);
    }
}

/// Where a text that is not empty occurs in another, it starts and ends
/// between characters of the other.
pub proof fn lemma_occurrence_on_boundaries(hay: Seq<u8>, needle: Seq<u8>, at: int)
    requires
        valid_utf8(hay),
        valid_utf8(needle),
        needle.len() > 0,
        occurs_at(hay, needle, at),
    ensures
        is_char_boundary(hay, at),
        is_char_boundary(hay, at + needle.len()),
{
    let end = at + needle.len();
    is_char_boundary_start_end_of_seq(hay);
    is_char_boundary_start_end_of_seq(needle);
    assert(hay.subrange(at, end)[0] == hay[at]);
    is_char_boundary_iff_not_is_continuation_byte(needle, 0);
    is_char_boundary_iff_not_is_continuation_byte(hay, at);
    let tail = hay.subrange(at, hay.len() as int);
    valid_utf8_split(hay, at);
    assert(tail.subrange(0, needle.len() as int) =~= needle) by {
        assert forall|i: int| 0 <= i < needle.len() implies tail[i] == needle[i] by {
            assert(hay.subrange(at, end)[i] == hay[at + i]);
        }
    }
    lemma_prefix_ends_on_boundary(tail, needle);
    if end < hay.len() {
        is_char_boundary_iff_not_is_continuation_byte(tail, needle.len() as int);
        is_char_boundary_iff_not_is_continuation_byte(hay, end);
    }
}

/// A place between characters of a text is also one of the text's start up
/// to a later such place.
pub proof fn lemma_boundary_in_prefix(bytes: Seq<u8>, from: int, to: int)
    requires
        valid_utf8(bytes),
        0 <= from <= to <= bytes.len(),
        is_char_boundary(bytes, from),
        is_char_boundary(bytes, to),
    ensures
        valid_utf8(bytes.subrange(0, to)),
        is_char_boundary(bytes.subrange(0, to), from),
{
    let head = bytes.subrange(0, to);
    valid_utf8_split(bytes, to);
    is_char_boundary_start_end_of_seq(head);
    if from < to {
        is_char_boundary_iff_not_is_continuation_byte(bytes, from);
        is_char_boundary_iff_not_is_continuation_byte(head, from);
    }
}

/// The part of `text` that its bytes `[from, to)` hold.
pub fn slice_text(text: &str, from: usize, to: usize) -> (part: String)
    requires
        from <= to <= encode_utf8(text@).len(),
        is_char_boundary(encode_utf8(text@), from as int),
        is_char_boundary(encode_utf8(text@), to as int),
    ensures
        encode_utf8(part@) == encode_utf8(text@).subrange(from as int, to as int),
{
    proof {
        encode_utf8_valid_utf8(text@);
        lemma_boundary_in_prefix(encode_utf8(text@), from as int, to as int);
    }
    let (head, _) = text.split_at(to);
    let (_, part) = head.split_at(from);
    proof {
        assert(encode_utf8(text@).subrange(0, to as int).subrange(from as int, to as int)
            =~= encode_utf8(text@).subrange(from as int, to as int));
    }
    part.to_owned()
}

} // verus!
