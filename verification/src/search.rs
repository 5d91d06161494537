//! Substring search over the whole buffer: every occurrence of a query, in
//! the order in which the match cursor walks them.

use vstd::prelude::*;
use vstd::utf8::encode_utf8;
use crate::line_store::{line_bytes, LineStore};
use crate::text::{absent_between, absent_from, find_from, occurs_at};

verus! {

/// Where one occurrence of the query lies: the line's index and the byte
/// range `[start, end)` within that line.
pub struct Hit {
    pub line: int,
    pub start: int,
    pub end: int,
}

/// One occurrence of the query: the line's index in arrival order and the
/// byte range `[start, end)` within that line.
#[derive(Clone, Copy, Debug, PartialEq, Eq, Structural)]
pub struct Match {
    pub line: usize,
    pub start: usize,
    pub end: usize,
}

impl View for Match {
    type V = Hit;

    open spec fn view(&self) -> Hit {
        Hit { line: self.line as int, start: self.start as int, end: self.end as int }
    }
}

/// The hits that a list of matches stands for.
pub open spec fn hits_of(matches: Seq<Match>) -> Seq<Hit> {
    Seq::new(matches.len(), |i: int| matches[i]@)
}

/// The occurrences of `needle` in the one line `hay`, scanning left to right
/// from offset `from`: the leftmost occurrence first, and after an occurrence
/// that ends at `e` the scan resumes at `e`, so that no two overlap. An empty
/// needle occurs nowhere.
pub open spec fn line_hits(hay: Seq<u8>, needle: Seq<u8>, line: int, from: int) -> Seq<Hit>
    decreases hay.len() - from,
{
    if needle.len() == 0 || from < 0 || from + needle.len() > hay.len() {
        Seq::empty()
    } else if occurs_at(hay, needle, from) {
        seq![Hit { line, start: from, end: from + needle.len() }] + line_hits(
            hay,
            needle,
            line,
            from + needle.len(),
        )
    } else {
        line_hits(hay, needle, line, from + 1)
    }
}

/// The occurrences of `needle` in all of `lines`: line by line in arrival
/// order, and within a line from left to right.
pub open spec fn all_hits(lines: Seq<Seq<u8>>, needle: Seq<u8>) -> Seq<Hit>
    decreases lines.len(),
{
    if lines.len() == 0 {
        Seq::empty()
    } else {
        all_hits(lines.drop_last(), needle) + line_hits(
            lines.last(),
            needle,
            lines.len() - 1,
            0,
        )
    }
}

/// `a` comes before `b` in the order of `(line, start)`.
pub open spec fn hit_before(a: Hit, b: Hit) -> bool {
    a.line < b.line || (a.line == b.line && a.start < b.start)
}

/// `hit` marks a stretch of line `hit.line` of `lines` that equals `needle`.
pub open spec fn hit_is_verbatim(lines: Seq<Seq<u8>>, needle: Seq<u8>, hit: Hit) -> bool {
    &&& 0 <= hit.line < lines.len()
    &&& 0 <= hit.start < hit.end <= lines[hit.line].len()
    &&& hit.end == hit.start + needle.len()
    &&& lines[hit.line].subrange(hit.start, hit.end) == needle
}

/// Skipping offsets at which the needle does not occur changes nothing.
pub proof fn lemma_line_hits_skip(hay: Seq<u8>, needle: Seq<u8>, line: int, from: int, to: int)
    requires
        0 <= from <= to,
        absent_between(hay, needle, from, to),
        to + needle.len() <= hay.len() || absent_from(hay, needle, from),
    ensures
        line_hits(hay, needle, line, from) == line_hits(hay, needle, line, to),
    decreases to - from,
{
    if from < to {
        if needle.len() == 0 || from + needle.len() > hay.len() {
        } else {
            assert(!occurs_at(hay, needle, from));
            lemma_line_hits_skip(hay, needle, line, from + 1, to);
        }
    }
}

/// Where the needle occurs nowhere from `from` on, the scan finds nothing.
pub proof fn lemma_line_hits_none(hay: Seq<u8>, needle: Seq<u8>, line: int, from: int)
    requires
        absent_from(hay, needle, from),
    ensures
        line_hits(hay, needle, line, from) == Seq::<Hit>::empty(),
    decreases hay.len() - from,
{
    if needle.len() == 0 || from < 0 || from + needle.len() > hay.len() {
    } else {
        assert(!occurs_at(hay, needle, from));
        lemma_line_hits_none(hay, needle, line, from + 1);
    }
}

/// What the scan of one line yields: hits on that line, each a stretch equal
/// to the needle that starts at or after `from`, in ascending order and
/// without overlap.
pub proof fn lemma_line_hits_shape(hay: Seq<u8>, needle: Seq<u8>, line: int, from: int)
    requires
        0 <= from,
    ensures
        forall|i: int|
            0 <= i < line_hits(hay, needle, line, from).len() ==> {
                let hit = #[trigger] line_hits(hay, needle, line, from)[i];
                &&& hit.line == line
                &&& from <= hit.start < hit.end <= hay.len()
                &&& hit.end == hit.start + needle.len()
                &&& hay.subrange(hit.start, hit.end) == needle
            },
        forall|i: int, j: int|
            0 <= i < j < line_hits(hay, needle, line, from).len() ==> (#[trigger] line_hits(
                hay,
                needle,
                line,
                from,
            )[i]).end <= (#[trigger] line_hits(hay, needle, line, from)[j]).start,
    decreases hay.len() - from,
{
    let hits = line_hits(hay, needle, line, from);
    if needle.len() == 0 || from + needle.len() > hay.len() {
        assert(hits.len() == 0);
    } else if occurs_at(hay, needle, from) {
        let rest = line_hits(hay, needle, line, from + needle.len());
        lemma_line_hits_shape(hay, needle, line, from + needle.len());
        assert forall|i: int| 0 <= i < hits.len() implies {
            let hit = #[trigger] hits[i];
            &&& hit.line == line
            &&& from <= hit.start < hit.end <= hay.len()
            &&& hit.end == hit.start + needle.len()
            &&& hay.subrange(hit.start, hit.end) == needle
        } by {
            if i > 0 {
                assert(hits[i] == rest[i - 1]);
            }
        }
        assert forall|i: int, j: int| 0 <= i < j < hits.len() implies (#[trigger] hits[i]).end <= (
        #[trigger] hits[j]).start by {
            assert(hits[j] == rest[j - 1]);
            if i > 0 {
                assert(hits[i] == rest[i - 1]);
            }
        }
    } else {
        lemma_line_hits_shape(hay, needle, line, from + 1);
        assert(hits == line_hits(hay, needle, line, from + 1));
    }
}

/// Every hit of a search marks a stretch of its line that equals the query,
/// the hits are in ascending order of `(line, start)`, and two hits on one
/// line do not overlap.
pub proof fn lemma_all_hits_shape(lines: Seq<Seq<u8>>, needle: Seq<u8>)
    ensures
        forall|i: int|
            0 <= i < all_hits(lines, needle).len() ==> hit_is_verbatim(
                lines,
                needle,
                #[trigger] all_hits(lines, needle)[i],
            ),
        forall|i: int, j: int|
            0 <= i < j < all_hits(lines, needle).len() ==> hit_before(
                #[trigger] all_hits(lines, needle)[i],
                #[trigger] all_hits(lines, needle)[j],
            ),
        forall|i: int, j: int|
            0 <= i < j < all_hits(lines, needle).len() && (#[trigger] all_hits(
                lines,
                needle,
            )[i]).line == (#[trigger] all_hits(lines, needle)[j]).line ==> all_hits(
                lines,
                needle,
            )[i].end <= all_hits(lines, needle)[j].start,
    decreases lines.len(),
{
    if lines.len() > 0 {
        let front = all_hits(lines.drop_last(), needle);
        let back = line_hits(lines.last(), needle, lines.len() - 1, 0);
        lemma_all_hits_shape(lines.drop_last(), needle);
        lemma_line_hits_shape(lines.last(), needle, lines.len() - 1, 0);
        let all = all_hits(lines, needle);
        assert(all == front + back);
        assert forall|i: int| 0 <= i < all.len() implies hit_is_verbatim(
            lines,
            needle,
            #[trigger] all[i],
        ) by {
            if i < front.len() {
                assert(all[i] == front[i]);
                assert(hit_is_verbatim(lines.drop_last(), needle, front[i]));
                assert(lines.drop_last()[front[i].line] == lines[front[i].line]);
            } else {
                assert(all[i] == back[i - front.len()]);
            }
        }
        assert forall|i: int, j: int| 0 <= i < j < all.len() implies hit_before(
            #[trigger] all[i],
            #[trigger] all[j],
        ) && (all[i].line == all[j].line ==> all[i].end <= all[j].start) by {
            if j < front.len() {
                assert(all[i] == front[i] && all[j] == front[j]);
            } else if i < front.len() {
                assert(all[i] == front[i]);
                assert(all[j] == back[j - front.len()]);
                assert(hit_is_verbatim(lines.drop_last(), needle, front[i]));
            } else {
                assert(all[i] == back[i - front.len()]);
                assert(all[j] == back[j - front.len()]);
            }
        }
    }
}

/// `hit` is on line `line` and covers the byte offset `at`.
pub open spec fn hit_covers(hit: Hit, line: int, at: int) -> bool {
    hit.line == line && hit.start <= at < hit.end
}

/// The scan of a line takes the leftmost occurrence first: an occurrence of
/// the needle at or after `from` is a hit itself or starts within a hit.
pub proof fn lemma_line_hits_cover(hay: Seq<u8>, needle: Seq<u8>, line: int, from: int, at: int)
    requires
        0 <= from <= at,
        needle.len() > 0,
        occurs_at(hay, needle, at),
    ensures
        exists|i: int|
            0 <= i < line_hits(hay, needle, line, from).len() && hit_covers(
                #[trigger] line_hits(hay, needle, line, from)[i],
                line,
                at,
            ),
    decreases hay.len() - from,
{
    let hits = line_hits(hay, needle, line, from);
    if occurs_at(hay, needle, from) {
        let rest = line_hits(hay, needle, line, from + needle.len());
        if at < from + needle.len() {
            assert(hit_covers(hits[0], line, at));
        } else {
            lemma_line_hits_cover(hay, needle, line, from + needle.len(), at);
            let i = choose|i: int| 0 <= i < rest.len() && hit_covers(#[trigger] rest[i], line, at);
            assert(hits[i + 1] == rest[i]);
            assert(hit_covers(hits[i + 1], line, at));
        }
    } else {
        lemma_line_hits_cover(hay, needle, line, from + 1, at);
    }
}

/// A search misses nothing: wherever the query occurs in a line, a hit on
/// that line covers the place where the occurrence starts. With the order
/// and the absence of overlap this makes the hits of a line the leftmost
/// occurrence, then the leftmost one after its end, and so on.
pub proof fn lemma_all_hits_cover(lines: Seq<Seq<u8>>, needle: Seq<u8>, line: int, at: int)
    requires
        0 <= line < lines.len(),
        needle.len() > 0,
        occurs_at(lines[line], needle, at),
    ensures
        exists|i: int|
            0 <= i < all_hits(lines, needle).len() && hit_covers(
                #[trigger] all_hits(lines, needle)[i],
                line,
                at,
            ),
    decreases lines.len(),
{
    let all = all_hits(lines, needle);
    let front = all_hits(lines.drop_last(), needle);
    let back = line_hits(lines.last(), needle, lines.len() - 1, 0);
    if line == lines.len() - 1 {
        lemma_line_hits_cover(lines.last(), needle, line, 0, at);
        let i = choose|i: int| 0 <= i < back.len() && hit_covers(#[trigger] back[i], line, at);
        assert(all[front.len() + i] == back[i]);
        assert(hit_covers(all[front.len() + i], line, at));
    } else {
        assert(lines.drop_last()[line] == lines[line]);
        lemma_all_hits_cover(lines.drop_last(), needle, line, at);
        let i = choose|i: int| 0 <= i < front.len() && hit_covers(#[trigger] front[i], line, at);
        assert(all[i] == front[i]);
        assert(hit_covers(all[i], line, at));
    }
}

/// A search of a buffer that has grown by one line is the search of the
/// buffer as it was, followed by the hits on the new line.
pub proof fn lemma_all_hits_push(lines: Seq<Seq<u8>>, last: Seq<u8>, needle: Seq<u8>)
    ensures
        all_hits(lines.push(last), needle) == all_hits(lines, needle) + line_hits(
            last,
            needle,
            lines.len() as int,
            0,
        ),
{
    assert(lines.push(last).drop_last() =~= lines);
}

/// An empty query matches nothing.
pub proof fn lemma_all_hits_empty_needle(lines: Seq<Seq<u8>>, needle: Seq<u8>)
    requires
        needle.len() == 0,
    ensures
        all_hits(lines, needle) == Seq::<Hit>::empty(),
    decreases lines.len(),
{
    if lines.len() > 0 {
        lemma_all_hits_empty_needle(lines.drop_last(), needle);
    }
}

/// Appends to `found` the occurrences of `needle` in `hay`, which is the line
/// with index `line`.
pub fn push_line_matches(found: &mut Vec<Match>, hay: &[u8], needle: &[u8], line: usize)
    ensures
        hits_of(final(found)@) == hits_of(old(found)@) + line_hits(
            hay@,
            needle@,
            line as int,
            0,
        ),
{
    let n: usize = needle.len();
    let ghost target = hits_of(found@) + line_hits(hay@, needle@, line as int, 0);
    if n == 0 || n > hay.len() {
        proof {
            assert(target =~= hits_of(found@));
        }
        return ;
    }
    let mut from: usize = 0;
    loop
        invariant
            n == needle@.len(),
            0 < n <= hay@.len() <= usize::MAX,
            from + n <= hay@.len(),
            target == hits_of(old(found)@) + line_hits(hay@, needle@, line as int, 0),
            hits_of(found@) + line_hits(hay@, needle@, line as int, from as int) == target,
        decreases hay@.len() - from,
    {
        match find_from(hay, needle, from) {
            Some(at) => {
                proof {
                    lemma_line_hits_skip(hay@, needle@, line as int, from as int, at as int);
                }
                let ghost before = hits_of(found@);
                let ghost hit = Hit { line: line as int, start: at as int, end: at + n };
                let ghost rest = line_hits(hay@, needle@, line as int, at + n);
                found.push(Match { line, start: at, end: at + n });
                proof {
                    assert(hits_of(found@) =~= before.push(hit));
                    assert(before.push(hit) + rest =~= before + (seq![hit] + rest));
                }
                if n > hay.len() - (at + n) {
                    proof {
                        assert(rest =~= Seq::<Hit>::empty());
                        assert(hits_of(found@) + rest =~= hits_of(found@));
                    }
                    return ;
                }
                from = at + n;
            },
            None => {
                proof {
                    lemma_line_hits_none(hay@, needle@, line as int, from as int);
                    assert(hits_of(found@) + Seq::<Hit>::empty() =~= hits_of(found@));
                }
                return ;
            },
        }
    }
}

/// Every occurrence of `query` in the lines of `store`, ordered by line and
/// then by start offset. An empty query yields no match.
pub fn recompute(store: &LineStore, query: &str) -> (found: Vec<Match>)
    ensures
        hits_of(found@) == all_hits(line_bytes(store@), encode_utf8(query@)),
{
    let needle = query.as_bytes();
    let mut found: Vec<Match> = Vec::new();
    let count: usize = store.len();
    let ghost lines = line_bytes(store@);
    let mut i: usize = 0;
    proof {
        assert(lines.take(0) =~= Seq::<Seq<u8>>::empty());
        assert(hits_of(found@) =~= Seq::<Hit>::empty());
    }
    while i < count
        invariant
            count == store@.len(),
            lines == line_bytes(store@),
            i <= count,
            needle@ == encode_utf8(query@),
            hits_of(found@) == all_hits(lines.take(i as int), needle@),
        decreases count - i,
    {
        let hay = store.bytes_at(i);
        push_line_matches(&mut found, hay, needle, i);
        proof {
            assert(lines.take(i + 1) =~= lines.take(i as int).push(lines[i as int]));
            lemma_all_hits_push(lines.take(i as int), lines[i as int], needle@);
        }
        i += 1;
    }
    proof {
        assert(lines.take(count as int) =~= lines);
    }
    found
}

} // verus!
