//! The filtered view: which lines a filter lets through, and the mapping
//! between a line's absolute index and its position among the visible lines.

use vstd::prelude::*;
use vstd::utf8::encode_utf8;
use crate::line_store::{line_bytes, texts, LineStore};
use crate::text::{contains, contains_bytes};

verus! {

/// A line is visible iff the filter is empty or the line contains it.
pub open spec fn is_visible(line: Seq<u8>, filter: Seq<u8>) -> bool {
    filter.len() == 0 || contains(line, filter)
}

/// The absolute indices of the visible lines, in ascending order.
pub open spec fn visible_indices(lines: Seq<Seq<u8>>, filter: Seq<u8>) -> Seq<int>
    decreases lines.len(),
{
    if lines.len() == 0 {
        Seq::empty()
    } else if is_visible(lines.last(), filter) {
        visible_indices(lines.drop_last(), filter).push(lines.len() - 1)
    } else {
        visible_indices(lines.drop_last(), filter)
    }
}

/// The number of visible lines.
pub open spec fn visible_count(lines: Seq<Seq<u8>>, filter: Seq<u8>) -> nat {
    visible_indices(lines, filter).len()
}

/// The position, among the visible lines, of the first visible line with
/// absolute index `line` or more: the number of visible lines before `line`.
pub open spec fn position_of(lines: Seq<Seq<u8>>, filter: Seq<u8>, line: int) -> nat {
    if line <= 0 {
        0
    } else if line >= lines.len() {
        visible_count(lines, filter)
    } else {
        visible_count(lines.take(line), filter)
    }
}

/// The lines of `lines` that the filter lets through, in arrival order.
pub open spec fn visible_lines(lines: Seq<Seq<char>>, filter: Seq<char>) -> Seq<Seq<char>> {
    let shown = visible_indices(line_bytes(lines), encode_utf8(filter));
    Seq::new(shown.len(), |k: int| lines[shown[k]])
}

/// The indices as mathematical integers.
pub open spec fn indices_of(indices: Seq<usize>) -> Seq<int> {
    Seq::new(indices.len(), |k: int| indices[k] as int)
}

/// The filtered view grows by the new line's index when a visible line is
/// appended, and stays as it is otherwise.
pub proof fn lemma_visible_push(lines: Seq<Seq<u8>>, last: Seq<u8>, filter: Seq<u8>)
    ensures
        visible_indices(lines.push(last), filter) == if is_visible(last, filter) {
            visible_indices(lines, filter).push(lines.len() as int)
        } else {
            visible_indices(lines, filter)
        },
{
    assert(lines.push(last).drop_last() =~= lines);
}

/// The filtered view lists, in strictly ascending order, exactly the indices
/// of the lines that are visible.
pub proof fn lemma_visible_shape(lines: Seq<Seq<u8>>, filter: Seq<u8>)
    ensures
        visible_count(lines, filter) <= lines.len(),
        forall|k: int|
            0 <= k < visible_count(lines, filter) ==> {
                let i = #[trigger] visible_indices(lines, filter)[k];
                0 <= i < lines.len() && is_visible(lines[i], filter)
            },
        forall|j: int, k: int|
            0 <= j < k < visible_count(lines, filter) ==> (#[trigger] visible_indices(
                lines,
                filter,
            )[j]) < (#[trigger] visible_indices(lines, filter)[k]),
        forall|i: int|
            0 <= i < lines.len() && is_visible(#[trigger] lines[i], filter)
                ==> visible_indices(lines, filter).contains(i),
    decreases lines.len(),
{
    let shown = visible_indices(lines, filter);
    if lines.len() > 0 {
        let front = visible_indices(lines.drop_last(), filter);
        lemma_visible_shape(lines.drop_last(), filter);
        assert forall|k: int| 0 <= k < front.len() implies 0 <= #[trigger] front[k] < lines.len()
            - 1 && is_visible(lines[front[k]], filter) by {
            assert(lines.drop_last()[front[k]] == lines[front[k]]);
        }
        assert forall|k: int| 0 <= k < shown.len() implies {
            let i = #[trigger] shown[k];
            0 <= i < lines.len() && is_visible(lines[i], filter)
        } by {
            if k < front.len() {
                assert(shown[k] == front[k]);
            }
        }
        assert forall|j: int, k: int| 0 <= j < k < shown.len() implies (#[trigger] shown[j]) < (
        #[trigger] shown[k]) by {
            assert(shown[j] == front[j]);
            if k < front.len() {
                assert(shown[k] == front[k]);
            }
        }
        assert forall|i: int|
            0 <= i < lines.len() && is_visible(#[trigger] lines[i], filter) implies shown.contains(
            i,
        ) by {
            if i < lines.len() - 1 {
                assert(lines.drop_last()[i] == lines[i]);
                assert(front.contains(i));
                let k = choose|k: int| 0 <= k < front.len() && front[k] == i;
                assert(shown[k] == i);
            } else {
                assert(shown[shown.len() - 1] == i);
            }
        }
    }
}

/// With an empty filter every line is visible, in its place: the
/// filtered view is the whole buffer.
pub proof fn lemma_empty_filter_shows_all(lines: Seq<Seq<u8>>, filter: Seq<u8>)
    requires
        filter.len() == 0,
    ensures
        visible_indices(lines, filter) == Seq::new(lines.len(), |i: int| i),
        visible_count(lines, filter) == lines.len(),
    decreases lines.len(),
{
    if lines.len() > 0 {
        lemma_empty_filter_shows_all(lines.drop_last(), filter);
    }
    assert(visible_indices(lines, filter) =~= Seq::new(lines.len(), |i: int| i));
}

/// A longer buffer has no fewer visible lines, and the view of a prefix is a
/// prefix of the view.
pub proof fn lemma_visible_prefix(lines: Seq<Seq<u8>>, filter: Seq<u8>, len: int)
    requires
        0 <= len <= lines.len(),
    ensures
        visible_count(lines.take(len), filter) <= visible_count(lines, filter),
        visible_indices(lines.take(len), filter) == visible_indices(lines, filter).take(
            visible_count(lines.take(len), filter) as int,
        ),
    decreases lines.len() - len,
{
    if len == lines.len() {
        assert(lines.take(len) =~= lines);
        assert(visible_indices(lines, filter).take(visible_count(lines, filter) as int)
            =~= visible_indices(lines, filter));
    } else {
        lemma_visible_prefix(lines.drop_last(), filter, len);
        assert(lines.drop_last().take(len) =~= lines.take(len));
        let front = visible_indices(lines.drop_last(), filter);
        let count = visible_count(lines.take(len), filter) as int;
        assert(visible_indices(lines, filter).take(count) =~= front.take(count));
    }
}

/// The two address spaces agree: the visible line at position `k` has `k`
/// visible lines before it.
pub proof fn lemma_position_of_visible(lines: Seq<Seq<u8>>, filter: Seq<u8>, k: int)
    requires
        0 <= k < visible_count(lines, filter),
    ensures
        position_of(lines, filter, visible_indices(lines, filter)[k]) == k,
    decreases lines.len(),
{
    lemma_visible_shape(lines, filter);
    let shown = visible_indices(lines, filter);
    let i = shown[k];
    if i > 0 {
        let front = visible_indices(lines.take(i), filter);
        lemma_visible_prefix(lines, filter, i);
        lemma_visible_shape(lines.take(i), filter);
        // `front` is a prefix of `shown` whose entries are all below `i`.
        if front.len() > k {
            assert(front[k] == shown[k]);
            assert(front[k] < i);
        }
        if front.len() < k {
            let j = front.len() as int;
            assert(shown[j] < shown[k]);
            assert(lines.take(i)[shown[j]] == lines[shown[j]]);
            assert(front.contains(shown[j]));
            let m = choose|m: int| 0 <= m < front.len() && front[m] == shown[j];
            assert(shown[m] == front[m]);
            if m < j {
                assert(shown[m] < shown[j]);
            }
        }
    } else {
        if k > 0 {
            assert(shown[0] < shown[k]);
        }
    }
}

/// Tells whether the filter lets the line through.
pub fn line_is_visible(line: &[u8], filter: &[u8]) -> (visible: bool)
    ensures
        visible == is_visible(line@, filter@),
{
    filter.len() == 0 || contains_bytes(line, filter)
}

/// The absolute indices of the lines of `store` that `filter` lets through,
/// in ascending order; every index when the filter is empty.
pub fn visible_indices_of(store: &LineStore, filter: &str) -> (shown: Vec<usize>)
    ensures
        indices_of(shown@) == visible_indices(line_bytes(store@), encode_utf8(filter@)),
{
    let needle = filter.as_bytes();
    let count: usize = store.len();
    let ghost lines = line_bytes(store@);
    let mut shown: Vec<usize> = Vec::new();
    let mut i: usize = 0;
    proof {
        assert(lines.take(0) =~= Seq::<Seq<u8>>::empty());
        assert(indices_of(shown@) =~= Seq::<int>::empty());
    }
    while i < count
        invariant
            count == store@.len(),
            lines == line_bytes(store@),
            needle@ == encode_utf8(filter@),
            i <= count,
            indices_of(shown@) == visible_indices(lines.take(i as int), needle@),
        decreases count - i,
    {
        let ghost before = indices_of(shown@);
        if line_is_visible(store.bytes_at(i), needle) {
            shown.push(i);
            proof {
                assert(indices_of(shown@) =~= before.push(i as int));
            }
        }
        proof {
            assert(lines.take(i + 1) =~= lines.take(i as int).push(lines[i as int]));
            lemma_visible_push(lines.take(i as int), lines[i as int], needle@);
        }
        i += 1;
    }
    proof {
        assert(lines.take(count as int) =~= lines);
    }
    shown
}

/// The number of visible lines among the first `upto` lines of `store`, or
/// among all of them where it holds fewer.
pub fn position_in_view(store: &LineStore, filter: &str, upto: usize) -> (position: usize)
    ensures
        position == position_of(line_bytes(store@), encode_utf8(filter@), upto as int),
{
    let needle = filter.as_bytes();
    let ghost lines = line_bytes(store@);
    let end: usize = if upto < store.len() {
        upto
    } else {
        store.len()
    };
    let mut position: usize = 0;
    let mut i: usize = 0;
    proof {
        assert(lines.take(0) =~= Seq::<Seq<u8>>::empty());
    }
    while i < end
        invariant
            end <= store@.len(),
            lines == line_bytes(store@),
            needle@ == encode_utf8(filter@),
            i <= end,
            position <= i,
            position == visible_count(lines.take(i as int), needle@),
        decreases end - i,
    {
        proof {
            assert(lines.take(i + 1) =~= lines.take(i as int).push(lines[i as int]));
            lemma_visible_push(lines.take(i as int), lines[i as int], needle@);
        }
        if line_is_visible(store.bytes_at(i), needle) {
            position += 1;
        }
        i += 1;
    }
    proof {
        if end == store@.len() {
            assert(lines.take(end as int) =~= lines);
        }
    }
    position
}

/// The number of lines of `store` that `filter` lets through.
pub fn count_visible(store: &LineStore, filter: &str) -> (count: usize)
    ensures
        count == visible_count(line_bytes(store@), encode_utf8(filter@)),
{
    position_in_view(store, filter, store.len())
}

/// The absolute index of the line at `position` among the visible lines, if
/// there are that many.
pub fn absolute_index(store: &LineStore, filter: &str, position: usize) -> (line: Option<usize>)
    ensures
        position < visible_count(line_bytes(store@), encode_utf8(filter@)) ==> line == Some(
            visible_indices(line_bytes(store@), encode_utf8(filter@))[position as int] as usize,
        ),
        position >= visible_count(line_bytes(store@), encode_utf8(filter@)) ==> line.is_none(),
{
    let shown = visible_indices_of(store, filter);
    proof {
        lemma_visible_shape(line_bytes(store@), encode_utf8(filter@));
    }
    if position < shown.len() {
        assert(indices_of(shown@)[position as int] == shown@[position as int]);
        Some(shown[position])
    } else {
        None
    }
}

/// The lines of `store` that `filter` lets through, in arrival order.
pub fn filtered_lines(store: &LineStore, filter: &str) -> (shown: Vec<String>)
    ensures
        texts(shown@) == visible_lines(store@, filter@),
{
    let indices = visible_indices_of(store, filter);
    let ghost model = visible_indices(line_bytes(store@), encode_utf8(filter@));
    proof {
        lemma_visible_shape(line_bytes(store@), encode_utf8(filter@));
    }
    let mut shown: Vec<String> = Vec::new();
    let mut k: usize = 0;
    while k < indices.len()
        invariant
            k <= indices@.len(),
            indices_of(indices@) == model,
            model == visible_indices(line_bytes(store@), encode_utf8(filter@)),
            forall|j: int| 0 <= j < model.len() ==> 0 <= #[trigger] model[j] < store@.len(),
            shown@.len() == k,
            forall|j: int| 0 <= j < k ==> (#[trigger] shown@[j])@ == store@[model[j]],
        decreases indices@.len() - k,
    {
        assert(indices_of(indices@)[k as int] == indices@[k as int]);
        match store.get(indices[k]) {
            Some(line) => {
                shown.push(line.clone());
            },
            None => {
                assert(false);
            },
        }
        k += 1;
    }
    proof {
        assert(texts(shown@) =~= visible_lines(store@, filter@));
    }
    shown
}

} // verus!
