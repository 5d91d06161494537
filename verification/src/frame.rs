//! The frame: the rows that a renderer draws, each line cut into spans that
//! say what is highlighted.

use vstd::prelude::*;
use vstd::utf8::{
    encode_utf8, encode_utf8_decode_utf8, encode_utf8_valid_utf8, is_char_boundary,
    is_char_boundary_start_end_of_seq,
};
use crate::filter::{indices_of, lemma_visible_shape, visible_indices_of};
use crate::line_store::{line_bytes, LineStore};
use crate::search::{all_hits, hit_is_verbatim, hits_of, lemma_all_hits_shape, Hit, Match};
use crate::text::{lemma_occurrence_on_boundaries, slice_text};
use crate::pager::App;
use crate::view_state::AppView;

verus! {

/// A stretch of a line, as the contracts see it: the bytes of its text and
/// how it is marked.
pub struct SpanView {
    pub text: Seq<u8>,
    pub highlighted: bool,
    pub is_current_match: bool,
}

/// A row of the frame, as the contracts see it.
pub enum RowView {
    Blank,
    Text(Seq<SpanView>),
}

/// A stretch of a line that is drawn in one style: plain text, a match, or
/// the match under the cursor.
#[derive(Clone, Debug, PartialEq, Eq)]
pub struct Span {
    pub text: String,
    pub highlighted: bool,
    pub is_current_match: bool,
}

/// One row of the viewport: a placeholder where no line is shown, or the
/// spans of the line shown there.
#[derive(Clone, Debug, PartialEq, Eq)]
pub enum Row {
    Blank,
    Text(Vec<Span>),
}

impl View for Span {
    type V = SpanView;

    open spec fn view(&self) -> SpanView {
        SpanView {
            text: encode_utf8(self.text@),
            highlighted: self.highlighted,
            is_current_match: self.is_current_match,
        }
    }
}

/// The spans as the contracts see them.
pub open spec fn spans_of(spans: Seq<Span>) -> Seq<SpanView> {
    Seq::new(spans.len(), |i: int| spans[i]@)
}

impl View for Row {
    type V = RowView;

    open spec fn view(&self) -> RowView {
        match self {
            Row::Blank => RowView::Blank,
            Row::Text(spans) => RowView::Text(spans_of(spans@)),
        }
    }
}

/// The rows as the contracts see them.
pub open spec fn rows_of(rows: Seq<Row>) -> Seq<RowView> {
    Seq::new(rows.len(), |i: int| rows[i]@)
}

/// The bytes `[from, to)` of `hay` as an unhighlighted span, or nothing
/// where the range is empty.
pub open spec fn plain(hay: Seq<u8>, from: int, to: int) -> Seq<SpanView> {
    if from < to {
        seq![SpanView { text: hay.subrange(from, to), highlighted: false, is_current_match: false }]
    } else {
        Seq::empty()
    }
}

/// The spans of the line `hay`, which has index `line`, from byte `from` on,
/// given that the matches before index `k` have been dealt with: for each
/// later match on this line the unmatched text before it and then the match,
/// highlighted and marked as current iff its index is `cursor`; then the
/// unmatched text that is left.
pub open spec fn spans_from(
    hay: Seq<u8>,
    hits: Seq<Hit>,
    cursor: int,
    line: int,
    k: int,
    from: int,
) -> Seq<SpanView>
    decreases hits.len() - k,
{
    if k < 0 || k >= hits.len() {
        plain(hay, from, hay.len() as int)
    } else if hits[k].line != line {
        spans_from(hay, hits, cursor, line, k + 1, from)
    } else {
        plain(hay, from, hits[k].start) + seq![
            SpanView {
                text: hay.subrange(hits[k].start, hits[k].end),
                highlighted: true,
                is_current_match: k == cursor,
            },
        ] + spans_from(hay, hits, cursor, line, k + 1, hits[k].end)
    }
}

/// The spans of a whole line. A line without matches is one unhighlighted
/// span that holds the whole line.
pub open spec fn line_spans(hay: Seq<u8>, hits: Seq<Hit>, cursor: int, line: int) -> Seq<SpanView> {
    let spans = spans_from(hay, hits, cursor, line, 0, 0);
    if spans.len() == 0 {
        seq![SpanView { text: hay, highlighted: false, is_current_match: false }]
    } else {
        spans
    }
}

/// The bytes of the spans, one span after the other.
pub open spec fn joined(spans: Seq<SpanView>) -> Seq<u8>
    decreases spans.len(),
{
    if spans.len() == 0 {
        Seq::empty()
    } else {
        joined(spans.drop_last()) + spans.last().text
    }
}

/// The frame: exactly `height` rows. Row `r` shows the line at position
/// `scroll + r` of the filtered view `visible`, and is blank where the view
/// has no such position.
pub open spec fn frame_rows(
    lines: Seq<Seq<u8>>,
    visible: Seq<int>,
    scroll: nat,
    height: nat,
    hits: Seq<Hit>,
    cursor: int,
) -> Seq<RowView> {
    Seq::new(
        height,
        |r: int|
            if scroll + r < visible.len() {
                RowView::Text(
                    line_spans(lines[visible[scroll + r]], hits, cursor, visible[scroll + r]),
                )
            } else {
                RowView::Blank
            },
    )
}

/// Every match lies within its line, and of two matches on one line the
/// earlier in the list ends before the later starts.
pub open spec fn hits_fit(lines: Seq<Seq<u8>>, hits: Seq<Hit>) -> bool {
    &&& forall|k: int|
        0 <= k < hits.len() ==> {
            let hit = #[trigger] hits[k];
            0 <= hit.line < lines.len() && 0 <= hit.start <= hit.end <= lines[hit.line].len()
        }
    &&& forall|j: int, k: int|
        0 <= j < k < hits.len() && (#[trigger] hits[j]).line == (#[trigger] hits[k]).line
            ==> hits[j].end <= hits[k].start
}

/// Every match starts and ends between characters of its line.
pub open spec fn hits_between_chars(lines: Seq<Seq<u8>>, hits: Seq<Hit>) -> bool {
    forall|k: int|
        0 <= k < hits.len() ==> {
            let hit = #[trigger] hits[k];
            is_char_boundary(lines[hit.line], hit.start) && is_char_boundary(
                lines[hit.line],
                hit.end,
            )
        }
}

impl AppView {
    /// The frame that the state shows.
    pub open spec fn frame(self) -> Seq<RowView> {
        frame_rows(
            line_bytes(self.lines),
            self.visible(),
            self.scroll,
            self.viewport_height,
            self.hits(),
            self.match_cursor as int,
        )
    }
}

/// The matches of a search start and end between characters of their lines,
/// so that a line can be cut there.
pub proof fn lemma_hits_between_chars(lines: Seq<Seq<char>>, query: Seq<char>)
    ensures
        hits_fit(line_bytes(lines), all_hits(line_bytes(lines), encode_utf8(query))),
        hits_between_chars(line_bytes(lines), all_hits(line_bytes(lines), encode_utf8(query))),
{
    let bytes = line_bytes(lines);
    let needle = encode_utf8(query);
    let hits = all_hits(bytes, needle);
    lemma_all_hits_shape(bytes, needle);
    encode_utf8_valid_utf8(query);
    assert forall|k: int| 0 <= k < hits.len() implies {
        let hit = #[trigger] hits[k];
        is_char_boundary(bytes[hit.line], hit.start) && is_char_boundary(bytes[hit.line], hit.end)
    } by {
        let hit = hits[k];
        assert(hit_is_verbatim(bytes, needle, hit));
        encode_utf8_valid_utf8(lines[hit.line]);
        lemma_occurrence_on_boundaries(bytes[hit.line], needle, hit.start);
    }
}

/// One span, joined, is its text.
pub proof fn lemma_joined_one(span: SpanView)
    ensures
        joined(seq![span]) == span.text,
{
    let one = seq![span];
    assert(one.drop_last() =~= Seq::<SpanView>::empty());
    assert(joined(Seq::<SpanView>::empty()) =~= Seq::<u8>::empty());
    assert(joined(one) =~= span.text);
}

/// Joining one more span adds its text at the end.
pub proof fn lemma_joined_concat(front: Seq<SpanView>, back: Seq<SpanView>)
    ensures
        joined(front + back) == joined(front) + joined(back),
    decreases back.len(),
{
    if back.len() == 0 {
        assert(front + back =~= front);
        assert(joined(front) + joined(back) =~= joined(front));
    } else {
        lemma_joined_concat(front, back.drop_last());
        assert((front + back).drop_last() =~= front + back.drop_last());
        assert(joined(front + back) =~= joined(front) + joined(back));
    }
}

/// The spans from byte `from` on, joined, are the line from `from` on.
pub proof fn lemma_spans_from_joined(
    hay: Seq<u8>,
    hits: Seq<Hit>,
    cursor: int,
    line: int,
    k: int,
    from: int,
)
    requires
        0 <= k,
        0 <= from <= hay.len(),
        forall|i: int|
            k <= i < hits.len() && (#[trigger] hits[i]).line == line ==> from <= hits[i].start
                <= hits[i].end <= hay.len(),
        forall|i: int, j: int|
            k <= i < j < hits.len() && (#[trigger] hits[i]).line == line && (
            #[trigger] hits[j]).line == line ==> hits[i].end <= hits[j].start,
    ensures
        joined(spans_from(hay, hits, cursor, line, k, from)) == hay.subrange(
            from,
            hay.len() as int,
        ),
    decreases hits.len() - k,
{
    let rest = hay.subrange(from, hay.len() as int);
    if k >= hits.len() {
        lemma_plain_joined(hay, from, hay.len() as int);
    } else if hits[k].line != line {
        lemma_spans_from_joined(hay, hits, cursor, line, k + 1, from);
    } else {
        let hit = hits[k];
        let lead = plain(hay, from, hit.start);
        let mark = SpanView {
            text: hay.subrange(hit.start, hit.end),
            highlighted: true,
            is_current_match: k == cursor,
        };
        let tail = spans_from(hay, hits, cursor, line, k + 1, hit.end);
        lemma_spans_from_joined(hay, hits, cursor, line, k + 1, hit.end);
        lemma_plain_joined(hay, from, hit.start);
        lemma_joined_concat(lead + seq![mark], tail);
        lemma_joined_concat(lead, seq![mark]);
        lemma_joined_one(mark);
        assert(joined(lead + seq![mark] + tail) =~= rest);
    }
}

/// An unhighlighted stretch, joined, is the stretch.
pub proof fn lemma_plain_joined(hay: Seq<u8>, from: int, to: int)
    requires
        0 <= from <= to <= hay.len(),
    ensures
        joined(plain(hay, from, to)) == hay.subrange(from, to),
{
    let spans = plain(hay, from, to);
    if from < to {
        lemma_joined_one(spans[0]);
        assert(spans =~= seq![spans[0]]);
    } else {
        assert(joined(spans) =~= hay.subrange(from, to));
    }
}

/// The spans of a line, joined, give back the line exactly.
pub proof fn lemma_line_spans_joined(lines: Seq<Seq<u8>>, hits: Seq<Hit>, cursor: int, line: int)
    requires
        0 <= line < lines.len(),
        hits_fit(lines, hits),
    ensures
        joined(line_spans(lines[line], hits, cursor, line)) == lines[line],
{
    let hay = lines[line];
    lemma_spans_from_joined(hay, hits, cursor, line, 0, 0);
    assert(hay.subrange(0, hay.len() as int) =~= hay);
    let spans = spans_from(hay, hits, cursor, line, 0, 0);
    if spans.len() == 0 {
        lemma_joined_one(SpanView { text: hay, highlighted: false, is_current_match: false });
    }
}

/// A span that holds the part of `hay` in its bytes `[from, to)`.
fn span_of(hay: &str, from: usize, to: usize, highlighted: bool, is_current_match: bool) -> (span:
    Span)
    requires
        from <= to <= encode_utf8(hay@).len(),
        is_char_boundary(encode_utf8(hay@), from as int),
        is_char_boundary(encode_utf8(hay@), to as int),
    ensures
        span@ == (SpanView {
            text: encode_utf8(hay@).subrange(from as int, to as int),
            highlighted,
            is_current_match,
        }),
{
    Span { text: slice_text(hay, from, to), highlighted, is_current_match }
}

/// The spans of the line `hay`, which has index `line`: the unmatched text
/// and the matches on that line in order. The match with index `cursor` in
/// `matches` is marked as current.
pub fn build_spans(hay: &str, matches: &Vec<Match>, cursor: usize, line: usize) -> (spans: Vec<
    Span,
>)
    requires
        forall|i: int|
            0 <= i < matches@.len() && (#[trigger] matches@[i]).line == line ==> {
                &&& matches@[i].start <= matches@[i].end <= encode_utf8(hay@).len()
                &&& is_char_boundary(encode_utf8(hay@), matches@[i].start as int)
                &&& is_char_boundary(encode_utf8(hay@), matches@[i].end as int)
            },
        forall|i: int, j: int|
            0 <= i < j < matches@.len() && (#[trigger] matches@[i]).line == line && (
            #[trigger] matches@[j]).line == line ==> matches@[i].end <= matches@[j].start,
    ensures
        spans_of(spans@) == line_spans(
            encode_utf8(hay@),
            hits_of(matches@),
            cursor as int,
            line as int,
        ),
{
    let bytes = hay.as_bytes();
    let ghost hits = hits_of(matches@);
    let ghost target = spans_from(bytes@, hits, cursor as int, line as int, 0, 0);
    let mut spans: Vec<Span> = Vec::new();
    let mut from: usize = 0;
    let mut k: usize = 0;
    proof {
        encode_utf8_valid_utf8(hay@);
        is_char_boundary_start_end_of_seq(bytes@);
        assert(spans_of(spans@) =~= Seq::<SpanView>::empty());
        assert(Seq::<SpanView>::empty() + target =~= target);
    }
    while k < matches.len()
        invariant
            bytes@ == encode_utf8(hay@),
            hits == hits_of(matches@),
            target == spans_from(bytes@, hits, cursor as int, line as int, 0, 0),
            k <= matches@.len(),
            from <= bytes@.len(),
            is_char_boundary(bytes@, from as int),
            forall|i: int|
                0 <= i < matches@.len() && (#[trigger] matches@[i]).line == line ==> {
                    &&& matches@[i].start <= matches@[i].end <= bytes@.len()
                    &&& is_char_boundary(bytes@, matches@[i].start as int)
                    &&& is_char_boundary(bytes@, matches@[i].end as int)
                },
            forall|i: int, j: int|
                0 <= i < j < matches@.len() && (#[trigger] matches@[i]).line == line && (
                #[trigger] matches@[j]).line == line ==> matches@[i].end <= matches@[j].start,
            forall|i: int|
                k <= i < matches@.len() && (#[trigger] matches@[i]).line == line ==> from
                    <= matches@[i].start,
            spans_of(spans@) + spans_from(
                bytes@,
                hits,
                cursor as int,
                line as int,
                k as int,
                from as int,
            ) == target,
        decreases matches@.len() - k,
    {
        let found: Match = matches[k];
        let ghost before = spans_of(spans@);
        let ghost tail = spans_from(bytes@, hits, cursor as int, line as int, k + 1, found.end as int);
        proof {
            assert(hits[k as int] == found@);
        }
        if found.line == line {
            if from < found.start {
                spans.push(span_of(hay, from, found.start, false, false));
            }
            let ghost lead = plain(bytes@, from as int, found.start as int);
            proof {
                assert(spans_of(spans@) =~= before + lead);
            }
            let mark: Span = span_of(hay, found.start, found.end, true, k == cursor);
            let ghost mark_view = mark@;
            spans.push(mark);
            proof {
                assert(spans_of(spans@) =~= before + lead + seq![mark_view]);
                assert(before + (lead + seq![mark_view] + tail) =~= before + lead + seq![mark_view]
                    + tail);
            }
            from = found.end;
        }
        k += 1;
    }
    if from < bytes.len() {
        let ghost before = spans_of(spans@);
        spans.push(span_of(hay, from, bytes.len(), false, false));
        proof {
            assert(spans_of(spans@) =~= before + plain(bytes@, from as int, bytes@.len() as int));
        }
    } else {
        proof {
            assert(spans_of(spans@) + Seq::<SpanView>::empty() =~= spans_of(spans@));
        }
    }
    if spans.len() == 0 {
        spans.push(span_of(hay, 0, bytes.len(), false, false));
        proof {
            assert(bytes@.subrange(0, bytes@.len() as int) =~= bytes@);
            assert(spans_of(spans@) =~= seq![
                SpanView { text: bytes@, highlighted: false, is_current_match: false },
            ]);
        }
    }
    spans
}

/// Builds the frame for a viewport of `viewport_height` rows: row `r` shows
/// the line at position `scroll + r` of the filtered view `visible`, cut
/// into spans by the matches on it, and is blank where the view ends before
/// that position. Nothing is changed.
pub fn build_frame(
    store: &LineStore,
    visible: &Vec<usize>,
    scroll: usize,
    viewport_height: usize,
    matches: &Vec<Match>,
    cursor: usize,
) -> (rows: Vec<Row>)
    requires
        forall|k: int| 0 <= k < visible@.len() ==> (#[trigger] visible@[k]) < store@.len(),
        hits_fit(line_bytes(store@), hits_of(matches@)),
        hits_between_chars(line_bytes(store@), hits_of(matches@)),
    ensures
        rows@.len() == viewport_height,
        rows_of(rows@) == frame_rows(
            line_bytes(store@),
            indices_of(visible@),
            scroll as nat,
            viewport_height as nat,
            hits_of(matches@),
            cursor as int,
        ),
{
    let ghost lines = line_bytes(store@);
    let ghost hits = hits_of(matches@);
    let ghost target = frame_rows(
        lines,
        indices_of(visible@),
        scroll as nat,
        viewport_height as nat,
        hits,
        cursor as int,
    );
    let mut rows: Vec<Row> = Vec::new();
    let mut r: usize = 0;
    while r < viewport_height
        invariant
            r <= viewport_height,
            lines == line_bytes(store@),
            hits == hits_of(matches@),
            hits_fit(lines, hits),
            hits_between_chars(lines, hits),
            forall|k: int| 0 <= k < visible@.len() ==> (#[trigger] visible@[k]) < store@.len(),
            target == frame_rows(
                lines,
                indices_of(visible@),
                scroll as nat,
                viewport_height as nat,
                hits,
                cursor as int,
            ),
            rows@.len() == r,
            forall|i: int| 0 <= i < r ==> (#[trigger] rows@[i])@ == target[i],
        decreases viewport_height - r,
    {
        if scroll < visible.len() && r < visible.len() - scroll {
            let line: usize = visible[scroll + r];
            proof {
                assert(indices_of(visible@)[scroll + r] == line);
                assert forall|i: int|
                    0 <= i < matches@.len() && (#[trigger] matches@[i]).line == line implies {
                    &&& matches@[i].start <= matches@[i].end <= lines[line as int].len()
                    &&& is_char_boundary(lines[line as int], matches@[i].start as int)
                    &&& is_char_boundary(lines[line as int], matches@[i].end as int)
                } by {
                    assert(hits[i] == matches@[i]@);
                }
                assert forall|i: int, j: int|
                    0 <= i < j < matches@.len() && (#[trigger] matches@[i]).line == line && (
                    #[trigger] matches@[j]).line == line implies matches@[i].end
                    <= matches@[j].start by {
                    assert(hits[i] == matches@[i]@);
                    assert(hits[j] == matches@[j]@);
                }
            }
            let spans: Vec<Span> = build_spans(store.text_at(line), matches, cursor, line);
            rows.push(Row::Text(spans));
        } else {
            rows.push(Row::Blank);
        }
        r += 1;
    }
    proof {
        assert(rows_of(rows@) =~= target);
    }
    rows
}

impl App {
    /// The frame that the state shows: as many rows as the viewport has, from
    /// the scroll offset on. Nothing is changed.
    pub fn frame(&self) -> (rows: Vec<Row>)
        requires
            self.wf(),
        ensures
            rows@.len() == self@.viewport_height,
            rows_of(rows@) == self@.frame(),
    {
        let visible: Vec<usize> = visible_indices_of(self.lines(), self.filter());
        proof {
            let lines = line_bytes(self@.lines);
            lemma_visible_shape(lines, encode_utf8(self@.filter));
            lemma_all_hits_shape(lines, encode_utf8(self@.query));
            lemma_hits_between_chars(self@.lines, self@.query);
            assert forall|k: int| 0 <= k < visible@.len() implies (#[trigger] visible@[k])
                < self@.lines.len() by {
                assert(indices_of(visible@)[k] == visible@[k]);
            }
        }
        build_frame(
            self.lines(),
            &visible,
            self.scroll(),
            self.viewport_height(),
            self.matches(),
            self.current_match(),
        )
    }
}

/// The texts of the spans, one after the other.
pub open spec fn joined_text(spans: Seq<Span>) -> Seq<char>
    decreases spans.len(),
{
    if spans.len() == 0 {
        Seq::empty()
    } else {
        joined_text(spans.drop_last()) + spans.last().text@
    }
}

/// The bytes of two texts, one after the other, are the bytes of the first
/// followed by those of the second.
pub proof fn lemma_encode_concat(front: Seq<char>, back: Seq<char>)
    ensures
        encode_utf8(front + back) == encode_utf8(front) + encode_utf8(back),
    decreases front.len(),
{
    if front.len() == 0 {
        assert(front + back =~= back);
        assert(encode_utf8(front) + encode_utf8(back) =~= encode_utf8(back));
    } else {
        lemma_encode_concat(front.drop_first(), back);
        assert((front + back).drop_first() =~= front.drop_first() + back);
        assert((front + back)[0] == front[0]);
        assert(encode_utf8(front + back) =~= encode_utf8(front) + encode_utf8(back));
    }
}

/// Two texts with the same bytes are the same text.
pub proof fn lemma_same_bytes_same_text(a: Seq<char>, b: Seq<char>)
    requires
        encode_utf8(a) == encode_utf8(b),
    ensures
        a == b,
{
    encode_utf8_decode_utf8(a);
    encode_utf8_decode_utf8(b);
}

/// The bytes of the joined texts are the joined bytes of the spans.
pub proof fn lemma_joined_text_bytes(spans: Seq<Span>)
    ensures
        encode_utf8(joined_text(spans)) == joined(spans_of(spans)),
    decreases spans.len(),
{
    if spans.len() > 0 {
        lemma_joined_text_bytes(spans.drop_last());
        lemma_encode_concat(joined_text(spans.drop_last()), spans.last().text@);
        assert(spans_of(spans).drop_last() =~= spans_of(spans.drop_last()));
    }
}

/// A frame has one row for each row of the viewport. A row within the
/// filtered view shows the line at its position, and the texts of its spans,
/// one after the other, give back that line exactly; a row beyond the view
/// is blank.
pub proof fn lemma_frame_spells_lines(view: AppView, rows: Seq<Row>, r: int)
    requires
        rows_of(rows) == view.frame(),
        0 <= r < rows.len(),
    ensures
        rows.len() == view.viewport_height,
        view.scroll + r >= view.visible().len() ==> rows[r] is Blank,
        view.scroll + r < view.visible().len() ==> rows[r] is Text && joined_text(rows[r]->0@)
            == view.lines[view.visible()[view.scroll + r]],
{
    let bytes = line_bytes(view.lines);
    assert(rows_of(rows).len() == rows.len());
    assert(view.frame().len() == view.viewport_height);
    assert(rows_of(rows)[r] == rows[r]@);
    if view.scroll + r < view.visible().len() {
        let line = view.visible()[view.scroll + r];
        assert(view.frame()[r] == RowView::Text(
            line_spans(bytes[line], view.hits(), view.match_cursor as int, line),
        ));
        lemma_visible_shape(bytes, encode_utf8(view.filter));
        lemma_hits_between_chars(view.lines, view.query);
        lemma_line_spans_joined(bytes, view.hits(), view.match_cursor as int, line);
        let spans = rows[r]->0@;
        lemma_joined_text_bytes(spans);
        lemma_same_bytes_same_text(joined_text(spans), view.lines[line]);
    } else {
        assert(view.frame()[r] == RowView::Blank);
    }
}

} // verus!
