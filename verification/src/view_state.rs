//! The view state as the contracts see it: what the operator looks at
//! (scroll offset, mode, tailing, query, filter, match cursor) over the
//! buffer of lines, the operations that change it, and what holds of them.

use vstd::prelude::*;
use vstd::utf8::encode_utf8;
use crate::filter::{
    lemma_empty_filter_shows_all, position_of, visible_count, visible_indices, visible_lines,
};
use crate::line_store::line_bytes;
use crate::search::{all_hits, lemma_all_hits_empty_needle, Hit};

verus! {

/// What the keyboard currently drives.
#[derive(Clone, Copy, Debug, PartialEq, Eq, Structural)]
pub enum Mode {
    /// The view follows the end of the buffer.
    Tail,
    /// Manual scrolling and match navigation.
    Normal,
    /// The query is being typed.
    Search,
    /// The filter is being typed.
    Filter,
}

impl Mode {
    /// The label that the status bar shows for the mode.
    pub fn status_text(&self) -> (label: &'static str)
        ensures
            label@ == match *self {
                Mode::Tail => "TAIL"@,
                Mode::Normal => "NORMAL"@,
                Mode::Search => "SEARCH"@,
                Mode::Filter => "FILTER"@,
            },
    {
        match self {
            Mode::Tail => "TAIL",
            Mode::Normal => "NORMAL",
            Mode::Search => "SEARCH",
            Mode::Filter => "FILTER",
        }
    }
}

/// The largest scroll offset: the number of visible lines that do not fit
/// into the viewport.
pub open spec fn max_scroll(count: nat, height: nat) -> nat {
    if count > height {
        (count - height) as nat
    } else {
        0
    }
}

/// The smaller of two offsets.
pub open spec fn at_most(offset: nat, limit: nat) -> nat {
    if offset <= limit {
        offset
    } else {
        limit
    }
}

/// `cursor` moved one match forward in a list of `len` matches, from the
/// last to the first.
pub open spec fn cursor_after(cursor: nat, len: nat) -> nat {
    if cursor + 1 >= len {
        0
    } else {
        cursor + 1
    }
}

/// `cursor` moved one match back in a list of `len` matches, from the first
/// to the last.
pub open spec fn cursor_before(cursor: nat, len: nat) -> nat {
    if cursor == 0 {
        (len - 1) as nat
    } else {
        (cursor - 1) as nat
    }
}

/// The state as the contracts see it. The match list and the filtered view
/// are not part of it: they follow from the lines, the query and the filter.
pub struct AppView {
    pub lines: Seq<Seq<char>>,
    pub viewport_height: nat,
    pub scroll: nat,
    pub mode: Mode,
    pub tailing: bool,
    pub query: Seq<char>,
    pub filter: Seq<char>,
    pub match_cursor: nat,
}

impl AppView {
    /// The state at startup: no line, tailing.
    pub open spec fn initial() -> AppView {
        AppView {
            lines: Seq::empty(),
            viewport_height: 0,
            scroll: 0,
            mode: Mode::Tail,
            tailing: true,
            query: Seq::empty(),
            filter: Seq::empty(),
            match_cursor: 0,
        }
    }

    /// The match list: every occurrence of the query in the buffer.
    pub open spec fn hits(self) -> Seq<Hit> {
        all_hits(line_bytes(self.lines), encode_utf8(self.query))
    }

    /// The absolute indices of the lines that the filter lets through.
    pub open spec fn visible(self) -> Seq<int> {
        visible_indices(line_bytes(self.lines), encode_utf8(self.filter))
    }

    /// The largest scroll offset for the current filtered view and viewport.
    pub open spec fn max_scroll(self) -> nat {
        max_scroll(self.visible().len(), self.viewport_height)
    }

    /// Whether the filtered view has more lines than the viewport shows.
    pub open spec fn overflows(self) -> bool {
        self.visible().len() > self.viewport_height
    }

    /// The position, in the filtered view, of the line of match `index`.
    pub open spec fn position_of_hit(self, index: int) -> nat {
        position_of(line_bytes(self.lines), encode_utf8(self.filter), self.hits()[index].line)
    }

    /// The state with the scroll offset and the match cursor brought back
    /// into range: an offset beyond the largest one becomes the largest, and
    /// a cursor beyond the match list returns to the first match.
    pub open spec fn in_range(self) -> AppView {
        AppView {
            scroll: at_most(self.scroll, self.max_scroll()),
            match_cursor: if self.match_cursor < self.hits().len() {
                self.match_cursor
            } else {
                0
            },
            ..self
        }
    }

    /// The tail step, taken where the extent of the view changes: while
    /// tailing the offset becomes the largest one, so that the view shows the
    /// end; otherwise the state is brought back into range.
    pub open spec fn normalized(self) -> AppView {
        AppView {
            scroll: if self.tailing {
                self.max_scroll()
            } else {
                at_most(self.scroll, self.max_scroll())
            },
            ..self.in_range()
        }
    }

    /// The invariant of the state: tailing goes with the mode `Tail`, the
    /// scroll offset lies in `[0, max_scroll]`, and the cursor points into
    /// the match list where there is one.
    pub open spec fn wf(self) -> bool {
        &&& self.tailing <==> self.mode is Tail
        &&& self.scroll <= self.max_scroll()
        &&& self.match_cursor < self.hits().len() || self.match_cursor == 0
    }

    /// A line arrives. While tailing the view follows to the new end.
    pub open spec fn append(self, line: Seq<char>) -> AppView {
        AppView { lines: self.lines.push(line), ..self }.normalized()
    }

    /// The viewport takes a new height. While tailing the view goes to the
    /// end.
    pub open spec fn resize(self, height: nat) -> AppView {
        AppView { viewport_height: height, ..self }.normalized()
    }

    /// Scroll to an absolute offset, or to the largest offset where the
    /// position lies beyond it. Nothing but the offset changes.
    pub open spec fn scroll_to(self, position: nat) -> AppView {
        AppView { scroll: at_most(position, self.max_scroll()), ..self }
    }

    /// Scroll towards the start by `amount`, stopping at the first line.
    /// Nothing but the offset changes.
    pub open spec fn scroll_up(self, amount: nat) -> AppView {
        AppView {
            scroll: if amount >= self.scroll {
                0
            } else {
                (self.scroll - amount) as nat
            },
            ..self
        }
    }

    /// Scroll towards the end by `amount`, stopping at `limit` or at the
    /// largest offset, whichever is smaller. Nothing but the offset changes.
    pub open spec fn scroll_down(self, amount: nat, limit: nat) -> AppView {
        AppView {
            scroll: at_most(at_most(self.scroll + amount, limit), self.max_scroll()),
            ..self
        }
    }

    /// Whether movement keys act: in `Tail` and `Normal`, and only where the
    /// filtered view has more lines than the viewport.
    pub open spec fn can_move(self) -> bool {
        (self.mode is Tail || self.mode is Normal) && self.overflows()
    }

    /// The state after a manual move to `position`: tailing ends.
    pub open spec fn moved_to(self, position: nat) -> AppView {
        if self.can_move() {
            AppView { mode: Mode::Normal, tailing: false, scroll: position, ..self }.normalized()
        } else {
            self
        }
    }

    /// One line towards the end.
    pub open spec fn line_down(self) -> AppView {
        self.moved_to(self.scroll + 1)
    }

    /// One line towards the start.
    pub open spec fn line_up(self) -> AppView {
        self.moved_to(
            if self.scroll == 0 {
                0
            } else {
                (self.scroll - 1) as nat
            },
        )
    }

    /// Half a viewport towards the end.
    pub open spec fn half_page_down(self) -> AppView {
        self.moved_to(self.scroll + self.viewport_height / 2)
    }

    /// Half a viewport towards the start.
    pub open spec fn half_page_up(self) -> AppView {
        self.moved_to(
            if self.viewport_height / 2 >= self.scroll {
                0
            } else {
                (self.scroll - self.viewport_height / 2) as nat
            },
        )
    }

    /// To the first line.
    pub open spec fn jump_top(self) -> AppView {
        self.moved_to(0)
    }

    /// To the last line; the view tails again.
    pub open spec fn jump_bottom(self) -> AppView {
        if self.can_move() {
            AppView { mode: Mode::Tail, tailing: true, ..self }.normalized()
        } else {
            self
        }
    }

    /// The state with the cursor on match `index` and that match's line
    /// scrolled to, in `Normal` mode.
    pub open spec fn at_hit(self, index: nat) -> AppView {
        AppView {
            match_cursor: index,
            scroll: self.position_of_hit(index as int),
            mode: Mode::Normal,
            tailing: false,
            ..self
        }.normalized()
    }

    /// The cursor moves to the next match, from the last to the first, and
    /// the view scrolls to it. Without matches nothing changes.
    pub open spec fn next_match(self) -> AppView {
        if self.hits().len() > 0 {
            self.at_hit(cursor_after(self.match_cursor, self.hits().len()))
        } else {
            self
        }
    }

    /// The cursor moves to the previous match, from the first to the last,
    /// and the view scrolls to it. Without matches nothing changes.
    pub open spec fn prev_match(self) -> AppView {
        if self.hits().len() > 0 {
            self.at_hit(cursor_before(self.match_cursor, self.hits().len()))
        } else {
            self
        }
    }

    /// Entry of a search begins: from `Normal`, with an empty query and the
    /// cursor on the first match.
    pub open spec fn enter_search(self) -> AppView {
        if self.mode is Normal {
            AppView { mode: Mode::Search, query: Seq::empty(), match_cursor: 0, ..self }.in_range()
        } else {
            self
        }
    }

    /// Entry of a filter begins: from `Normal`, with an empty filter.
    pub open spec fn enter_filter(self) -> AppView {
        if self.mode is Normal {
            AppView { mode: Mode::Filter, filter: Seq::empty(), ..self }.normalized()
        } else {
            self
        }
    }

    /// A character is typed: it goes to the end of the query in `Search` and
    /// of the filter in `Filter`.
    pub open spec fn insert(self, c: char) -> AppView {
        match self.mode {
            Mode::Search => AppView { query: self.query.push(c), ..self }.in_range(),
            Mode::Filter => AppView { filter: self.filter.push(c), ..self }.normalized(),
            _ => self,
        }
    }

    /// The last character of the text being typed goes; an empty text stays
    /// empty.
    pub open spec fn delete_last(self) -> AppView {
        match self.mode {
            Mode::Search => if self.query.len() > 0 {
                AppView { query: self.query.drop_last(), ..self }.in_range()
            } else {
                self
            },
            Mode::Filter => if self.filter.len() > 0 {
                AppView { filter: self.filter.drop_last(), ..self }.normalized()
            } else {
                self
            },
            _ => self,
        }
    }

    /// The text being typed is committed: back to `Normal`, and from `Search`
    /// with matches the view scrolls to the line of the current match.
    pub open spec fn accept(self) -> AppView {
        match self.mode {
            Mode::Search => if self.hits().len() > 0 {
                self.at_hit(self.match_cursor)
            } else {
                AppView { mode: Mode::Normal, ..self }
            },
            Mode::Filter => AppView { mode: Mode::Normal, ..self },
            _ => self,
        }
    }

    /// Back to `Normal` from any mode; tailing ends.
    pub open spec fn cancel(self) -> AppView {
        AppView { mode: Mode::Normal, tailing: false, ..self }
    }

    /// What is written out at exit: the lines that the filter lets through,
    /// in arrival order.
    pub open spec fn emitted(self) -> Seq<Seq<char>> {
        visible_lines(self.lines, self.filter)
    }
}

/// The largest scroll offset for `count` visible lines in a viewport of
/// `height` rows.
pub fn max_scroll_for(count: usize, height: usize) -> (limit: usize)
    ensures
        limit == max_scroll(count as nat, height as nat),
{
    if count > height {
        count - height
    } else {
        0
    }
}

/// `offset + amount`, or `limit` where that is smaller.
pub fn advance(offset: usize, amount: usize, limit: usize) -> (target: usize)
    ensures
        target == at_most((offset + amount) as nat, limit as nat),
{
    if amount > limit || offset > limit - amount {
        limit
    } else {
        offset + amount
    }
}

/// `offset - amount`, or 0 where `amount` is larger.
pub fn retreat(offset: usize, amount: usize) -> (target: usize)
    ensures
        target == if amount >= offset {
            0
        } else {
            offset - amount
        },
{
    if amount >= offset {
        0
    } else {
        offset - amount
    }
}

/// A scroll operation.
pub enum ScrollOp {
    /// To an absolute offset.
    To(nat),
    /// Towards the start by an amount.
    Up(nat),
    /// Towards the end by an amount, up to a limit.
    Down(nat, nat),
    LineDown,
    LineUp,
    HalfPageDown,
    HalfPageUp,
    JumpTop,
    JumpBottom,
}

impl AppView {
    /// The state after the scroll operation `op`.
    pub open spec fn scrolled(self, op: ScrollOp) -> AppView {
        match op {
            ScrollOp::To(position) => self.scroll_to(position),
            ScrollOp::Up(amount) => self.scroll_up(amount),
            ScrollOp::Down(amount, limit) => self.scroll_down(amount, limit),
            ScrollOp::LineDown => self.line_down(),
            ScrollOp::LineUp => self.line_up(),
            ScrollOp::HalfPageDown => self.half_page_down(),
            ScrollOp::HalfPageUp => self.half_page_up(),
            ScrollOp::JumpTop => self.jump_top(),
            ScrollOp::JumpBottom => self.jump_bottom(),
        }
    }

    /// The state after the scroll operations `ops`, one after the other.
    pub open spec fn scrolled_all(self, ops: Seq<ScrollOp>) -> AppView
        decreases ops.len(),
    {
        if ops.len() == 0 {
            self
        } else {
            self.scrolled_all(ops.drop_last()).scrolled(ops.last())
        }
    }
}

/// A scroll operation leaves a valid state valid. It changes neither the
/// buffer nor the query, the filter or the viewport.
pub proof fn lemma_scrolled_wf(view: AppView, op: ScrollOp)
    requires
        view.wf(),
    ensures
        view.scrolled(op).wf(),
        view.scrolled(op).lines == view.lines,
        view.scrolled(op).filter == view.filter,
        view.scrolled(op).query == view.query,
        view.scrolled(op).viewport_height == view.viewport_height,
{
}

/// A scroll to an absolute offset, or by an amount, is applied in every
/// mode, tailing or not: it sets the offset and leaves the mode, the tailing
/// flag and the rest of the state as they were. The new offset is the
/// position asked for wherever that lies within range.
pub proof fn lemma_scroll_request_applied(view: AppView, position: nat, amount: nat, limit: nat)
    requires
        view.wf(),
    ensures
        view.scroll_to(position) == (AppView {
            scroll: at_most(position, view.max_scroll()),
            ..view
        }),
        position <= view.max_scroll() ==> view.scroll_to(position).scroll == position,
        view.scroll_up(amount) == (AppView {
            scroll: if amount >= view.scroll {
                0
            } else {
                (view.scroll - amount) as nat
            },
            ..view
        }),
        view.scroll_down(amount, limit) == (AppView {
            scroll: at_most(at_most(view.scroll + amount, limit), view.max_scroll()),
            ..view
        }),
        limit <= view.max_scroll() ==> view.scroll_down(amount, limit).scroll == at_most(
            view.scroll + amount,
            limit,
        ),
{
}

/// After any sequence of scroll operations the scroll offset lies between 0
/// and the number of visible lines that do not fit into the viewport.
pub proof fn lemma_scroll_in_bounds(view: AppView, ops: Seq<ScrollOp>)
    requires
        view.wf(),
    ensures
        view.scrolled_all(ops).wf(),
        0 <= view.scrolled_all(ops).scroll <= max_scroll(
            visible_count(line_bytes(view.lines), encode_utf8(view.filter)),
            view.viewport_height,
        ),
        view.scrolled_all(ops).lines == view.lines,
        view.scrolled_all(ops).filter == view.filter,
        view.scrolled_all(ops).viewport_height == view.viewport_height,
    decreases ops.len(),
{
    if ops.len() > 0 {
        lemma_scroll_in_bounds(view, ops.drop_last());
        lemma_scrolled_wf(view.scrolled_all(ops.drop_last()), ops.last());
    }
}

/// Moving the cursor to the next match and then to the previous one, or the
/// other way round, returns it to where it was, as long as the match list
/// stays the same. At the ends of the list the cursor wraps: the next match
/// after the last is the first, and the previous one before the first is the
/// last.
pub proof fn lemma_next_prev_match(view: AppView)
    requires
        view.wf(),
    ensures
        view.next_match().hits() == view.hits(),
        view.prev_match().hits() == view.hits(),
        view.next_match().prev_match().match_cursor == view.match_cursor,
        view.prev_match().next_match().match_cursor == view.match_cursor,
        view.hits().len() > 0 && view.match_cursor == view.hits().len() - 1
            ==> view.next_match().match_cursor == 0,
        view.hits().len() > 0 && view.match_cursor == 0 ==> view.prev_match().match_cursor
            == view.hits().len() - 1,
        view.hits().len() > 0 && view.match_cursor + 1 < view.hits().len()
            ==> view.next_match().match_cursor == view.match_cursor + 1,
        view.hits().len() > 0 && view.match_cursor > 0 ==> view.prev_match().match_cursor
            == view.match_cursor - 1,
{
}

/// Setting a filter and then clearing it restores the full sequence of
/// lines, in arrival order and in full number: with an empty filter the
/// filtered view is the whole buffer, whatever the filter was before.
pub proof fn lemma_filter_round_trip(view: AppView, filter: Seq<char>)
    ensures
        ({
            let filtered = AppView { filter, ..view };
            let cleared = AppView { filter: Seq::empty(), ..filtered };
            &&& filtered.lines == view.lines
            &&& cleared.lines == view.lines
            &&& cleared.visible() == Seq::new(view.lines.len(), |i: int| i)
            &&& cleared.emitted() == view.lines
        }),
{
    let cleared = AppView { filter: Seq::empty(), ..view };
    lemma_empty_filter_shows_all(
        line_bytes(view.lines),
        encode_utf8(Seq::<char>::empty()),
    );
    assert(cleared.emitted() =~= view.lines);
}

/// While a filter is typed, the buffer stays as it is, and once the filter
/// is empty again every line is visible.
pub proof fn lemma_filter_entry_keeps_lines(view: AppView, c: char)
    requires
        view.mode is Filter,
    ensures
        view.insert(c).lines == view.lines,
        view.insert(c).filter == view.filter.push(c),
        view.insert(c).delete_last().filter == view.filter,
        view.delete_last().lines == view.lines,
        view.filter.len() == 0 ==> view.visible() == Seq::new(view.lines.len(), |i: int| i),
{
    assert(view.filter.push(c).drop_last() =~= view.filter);
    if view.filter.len() == 0 {
        lemma_empty_filter_shows_all(
            line_bytes(view.lines),
            encode_utf8(view.filter),
        );
    }
}

/// An empty query matches nothing: while the query is empty the match list
/// is empty.
pub proof fn lemma_empty_query_has_no_hits(view: AppView)
    requires
        view.query.len() == 0,
    ensures
        view.hits().len() == 0,
{
    lemma_all_hits_empty_needle(line_bytes(view.lines), encode_utf8(view.query));
}

/// While the view tails, it shows the end of the filtered view after every
/// step that changes the extent of the view: after a line has arrived, after
/// the viewport has changed and after a jump to the end, the scroll offset
/// is the largest one, so that the last row of a full viewport holds the
/// last visible line.
pub proof fn lemma_tailing_shows_end(view: AppView, line: Seq<char>, height: nat)
    ensures
        view.tailing ==> view.append(line).tailing && view.append(line).scroll == view.append(
            line,
        ).max_scroll(),
        view.tailing ==> view.resize(height).tailing && view.resize(height).scroll == view.resize(
            height,
        ).max_scroll(),
        view.can_move() ==> view.jump_bottom().tailing && view.jump_bottom().scroll
            == view.jump_bottom().max_scroll(),
        view.tailing && view.resize(height).overflows() ==> view.resize(height).scroll + height
            == view.resize(height).visible().len(),
        view.tailing && view.append(line).overflows() ==> view.append(line).scroll
            + view.viewport_height == view.append(line).visible().len(),
{
}

} // verus!
