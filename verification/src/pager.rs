//! The pager's state as it runs: the buffer, the view onto it, and what is
//! kept of the search and of the filtered view between key presses.

use vstd::prelude::*;
use vstd::utf8::encode_utf8;
use crate::filter::{
    count_visible, filtered_lines, lemma_visible_push, lemma_visible_shape, line_is_visible,
    position_in_view,
};
use crate::line_store::{line_bytes, texts, LineStore};
use crate::search::{hits_of, lemma_all_hits_push, push_line_matches, recompute, Hit, Match};
use crate::view_state::{advance, at_most, max_scroll_for, retreat, AppView, Mode};

verus! {

/// The pager's state: the buffer of lines and the view onto it.
pub struct App {
    lines: LineStore,
    viewport_height: usize,
    scroll: usize,
    mode: Mode,
    tailing: bool,
    filter: String,
    search_query: String,
    current_match: usize,
    matches: Vec<Match>,
    visible_count: usize,
}

impl View for App {
    type V = AppView;

    closed spec fn view(&self) -> AppView {
        AppView {
            lines: self.lines@,
            viewport_height: self.viewport_height as nat,
            scroll: self.scroll as nat,
            mode: self.mode,
            tailing: self.tailing,
            query: self.search_query@,
            filter: self.filter@,
            match_cursor: self.current_match as nat,
        }
    }
}

impl App {
    /// The match list that the state keeps is the one that the query and
    /// the buffer give.
    pub closed spec fn search_synced(&self) -> bool {
        hits_of(self.matches@) == self@.hits()
    }

    /// The count of visible lines that the state keeps is the one that the
    /// filter and the buffer give.
    pub closed spec fn view_synced(&self) -> bool {
        self.visible_count as nat == self@.visible().len()
    }

    /// The state is valid: what it keeps of the search and of the filtered
    /// view is up to date, and its view meets the invariant.
    pub open spec fn wf(&self) -> bool {
        &&& self.search_synced()
        &&& self.view_synced()
        &&& self@.wf()
    }

    /// The state at startup: an empty buffer, a viewport of height 0, mode
    /// `Tail` and tailing.
    pub fn new() -> (app: App)
        ensures
            app@ == AppView::initial(),
            app.wf(),
    {
        let app = App {
            lines: LineStore::new(),
            viewport_height: 0,
            scroll: 0,
            mode: Mode::Tail,
            tailing: true,
            filter: String::new(),
            search_query: String::new(),
            current_match: 0,
            matches: Vec::new(),
            visible_count: 0,
        };
        proof {
            assert(line_bytes(app@.lines) =~= Seq::<Seq<u8>>::empty());
            assert(hits_of(app.matches@) =~= Seq::<Hit>::empty());
        }
        app
    }

    /// Brings the scroll offset and the match cursor back into range.
    fn clamp(&mut self)
        requires
            old(self).search_synced(),
            old(self).view_synced(),
            old(self)@.tailing <==> old(self)@.mode is Tail,
        ensures
            final(self)@ == old(self)@.in_range(),
            final(self).wf(),
    {
        let limit: usize = max_scroll_for(self.visible_count, self.viewport_height);
        if self.scroll > limit {
            self.scroll = limit;
        }
        if self.current_match >= self.matches.len() {
            self.current_match = 0;
        }
    }

    /// The tail step: while tailing the view goes to the end; otherwise the
    /// scroll offset and the match cursor are brought back into range.
    fn settle(&mut self)
        requires
            old(self).search_synced(),
            old(self).view_synced(),
            old(self)@.tailing <==> old(self)@.mode is Tail,
        ensures
            final(self)@ == old(self)@.normalized(),
            final(self).wf(),
    {
        self.clamp();
        if self.tailing {
            self.scroll = max_scroll_for(self.visible_count, self.viewport_height);
        }
    }

    /// Takes a line that has arrived: it goes to the end of the buffer, the
    /// match list and the filtered view take it in, and while tailing the
    /// view follows.
    pub fn append(&mut self, line: String)
        requires
            old(self).wf(),
        ensures
            final(self)@ == old(self)@.append(line@),
            final(self).wf(),
    {
        let ghost before = line_bytes(self@.lines);
        let ghost added = encode_utf8(line@);
        self.lines.append(line);
        let index: usize = self.lines.len() - 1;
        proof {
            assert(line_bytes(self@.lines) =~= before.push(added));
            lemma_all_hits_push(before, added, encode_utf8(self@.query));
            lemma_visible_push(before, added, encode_utf8(self@.filter));
            lemma_visible_shape(before, encode_utf8(self@.filter));
        }
        let shown: bool = line_is_visible(
            self.lines.bytes_at(index),
            self.filter.as_str().as_bytes(),
        );
        if shown {
            self.visible_count = self.visible_count + 1;
        }
        push_line_matches(
            &mut self.matches,
            self.lines.bytes_at(index),
            self.search_query.as_str().as_bytes(),
            index,
        );
        self.settle();
    }

    /// The mode that the keyboard drives.
    pub fn mode(&self) -> (mode: Mode)
        ensures
            mode == self@.mode,
    {
        self.mode
    }

    /// The buffer of lines.
    pub fn lines(&self) -> (lines: &LineStore)
        ensures
            lines@ == self@.lines,
    {
        &self.lines
    }

    /// The height of the viewport, in rows.
    pub fn viewport_height(&self) -> (height: usize)
        ensures
            height == self@.viewport_height,
    {
        self.viewport_height
    }

    /// The scroll offset: the position, in the filtered view, of the line in
    /// the first row.
    pub fn scroll(&self) -> (offset: usize)
        ensures
            offset == self@.scroll,
    {
        self.scroll
    }

    /// Whether the view follows the end of the buffer.
    pub fn tailing(&self) -> (tailing: bool)
        ensures
            tailing == self@.tailing,
    {
        self.tailing
    }

    /// The filter.
    pub fn filter(&self) -> (filter: &str)
        ensures
            filter@ == self@.filter,
    {
        self.filter.as_str()
    }

    /// The query.
    pub fn search_query(&self) -> (query: &str)
        ensures
            query@ == self@.query,
    {
        self.search_query.as_str()
    }

    /// The match cursor: the index, in the match list, of the current match.
    pub fn current_match(&self) -> (cursor: usize)
        ensures
            cursor == self@.match_cursor,
    {
        self.current_match
    }

    /// The match list: every occurrence of the query in the buffer, ordered
    /// by line and then by start offset.
    pub fn matches(&self) -> (matches: &Vec<Match>)
        requires
            self.search_synced(),
        ensures
            hits_of(matches@) == self@.hits(),
    {
        &self.matches
    }

    /// The number of lines that the filter lets through.
    pub fn visible_len(&self) -> (count: usize)
        requires
            self.view_synced(),
        ensures
            count == self@.visible().len(),
    {
        self.visible_count
    }

    /// The largest scroll offset for the current filtered view and viewport.
    pub fn max_scroll(&self) -> (limit: usize)
        requires
            self.view_synced(),
        ensures
            limit == self@.max_scroll(),
    {
        max_scroll_for(self.visible_count, self.viewport_height)
    }

    /// The number of lines in the buffer.
    pub fn len(&self) -> (count: usize)
        ensures
            count == self@.lines.len(),
    {
        self.lines.len()
    }

    /// Sets the height of the viewport, in rows. While tailing the view goes
    /// to the end, so a call with the height as it is takes the tail step.
    pub fn resize(&mut self, height: usize)
        requires
            old(self).wf(),
        ensures
            final(self)@ == old(self)@.resize(height as nat),
            final(self).wf(),
    {
        self.viewport_height = height;
        self.settle();
    }

    /// Scrolls to the offset `position` of the filtered view, or to the
    /// largest offset where `position` lies beyond it. Only the offset
    /// changes: the mode and the tailing flag stay as they are.
    pub fn scroll_to(&mut self, position: usize)
        requires
            old(self).wf(),
        ensures
            final(self)@ == old(self)@.scroll_to(position as nat),
            final(self)@ == (AppView {
                scroll: at_most(position as nat, old(self)@.max_scroll()),
                ..old(self)@
            }),
            final(self).wf(),
    {
        let limit: usize = max_scroll_for(self.visible_count, self.viewport_height);
        self.scroll = if position <= limit {
            position
        } else {
            limit
        };
    }

    /// Scrolls towards the start by `amount` lines, stopping at the first.
    /// Only the offset changes: the mode and the tailing flag stay as they
    /// are.
    pub fn scroll_up(&mut self, amount: usize)
        requires
            old(self).wf(),
        ensures
            final(self)@ == old(self)@.scroll_up(amount as nat),
            final(self)@ == (AppView {
                scroll: if amount >= old(self)@.scroll {
                    0
                } else {
                    (old(self)@.scroll - amount) as nat
                },
                ..old(self)@
            }),
            final(self).wf(),
    {
        self.scroll = retreat(self.scroll, amount);
    }

    /// Scrolls towards the end by `amount` lines, stopping at `max_scroll`
    /// or at the largest offset, whichever is smaller. Only the offset
    /// changes: the mode and the tailing flag stay as they are.
    pub fn scroll_down(&mut self, amount: usize, max_scroll: usize)
        requires
            old(self).wf(),
        ensures
            final(self)@ == old(self)@.scroll_down(amount as nat, max_scroll as nat),
            final(self)@ == (AppView {
                scroll: at_most(
                    at_most((old(self)@.scroll + amount) as nat, max_scroll as nat),
                    old(self)@.max_scroll(),
                ),
                ..old(self)@
            }),
            final(self).wf(),
    {
        let limit: usize = max_scroll_for(self.visible_count, self.viewport_height);
        let target: usize = advance(self.scroll, amount, max_scroll);
        self.scroll = if target <= limit {
            target
        } else {
            limit
        };
    }

    /// Recomputes the match list from the query and the whole buffer. A
    /// cursor that lies beyond the new list returns to the first match.
    pub fn update_search(&mut self)
        requires
            old(self).view_synced(),
            old(self)@.tailing <==> old(self)@.mode is Tail,
        ensures
            final(self)@ == old(self)@.in_range(),
            final(self).wf(),
    {
        self.matches = recompute(&self.lines, self.search_query.as_str());
        self.clamp();
    }
}

impl App {
    /// A manual move to `position`, where movement keys act.
    fn move_to(&mut self, position: usize)
        requires
            old(self).wf(),
        ensures
            final(self)@ == old(self)@.moved_to(position as nat),
            final(self).wf(),
    {
        let movable: bool = match self.mode {
            Mode::Tail => true,
            Mode::Normal => true,
            _ => false,
        };
        if movable && self.visible_count > self.viewport_height {
            self.mode = Mode::Normal;
            self.tailing = false;
            self.scroll = position;
            self.settle();
        }
    }

    /// Moves the view one line towards the end. In `Tail` this ends tailing.
    /// Nothing happens in `Search` and `Filter`, nor where every visible line
    /// fits into the viewport.
    pub fn line_down(&mut self)
        requires
            old(self).wf(),
        ensures
            final(self)@ == old(self)@.line_down(),
            final(self).wf(),
    {
        let limit: usize = max_scroll_for(self.visible_count, self.viewport_height);
        let target: usize = advance(self.scroll, 1, limit);
        self.move_to(target);
    }

    /// Moves the view one line towards the start. In `Tail` this ends
    /// tailing. Nothing happens in `Search` and `Filter`, nor where every
    /// visible line fits into the viewport.
    pub fn line_up(&mut self)
        requires
            old(self).wf(),
        ensures
            final(self)@ == old(self)@.line_up(),
            final(self).wf(),
    {
        let target: usize = retreat(self.scroll, 1);
        self.move_to(target);
    }

    /// Moves the view half a viewport towards the end. In `Tail` this ends
    /// tailing. Nothing happens in `Search` and `Filter`, nor where every
    /// visible line fits into the viewport.
    pub fn half_page_down(&mut self)
        requires
            old(self).wf(),
        ensures
            final(self)@ == old(self)@.half_page_down(),
            final(self).wf(),
    {
        let limit: usize = max_scroll_for(self.visible_count, self.viewport_height);
        let target: usize = advance(self.scroll, self.viewport_height / 2, limit);
        self.move_to(target);
    }

    /// Moves the view half a viewport towards the start. In `Tail` this ends
    /// tailing. Nothing happens in `Search` and `Filter`, nor where every
    /// visible line fits into the viewport.
    pub fn half_page_up(&mut self)
        requires
            old(self).wf(),
        ensures
            final(self)@ == old(self)@.half_page_up(),
            final(self).wf(),
    {
        let target: usize = retreat(self.scroll, self.viewport_height / 2);
        self.move_to(target);
    }

    /// Moves the view to the first visible line. In `Tail` this ends
    /// tailing. Nothing happens in `Search` and `Filter`, nor where every
    /// visible line fits into the viewport.
    pub fn jump_top(&mut self)
        requires
            old(self).wf(),
        ensures
            final(self)@ == old(self)@.jump_top(),
            final(self).wf(),
    {
        self.move_to(0);
    }

    /// Moves the view to the last visible line and tails from there on.
    /// Nothing happens in `Search` and `Filter`, nor where every visible line
    /// fits into the viewport.
    pub fn jump_bottom(&mut self)
        requires
            old(self).wf(),
        ensures
            final(self)@ == old(self)@.jump_bottom(),
            final(self).wf(),
    {
        let movable: bool = match self.mode {
            Mode::Tail => true,
            Mode::Normal => true,
            _ => false,
        };
        if movable && self.visible_count > self.viewport_height {
            self.mode = Mode::Tail;
            self.tailing = true;
            self.settle();
        }
    }

    /// Puts the cursor on match `index` and scrolls to that match's line.
    fn jump_to_match(&mut self, index: usize)
        requires
            old(self).wf(),
            index < old(self)@.hits().len(),
        ensures
            final(self)@ == old(self)@.at_hit(index as nat),
            final(self).wf(),
    {
        let found: Match = self.matches[index];
        proof {
            assert(hits_of(self.matches@)[index as int] == found@);
        }
        let position: usize = position_in_view(&self.lines, self.filter.as_str(), found.line);
        self.current_match = index;
        self.scroll = position;
        self.mode = Mode::Normal;
        self.tailing = false;
        self.settle();
    }

    /// Moves the cursor to the next match, from the last to the first,
    /// scrolls to the matched line and leaves the state in `Normal`. Without
    /// matches nothing happens.
    pub fn next_match(&mut self)
        requires
            old(self).wf(),
        ensures
            final(self)@ == old(self)@.next_match(),
            final(self).wf(),
    {
        let count: usize = self.matches.len();
        if count > 0 {
            let index: usize = if self.current_match >= count - 1 {
                0
            } else {
                self.current_match + 1
            };
            self.jump_to_match(index);
        }
    }

    /// Moves the cursor to the previous match, from the first to the last,
    /// scrolls to the matched line and leaves the state in `Normal`. Without
    /// matches nothing happens.
    pub fn prev_match(&mut self)
        requires
            old(self).wf(),
        ensures
            final(self)@ == old(self)@.prev_match(),
            final(self).wf(),
    {
        let count: usize = self.matches.len();
        if count > 0 {
            let index: usize = if self.current_match == 0 {
                count - 1
            } else {
                self.current_match - 1
            };
            self.jump_to_match(index);
        }
    }

    /// Begins the entry of a search: from `Normal`, the query and the match
    /// list are emptied and the cursor returns to 0. In other modes nothing
    /// happens.
    pub fn enter_search(&mut self)
        requires
            old(self).wf(),
        ensures
            final(self)@ == old(self)@.enter_search(),
            final(self).wf(),
    {
        if let Mode::Normal = self.mode {
            self.search_query = String::new();
            self.current_match = 0;
            self.mode = Mode::Search;
            self.update_search();
        }
    }

    /// Begins the entry of a filter: from `Normal`, the filter is emptied. In
    /// other modes nothing happens.
    pub fn enter_filter(&mut self)
        requires
            old(self).wf(),
        ensures
            final(self)@ == old(self)@.enter_filter(),
            final(self).wf(),
    {
        if let Mode::Normal = self.mode {
            self.filter = String::new();
            self.mode = Mode::Filter;
            self.update_filter();
        }
    }

    /// Recounts the visible lines after the filter has changed, and brings
    /// the scroll offset back into range.
    fn update_filter(&mut self)
        requires
            old(self).search_synced(),
            old(self)@.tailing <==> old(self)@.mode is Tail,
        ensures
            final(self)@ == old(self)@.normalized(),
            final(self).wf(),
    {
        self.visible_count = count_visible(&self.lines, self.filter.as_str());
        self.settle();
    }

    /// Takes a typed character: in `Search` it goes to the end of the query
    /// and the match list is recomputed; in `Filter` it goes to the end of
    /// the filter. In other modes nothing happens.
    pub fn insert(&mut self, c: char)
        requires
            old(self).wf(),
        ensures
            final(self)@ == old(self)@.insert(c),
            final(self).wf(),
    {
        match self.mode {
            Mode::Search => {
                self.search_query.push(c);
                self.update_search();
            },
            Mode::Filter => {
                self.filter.push(c);
                self.update_filter();
            },
            _ => {},
        }
    }

    /// Takes back the last character of the query in `Search`, of the filter
    /// in `Filter`; an empty text stays empty. In other modes nothing
    /// happens.
    pub fn delete_last(&mut self)
        requires
            old(self).wf(),
        ensures
            final(self)@ == old(self)@.delete_last(),
            final(self).wf(),
    {
        match self.mode {
            Mode::Search => {
                if self.search_query.pop().is_some() {
                    self.update_search();
                }
            },
            Mode::Filter => {
                if self.filter.pop().is_some() {
                    self.update_filter();
                }
            },
            _ => {},
        }
    }

    /// Commits the text being typed and returns to `Normal`. From `Search`
    /// with matches, the view scrolls to the line of the current match. In
    /// `Tail` and `Normal` nothing happens.
    pub fn accept(&mut self)
        requires
            old(self).wf(),
        ensures
            final(self)@ == old(self)@.accept(),
            final(self).wf(),
    {
        match self.mode {
            Mode::Search => {
                if self.matches.len() > 0 {
                    self.jump_to_match(self.current_match);
                } else {
                    self.mode = Mode::Normal;
                }
            },
            Mode::Filter => {
                self.mode = Mode::Normal;
            },
            _ => {},
        }
    }

    /// Returns to `Normal` from any mode; tailing ends.
    pub fn cancel(&mut self)
        requires
            old(self).wf(),
        ensures
            final(self)@ == old(self)@.cancel(),
            final(self).wf(),
    {
        self.mode = Mode::Normal;
        self.tailing = false;
    }

    /// The lines to write out at exit: those that the filter lets through,
    /// in arrival order.
    pub fn emitted_lines(&self) -> (shown: Vec<String>)
        ensures
            texts(shown@) == self@.emitted(),
    {
        filtered_lines(&self.lines, self.filter.as_str())
    }
}

} // verus!
