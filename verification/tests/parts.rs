use tailpager::filter::{
    absolute_index, count_visible, filtered_lines, line_is_visible, position_in_view,
    visible_indices_of,
};
use tailpager::frame::{build_frame, build_spans};
use tailpager::input::command_for;
use tailpager::search::{push_line_matches, recompute};
use tailpager::text::{contains_bytes, find_from, matches_at, slice_text};
use tailpager::view_state::{advance, max_scroll_for, retreat};
use tailpager::{Command, Key, LineStore, Match, Mode, Row, Span};

fn store_of(lines: &[&str]) -> LineStore {
    let mut store = LineStore::new();
    for line in lines {
        store.append(line.to_string());
    }
    store
}

#[test]
fn store_keeps_lines_in_arrival_order() {
    let mut store = LineStore::new();
    assert!(store.is_empty());
    assert_eq!(store.len(), 0);
    assert_eq!(store.read_all(), Vec::<String>::new());
    store.append("one".to_string());
    assert_eq!(store.len(), 1);
    store.append("".to_string());
    store.append("three".to_string());
    assert_eq!(store.len(), 3);
    assert!(!store.is_empty());
    assert_eq!(store.read_all(), vec!["one".to_string(), "".to_string(), "three".to_string()]);
    assert_eq!(store.get(0), Some(&"one".to_string()));
    assert_eq!(store.get(2), Some(&"three".to_string()));
    assert_eq!(store.get(3), None);
    assert_eq!(store.bytes_at(2), b"three");
    assert_eq!(store.text_at(1), "");
    assert_eq!(store.text_at(2), "three");
}

#[test]
fn store_reads_what_arrived_after_an_index() {
    let store = store_of(&["one", "two", "three"]);
    assert_eq!(
        store.read_from(0),
        vec!["one".to_string(), "two".to_string(), "three".to_string()]
    );
    assert_eq!(store.read_from(1), vec!["two".to_string(), "three".to_string()]);
    assert_eq!(store.read_from(2), vec!["three".to_string()]);
    assert_eq!(store.read_from(3), Vec::<String>::new());
    assert_eq!(store.read_from(4), Vec::<String>::new());
    assert_eq!(store.read_from(usize::MAX), Vec::<String>::new());
    assert_eq!(LineStore::new().read_from(0), Vec::<String>::new());
}

#[test]
fn store_len_never_decreases() {
    let mut store = LineStore::new();
    let mut before = store.len();
    for i in 0..50 {
        store.append(format!("{}", i));
        assert!(store.len() >= before);
        assert_eq!(store.len(), i + 1);
        before = store.len();
    }
}

#[test]
fn matches_at_compares_bytes() {
    assert!(matches_at(b"hello", b"ell", 1));
    assert!(!matches_at(b"hello", b"ell", 0));
    assert!(!matches_at(b"hello", b"Ell", 1));
    assert!(matches_at(b"hello", b"", 5));
    assert!(!matches_at(b"hello", b"", 6));
    assert!(!matches_at(b"hello", b"lo", 4));
    assert!(matches_at(b"hello", b"hello", 0));
    assert!(!matches_at(b"hello", b"hello!", 0));
    assert!(!matches_at(b"", b"a", 0));
    assert!(!matches_at(b"abc", b"c", usize::MAX));
}

#[test]
fn find_from_gives_the_first_offset() {
    assert_eq!(find_from(b"abcabc", b"bc", 0), Some(1));
    assert_eq!(find_from(b"abcabc", b"bc", 1), Some(1));
    assert_eq!(find_from(b"abcabc", b"bc", 2), Some(4));
    assert_eq!(find_from(b"abcabc", b"bc", 5), None);
    assert_eq!(find_from(b"abcabc", b"x", 0), None);
    assert_eq!(find_from(b"abc", b"", 3), Some(3));
    assert_eq!(find_from(b"abc", b"", 4), None);
    assert_eq!(find_from(b"", b"", 0), Some(0));
    assert_eq!(find_from(b"ab", b"abc", 0), None);
}

#[test]
fn contains_is_case_sensitive() {
    assert!(contains_bytes(b"banana", b"an"));
    assert!(!contains_bytes(b"banana", b"AN"));
    assert!(contains_bytes(b"banana", b""));
    assert!(contains_bytes(b"", b""));
    assert!(!contains_bytes(b"", b"a"));
    assert!(contains_bytes(b"banana", b"banana"));
    assert!(!contains_bytes(b"banana", b"bananas"));
}

#[test]
fn recompute_orders_by_line_and_start() {
    let store = store_of(&["foo", "bar", "foobar", "xfoofoo"]);
    assert_eq!(
        recompute(&store, "foo"),
        vec![
            Match { line: 0, start: 0, end: 3 },
            Match { line: 2, start: 0, end: 3 },
            Match { line: 3, start: 1, end: 4 },
            Match { line: 3, start: 4, end: 7 },
        ]
    );
}

#[test]
fn recompute_skips_overlapping_occurrences() {
    let store = store_of(&["aaaaa", "aa", "a", "baab"]);
    assert_eq!(
        recompute(&store, "aa"),
        vec![
            Match { line: 0, start: 0, end: 2 },
            Match { line: 0, start: 2, end: 4 },
            Match { line: 1, start: 0, end: 2 },
            Match { line: 3, start: 1, end: 3 },
        ]
    );
    let store = store_of(&["abababa"]);
    assert_eq!(
        recompute(&store, "aba"),
        vec![Match { line: 0, start: 0, end: 3 }, Match { line: 0, start: 4, end: 7 }]
    );
}

#[test]
fn recompute_gives_slices_equal_to_the_query() {
    let lines = ["the cat sat", "on the mat", "", "that", "the the the"];
    let store = store_of(&lines);
    for query in ["the", "at", "t", " ", "the the", "that"] {
        let found = recompute(&store, query);
        assert!(!found.is_empty());
        for m in found.iter() {
            assert!(m.start < m.end);
            assert_eq!(&lines[m.line].as_bytes()[m.start..m.end], query.as_bytes());
        }
        for pair in found.windows(2) {
            assert!((pair[0].line, pair[0].start) < (pair[1].line, pair[1].start));
            if pair[0].line == pair[1].line {
                assert!(pair[0].end <= pair[1].start);
            }
        }
    }
}

#[test]
fn an_empty_query_matches_nothing() {
    let store = store_of(&["foo", "", "bar"]);
    assert_eq!(recompute(&store, ""), Vec::<Match>::new());
    assert_eq!(recompute(&LineStore::new(), "foo"), Vec::<Match>::new());
}

#[test]
fn offsets_count_bytes() {
    let store = store_of(&["caf\u{e9} caf\u{e9}", "\u{e9}"]);
    assert_eq!(
        recompute(&store, "\u{e9}"),
        vec![
            Match { line: 0, start: 3, end: 5 },
            Match { line: 0, start: 9, end: 11 },
            Match { line: 1, start: 0, end: 2 },
        ]
    );
    assert_eq!(recompute(&store, "f\u{e9} "), vec![Match { line: 0, start: 2, end: 6 }]);
}

#[test]
fn push_line_matches_appends() {
    let mut found = vec![Match { line: 7, start: 1, end: 2 }];
    push_line_matches(&mut found, b"xyxy", b"xy", 9);
    assert_eq!(
        found,
        vec![
            Match { line: 7, start: 1, end: 2 },
            Match { line: 9, start: 0, end: 2 },
            Match { line: 9, start: 2, end: 4 },
        ]
    );
    push_line_matches(&mut found, b"xyxy", b"", 10);
    push_line_matches(&mut found, b"xy", b"xyz", 11);
    assert_eq!(found.len(), 3);
}

#[test]
fn visibility_of_a_line() {
    assert!(line_is_visible(b"banana", b""));
    assert!(line_is_visible(b"", b""));
    assert!(line_is_visible(b"banana", b"nan"));
    assert!(!line_is_visible(b"banana", b"nab"));
    assert!(!line_is_visible(b"", b"a"));
}

#[test]
fn visible_indices_are_ascending_and_complete() {
    let store = store_of(&["apple", "banana", "cherry", "mango", "kiwi"]);
    assert_eq!(visible_indices_of(&store, ""), vec![0, 1, 2, 3, 4]);
    assert_eq!(visible_indices_of(&store, "an"), vec![1, 3]);
    assert_eq!(visible_indices_of(&store, "e"), vec![0, 2]);
    assert_eq!(visible_indices_of(&store, "zz"), Vec::<usize>::new());
    assert_eq!(count_visible(&store, "an"), 2);
    assert_eq!(count_visible(&store, ""), 5);
    assert_eq!(count_visible(&store, "zz"), 0);
}

#[test]
fn positions_and_indices_map_to_each_other() {
    let store = store_of(&["apple", "banana", "cherry", "mango", "kiwi"]);
    assert_eq!(absolute_index(&store, "an", 0), Some(1));
    assert_eq!(absolute_index(&store, "an", 1), Some(3));
    assert_eq!(absolute_index(&store, "an", 2), None);
    assert_eq!(absolute_index(&store, "", 4), Some(4));
    assert_eq!(absolute_index(&store, "", 5), None);
    assert_eq!(position_in_view(&store, "an", 0), 0);
    assert_eq!(position_in_view(&store, "an", 1), 0);
    assert_eq!(position_in_view(&store, "an", 2), 1);
    assert_eq!(position_in_view(&store, "an", 3), 1);
    assert_eq!(position_in_view(&store, "an", 4), 2);
    assert_eq!(position_in_view(&store, "an", 5), 2);
    assert_eq!(position_in_view(&store, "an", 600), 2);
    for filter in ["", "an", "e", "i"] {
        let shown = visible_indices_of(&store, filter);
        for (position, line) in shown.iter().enumerate() {
            assert_eq!(position_in_view(&store, filter, *line), position);
            assert_eq!(absolute_index(&store, filter, position), Some(*line));
        }
    }
}

#[test]
fn filtered_lines_keep_arrival_order() {
    let store = store_of(&["cat", "dog", "bat"]);
    assert_eq!(filtered_lines(&store, "a"), vec!["cat".to_string(), "bat".to_string()]);
    assert_eq!(
        filtered_lines(&store, ""),
        vec!["cat".to_string(), "dog".to_string(), "bat".to_string()]
    );
    assert_eq!(filtered_lines(&store, "A"), Vec::<String>::new());
}

#[test]
fn scroll_arithmetic() {
    assert_eq!(max_scroll_for(10, 4), 6);
    assert_eq!(max_scroll_for(4, 4), 0);
    assert_eq!(max_scroll_for(0, 4), 0);
    assert_eq!(max_scroll_for(3, 0), 3);
    assert_eq!(advance(2, 3, 10), 5);
    assert_eq!(advance(8, 3, 10), 10);
    assert_eq!(advance(12, 0, 10), 10);
    assert_eq!(advance(usize::MAX, usize::MAX, usize::MAX), usize::MAX);
    assert_eq!(advance(1, usize::MAX, 7), 7);
    assert_eq!(retreat(5, 2), 3);
    assert_eq!(retreat(5, 5), 0);
    assert_eq!(retreat(5, 9), 0);
    assert_eq!(retreat(0, 0), 0);
}

#[test]
fn bindings_in_normal() {
    let table = [
        ('q', Command::Quit),
        ('n', Command::NextMatch),
        ('N', Command::PrevMatch),
        ('f', Command::EnterSearch),
        ('/', Command::EnterFilter),
        ('j', Command::LineDown),
        ('k', Command::LineUp),
        ('d', Command::HalfPageDown),
        ('u', Command::HalfPageUp),
        ('g', Command::JumpTop),
        ('G', Command::JumpBottom),
        ('x', Command::Ignore),
        ('Q', Command::Ignore),
    ];
    for (c, command) in table {
        assert_eq!(command_for(Mode::Normal, Key::Char(c)), command);
    }
    assert_eq!(command_for(Mode::Normal, Key::Esc), Command::Cancel);
    assert_eq!(command_for(Mode::Normal, Key::Enter), Command::Ignore);
    assert_eq!(command_for(Mode::Normal, Key::Backspace), Command::Ignore);
    assert_eq!(command_for(Mode::Normal, Key::Other), Command::Ignore);
}

#[test]
fn bindings_in_tail() {
    let table = [
        ('q', Command::Ignore),
        ('n', Command::Ignore),
        ('N', Command::Ignore),
        ('f', Command::Ignore),
        ('/', Command::Ignore),
        ('j', Command::LineDown),
        ('k', Command::LineUp),
        ('d', Command::HalfPageDown),
        ('u', Command::HalfPageUp),
        ('g', Command::JumpTop),
        ('G', Command::JumpBottom),
    ];
    for (c, command) in table {
        assert_eq!(command_for(Mode::Tail, Key::Char(c)), command);
    }
    assert_eq!(command_for(Mode::Tail, Key::Esc), Command::Cancel);
    assert_eq!(command_for(Mode::Tail, Key::Enter), Command::Ignore);
    assert_eq!(command_for(Mode::Tail, Key::Backspace), Command::Ignore);
    assert_eq!(command_for(Mode::Tail, Key::Other), Command::Ignore);
}

#[test]
fn bindings_while_typing() {
    for mode in [Mode::Search, Mode::Filter] {
        for c in ['q', 'n', 'j', 'G', '/', 'f', ' ', '\u{e9}'] {
            assert_eq!(command_for(mode, Key::Char(c)), Command::Insert(c));
        }
        assert_eq!(command_for(mode, Key::Esc), Command::Cancel);
        assert_eq!(command_for(mode, Key::Enter), Command::Accept);
        assert_eq!(command_for(mode, Key::Backspace), Command::DeleteLast);
        assert_eq!(command_for(mode, Key::Other), Command::Ignore);
    }
}

#[test]
fn spans_cover_the_line() {
    let matches = vec![
        Match { line: 0, start: 0, end: 1 },
        Match { line: 1, start: 2, end: 4 },
        Match { line: 1, start: 4, end: 6 },
        Match { line: 2, start: 0, end: 1 },
    ];
    let spans = build_spans("..abab..", &matches, 2, 1);
    assert_eq!(
        spans,
        vec![
            Span { text: "..".to_string(), highlighted: false, is_current_match: false },
            Span { text: "ab".to_string(), highlighted: true, is_current_match: false },
            Span { text: "ab".to_string(), highlighted: true, is_current_match: true },
            Span { text: "..".to_string(), highlighted: false, is_current_match: false },
        ]
    );
    let joined: String = spans.iter().map(|span| span.text.as_str()).collect();
    assert_eq!(joined, "..abab..");
    assert_eq!(
        build_spans("plain", &matches, 0, 5),
        vec![Span { text: "plain".to_string(), highlighted: false, is_current_match: false }]
    );
    assert_eq!(
        build_spans("", &matches, 0, 5),
        vec![Span { text: String::new(), highlighted: false, is_current_match: false }]
    );
    assert_eq!(
        build_spans("a", &matches, 0, 0),
        vec![Span { text: "a".to_string(), highlighted: true, is_current_match: true }]
    );
}

#[test]
fn frame_has_one_row_per_viewport_row() {
    let store = store_of(&["one", "two", "three", "four"]);
    let matches = recompute(&store, "o");
    let visible = visible_indices_of(&store, "o");
    assert_eq!(visible, vec![0, 1, 3]);
    let rows = build_frame(&store, &visible, 1, 4, &matches, 1);
    assert_eq!(
        rows,
        vec![
            Row::Text(vec![
                Span { text: "tw".to_string(), highlighted: false, is_current_match: false },
                Span { text: "o".to_string(), highlighted: true, is_current_match: true },
            ]),
            Row::Text(vec![
                Span { text: "f".to_string(), highlighted: false, is_current_match: false },
                Span { text: "o".to_string(), highlighted: true, is_current_match: false },
                Span { text: "ur".to_string(), highlighted: false, is_current_match: false },
            ]),
            Row::Blank,
            Row::Blank,
        ]
    );
    assert_eq!(build_frame(&store, &visible, 3, 2, &matches, 0), vec![Row::Blank, Row::Blank]);
    assert_eq!(build_frame(&store, &visible, usize::MAX, 1, &matches, 0), vec![Row::Blank]);
    assert_eq!(build_frame(&store, &visible, 0, 0, &matches, 0), Vec::<Row>::new());
}

#[test]
fn slice_text_cuts_at_byte_offsets() {
    assert_eq!(slice_text("hello", 1, 4), "ell");
    assert_eq!(slice_text("hello", 0, 5), "hello");
    assert_eq!(slice_text("hello", 2, 2), "");
    assert_eq!(slice_text("", 0, 0), "");
    assert_eq!(slice_text("caf\u{e9} au lait", 3, 5), "\u{e9}");
    assert_eq!(slice_text("caf\u{e9} au lait", 5, 8), " au");
}

#[test]
fn spans_of_text_beyond_ascii() {
    let store = store_of(&["na\u{ef}ve caf\u{e9}, na\u{ef}f"]);
    let matches = recompute(&store, "a\u{ef}");
    assert_eq!(
        matches,
        vec![Match { line: 0, start: 1, end: 4 }, Match { line: 0, start: 15, end: 18 }]
    );
    let spans = build_spans(store.text_at(0), &matches, 1, 0);
    assert_eq!(
        spans,
        vec![
            Span { text: "n".to_string(), highlighted: false, is_current_match: false },
            Span { text: "a\u{ef}".to_string(), highlighted: true, is_current_match: false },
            Span { text: "ve caf\u{e9}, n".to_string(), highlighted: false, is_current_match: false },
            Span { text: "a\u{ef}".to_string(), highlighted: true, is_current_match: true },
            Span { text: "f".to_string(), highlighted: false, is_current_match: false },
        ]
    );
}
