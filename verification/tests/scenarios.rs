use tailpager::{App, Key, Match, Mode, Outcome, Row, Span};

fn app_with(lines: &[&str], height: usize) -> App {
    let mut app = App::new();
    app.resize(height);
    for line in lines {
        app.append(line.to_string());
    }
    app
}

fn type_text(app: &mut App, text: &str) {
    for c in text.chars() {
        assert_eq!(app.dispatch(Key::Char(c)), Outcome::Continue);
    }
}

fn row_text(row: &Row) -> Option<String> {
    match row {
        Row::Blank => None,
        Row::Text(spans) => {
            let mut text = String::new();
            for span in spans {
                text.push_str(&span.text);
            }
            Some(text)
        }
    }
}

fn shown(app: &App) -> Vec<Option<String>> {
    app.frame().iter().map(row_text).collect()
}

#[test]
fn tailing_shows_the_last_lines() {
    let app = app_with(&["a", "bb", "ccc"], 2);
    assert_eq!(app.mode(), Mode::Tail);
    assert!(app.tailing());
    assert_eq!(app.scroll(), 1);
    assert_eq!(shown(&app), vec![Some("bb".to_string()), Some("ccc".to_string())]);
}

#[test]
fn tailing_follows_lines_that_arrive_later() {
    let mut app = app_with(&["a", "bb", "ccc"], 2);
    app.append("dddd".to_string());
    assert_eq!(app.scroll(), 2);
    assert_eq!(shown(&app), vec![Some("ccc".to_string()), Some("dddd".to_string())]);
}

#[test]
fn search_finds_and_walks_matches() {
    let mut app = app_with(&["foo", "bar", "foobar"], 2);
    assert_eq!(app.dispatch(Key::Esc), Outcome::Continue);
    assert_eq!(app.mode(), Mode::Normal);
    assert_eq!(app.dispatch(Key::Char('f')), Outcome::Continue);
    assert_eq!(app.mode(), Mode::Search);
    type_text(&mut app, "foo");
    assert_eq!(app.search_query(), "foo");
    assert_eq!(
        app.matches(),
        &vec![Match { line: 0, start: 0, end: 3 }, Match { line: 2, start: 0, end: 3 }]
    );
    assert_eq!(app.current_match(), 0);
    assert_eq!(app.dispatch(Key::Enter), Outcome::Continue);
    assert_eq!(app.mode(), Mode::Normal);
    assert_eq!(app.scroll(), 0);

    app.next_match();
    assert_eq!(app.current_match(), 1);
    assert_eq!(app.matches()[app.current_match()].line, 2);
    assert_eq!(app.scroll(), 1);
    assert_eq!(shown(&app), vec![Some("bar".to_string()), Some("foobar".to_string())]);

    app.prev_match();
    assert_eq!(app.current_match(), 0);
    assert_eq!(app.matches()[app.current_match()].line, 0);
    assert_eq!(app.scroll(), 0);
}

#[test]
fn search_keys_walk_matches_in_normal_mode() {
    let mut app = app_with(&["foo", "bar", "foobar"], 1);
    app.dispatch(Key::Esc);
    app.dispatch(Key::Char('f'));
    type_text(&mut app, "foo");
    app.dispatch(Key::Enter);
    assert_eq!(app.dispatch(Key::Char('n')), Outcome::Continue);
    assert_eq!(app.current_match(), 1);
    assert_eq!(app.scroll(), 2);
    assert_eq!(app.dispatch(Key::Char('n')), Outcome::Continue);
    assert_eq!(app.current_match(), 0);
    assert_eq!(app.scroll(), 0);
    assert_eq!(app.dispatch(Key::Char('N')), Outcome::Continue);
    assert_eq!(app.current_match(), 1);
    assert_eq!(app.scroll(), 2);
    assert_eq!(app.mode(), Mode::Normal);
}

#[test]
fn filter_hides_and_clearing_restores() {
    let mut app = app_with(&["apple", "banana", "cherry"], 3);
    app.dispatch(Key::Esc);
    app.dispatch(Key::Char('/'));
    assert_eq!(app.mode(), Mode::Filter);
    type_text(&mut app, "an");
    assert_eq!(app.filter(), "an");
    assert_eq!(app.visible_len(), 1);
    assert_eq!(app.emitted_lines(), vec!["banana".to_string()]);
    assert_eq!(shown(&app), vec![Some("banana".to_string()), None, None]);

    app.dispatch(Key::Backspace);
    app.dispatch(Key::Backspace);
    assert_eq!(app.filter(), "");
    assert_eq!(app.visible_len(), 3);
    assert_eq!(
        app.emitted_lines(),
        vec!["apple".to_string(), "banana".to_string(), "cherry".to_string()]
    );
    assert_eq!(
        shown(&app),
        vec![Some("apple".to_string()), Some("banana".to_string()), Some("cherry".to_string())]
    );
}

#[test]
fn entering_the_filter_again_clears_it() {
    let mut app = app_with(&["apple", "banana", "cherry"], 3);
    app.dispatch(Key::Esc);
    app.dispatch(Key::Char('/'));
    type_text(&mut app, "an");
    app.dispatch(Key::Enter);
    assert_eq!(app.mode(), Mode::Normal);
    assert_eq!(app.filter(), "an");
    assert_eq!(app.emitted_lines(), vec!["banana".to_string()]);
    app.dispatch(Key::Char('/'));
    assert_eq!(app.filter(), "");
    assert_eq!(app.emitted_lines().len(), 3);
}

#[test]
fn exit_emits_the_filtered_lines_in_order() {
    let mut app = app_with(&["cat", "dog", "bat"], 5);
    app.dispatch(Key::Esc);
    app.dispatch(Key::Char('/'));
    type_text(&mut app, "a");
    app.dispatch(Key::Enter);
    assert_eq!(app.dispatch(Key::Char('q')), Outcome::Quit);
    assert_eq!(app.emitted_lines(), vec!["cat".to_string(), "bat".to_string()]);
}

#[test]
fn frame_marks_matches_and_the_current_one() {
    let mut app = app_with(&["foo", "bar", "xfooyfoo"], 3);
    app.dispatch(Key::Esc);
    app.dispatch(Key::Char('f'));
    type_text(&mut app, "foo");
    app.dispatch(Key::Enter);
    let rows = app.frame();
    assert_eq!(rows.len(), 3);
    assert_eq!(
        rows[0],
        Row::Text(vec![Span { text: "foo".to_string(), highlighted: true, is_current_match: true }])
    );
    assert_eq!(
        rows[1],
        Row::Text(vec![Span { text: "bar".to_string(), highlighted: false, is_current_match: false }])
    );
    assert_eq!(
        rows[2],
        Row::Text(vec![
            Span { text: "x".to_string(), highlighted: false, is_current_match: false },
            Span { text: "foo".to_string(), highlighted: true, is_current_match: false },
            Span { text: "y".to_string(), highlighted: false, is_current_match: false },
            Span { text: "foo".to_string(), highlighted: true, is_current_match: false },
        ])
    );
    app.next_match();
    app.next_match();
    let rows = app.frame();
    assert_eq!(app.current_match(), 2);
    assert_eq!(
        rows[2],
        Row::Text(vec![
            Span { text: "x".to_string(), highlighted: false, is_current_match: false },
            Span { text: "foo".to_string(), highlighted: true, is_current_match: false },
            Span { text: "y".to_string(), highlighted: false, is_current_match: false },
            Span { text: "foo".to_string(), highlighted: true, is_current_match: true },
        ])
    );
}

#[test]
fn frame_highlights_by_absolute_line_under_a_filter() {
    let mut app = app_with(&["zzz", "a foo", "b", "a bar foo"], 4);
    app.dispatch(Key::Esc);
    app.dispatch(Key::Char('f'));
    type_text(&mut app, "foo");
    app.dispatch(Key::Esc);
    app.dispatch(Key::Char('/'));
    type_text(&mut app, "a ");
    app.dispatch(Key::Enter);
    let rows = app.frame();
    assert_eq!(
        rows,
        vec![
            Row::Text(vec![
                Span { text: "a ".to_string(), highlighted: false, is_current_match: false },
                Span { text: "foo".to_string(), highlighted: true, is_current_match: true },
            ]),
            Row::Text(vec![
                Span { text: "a bar ".to_string(), highlighted: false, is_current_match: false },
                Span { text: "foo".to_string(), highlighted: true, is_current_match: false },
            ]),
            Row::Blank,
            Row::Blank,
        ]
    );
}

#[test]
fn an_empty_line_is_one_empty_span() {
    let app = app_with(&[""], 2);
    assert_eq!(
        app.frame(),
        vec![
            Row::Text(vec![Span { text: String::new(), highlighted: false, is_current_match: false }]),
            Row::Blank,
        ]
    );
}

#[test]
fn a_viewport_without_rows_gives_an_empty_frame() {
    let app = app_with(&["a", "b"], 0);
    assert_eq!(app.frame(), Vec::<Row>::new());
    assert_eq!(app.scroll(), 2);
}
