use finger_blaster::app::{App, Summary};
use finger_blaster::error::{TerminalTooSmallError, TyperError};
use finger_blaster::event::{input_event, Event, KeyInput, TermInput};
use finger_blaster::layout::{format_quote, Line};
use finger_blaster::render::{Cell, Style};
use finger_blaster::text::{chars_of, split_words};

fn type_str(app: &mut App, s: &str) {
    for c in s.chars() {
        app.process(Event::KeyPress(c));
    }
}

fn row_text(row: &[Cell]) -> String {
    row.iter().map(|c| c.ch).collect()
}

#[test]
fn perfect_typing_metrics() {
    let mut app = App::new("ab cd");
    type_str(&mut app, "ab cd");
    assert!(app.is_completed());
    let s = app.summary(5000);
    assert_eq!(s, Summary { wpm: Some(12), accuracy: Some(100), mistakes: 0 });
}

#[test]
fn metrics_round_to_nearest() {
    // 13 characters, 1 mistake: 1300 / 14 = 92.86; 13 * 12000 / 7000 = 22.29
    let mut app = App::new("the quick fox");
    type_str(&mut app, "x");
    let s = app.summary(7000);
    assert_eq!(s.accuracy, Some(93));
    assert_eq!(s.wpm, Some(22));
    assert_eq!(s.mistakes, 1);
    // halves round up: 5 characters in 8000 ms make 7.5 wpm, shown as 8
    let app = App::new("ab cd");
    assert_eq!(app.summary(8000).wpm, Some(8));
}

#[test]
fn metrics_without_time_or_text() {
    let app = App::new("ab cd");
    assert_eq!(app.summary(0).wpm, None);
    let empty = App::new("");
    assert_eq!(empty.summary(1000), Summary { wpm: Some(0), accuracy: None, mistakes: 0 });
}

#[test]
fn end_to_end_scenario() {
    let words = split_words(&chars_of("the quick fox"));
    let lines = format_quote(&words, 80).unwrap();
    assert_eq!(lines, vec![Line { first: 0, end: 3, width: 13 }]);

    let mut app = App::new("the quick fox");
    app.begin();
    type_str(&mut app, "the ");
    type_str(&mut app, "x");
    app.process(Event::Backspace);
    type_str(&mut app, "quick fox");
    assert!(app.is_completed());
    assert!(!app.is_running());
    assert_eq!(app.mistakes(), &vec![(1, 0)]);
    assert_eq!(app.mistake_count(), 1);
    let s = app.summary(6000);
    assert_eq!(s.accuracy, Some(93));
    assert_eq!(s.wpm, Some(26));
    assert_eq!(
        app.generate_mistake_locations(),
        "the \u{1b}[31mq\u{1b}[0muick fox"
    );
}

#[test]
fn transcript_marks_every_position() {
    let mut app = App::new("ab cd");
    type_str(&mut app, "x");
    app.process(Event::Backspace);
    type_str(&mut app, "ay");
    assert_eq!(
        app.generate_mistake_locations(),
        "\u{1b}[31ma\u{1b}[0m\u{1b}[31mb\u{1b}[0m cd"
    );
    let clean = App::new("ab  cd");
    assert_eq!(clean.generate_mistake_locations(), "ab cd");
}

#[test]
fn idle_render_paints_nothing() {
    let mut app = App::new("the quick fox");
    app.begin();
    // nothing has happened yet
    assert!(!app.process(Event::Render));
    assert!(!app.process(Event::Render));
    // an explicit request makes the next tick paint once
    app.process(Event::ForceRender);
    assert!(app.process(Event::Render));
    assert!(app.render(80, 24).is_some());
    assert!(!app.process(Event::Render));
    // a state change makes the next tick paint once
    assert!(!app.process(Event::KeyPress('t')));
    assert!(app.process(Event::Render));
    assert!(app.render(80, 24).is_some());
    assert!(!app.process(Event::Render));
    assert!(!app.process(Event::Render));
}

#[test]
fn render_without_paint_due_does_nothing() {
    let mut app = App::new("ab cd");
    app.begin();
    assert!(app.render(80, 24).is_none());
    // not even a terminal that is too small stops the session
    assert!(app.render(30, 24).is_none());
    assert!(app.is_running());
    assert!(app.error().is_none());
}

#[test]
fn paint_clears_flag_set_by_state_change() {
    let mut app = App::new("ab cd");
    app.process(Event::KeyPress('a'));
    assert!(app.render(80, 24).is_some());
    assert!(!app.process(Event::Render));
}

#[test]
fn failed_render_clears_flag() {
    let mut app = App::new("ab");
    app.begin();
    app.process(Event::ForceRender);
    assert!(app.process(Event::Render));
    assert!(app.render(30, 24).is_none());
    assert!(!app.process(Event::Render));
    let mut long = App::new(&"w".repeat(33));
    long.process(Event::ForceRender);
    assert!(long.render(40, 10).is_none());
    assert!(!long.process(Event::Render));
}

#[test]
fn first_frame_layout() {
    let mut app = App::new("the quick fox");
    app.process(Event::ForceRender);
    let f = app.render(80, 24).unwrap();
    assert_eq!(f.left, 34);
    assert_eq!(f.top, 8);
    assert_eq!(f.rows.len(), 1);
    assert_eq!(row_text(&f.rows[0]), "the quick fox");
    assert!(f.rows[0].iter().all(|c| c.style == Style::Pending));
    assert_eq!((f.cursor_col, f.cursor_row), (34, 8));
}

#[test]
fn current_word_styles() {
    let mut app = App::new("the quick fox");
    type_str(&mut app, "the ");
    type_str(&mut app, "qx");
    let f = app.render(80, 24).unwrap();
    let row = &f.rows[0];
    assert_eq!(row_text(row), "the quick fox");
    let styles: Vec<Style> = row.iter().map(|c| c.style).collect();
    let mut expected = vec![Style::Done; 4];
    expected.push(Style::Correct);
    expected.push(Style::Incorrect);
    expected.extend(vec![Style::Pending; 7]);
    assert_eq!(styles, expected);
    assert_eq!(f.cursor_col, 34 + 4 + 2);
}

#[test]
fn overshoot_shows_extra_characters() {
    let mut app = App::new("ab cd");
    type_str(&mut app, "abxy");
    let f = app.render(80, 24).unwrap();
    let row = &f.rows[0];
    assert_eq!(row_text(row), "abxy cd");
    assert_eq!(row[0], Cell { ch: 'a', style: Style::Correct });
    assert_eq!(row[2], Cell { ch: 'x', style: Style::Extra });
    assert_eq!(row[3], Cell { ch: 'y', style: Style::Extra });
    // left = (80 - 5) / 2 + 1
    assert_eq!(f.left, 38);
    assert_eq!(f.cursor_col, 38 + 4);
}

#[test]
fn previous_and_lookahead_lines() {
    // at 40 columns the bound is 32: every eight three-letter words make a line
    let text = vec!["abc"; 40].join(" ");
    let mut app = App::new(&text);
    app.process(Event::ForceRender);
    let f = app.render(40, 10).unwrap();
    assert_eq!(f.rows.len(), 3);
    assert_eq!(f.top, 1);
    assert_eq!(f.cursor_row, 1);
    // complete the first line's eight words
    for _ in 0..8 {
        type_str(&mut app, "abc ");
    }
    assert_eq!(app.current(), 8);
    let f = app.render(40, 10).unwrap();
    assert_eq!(f.rows.len(), 3);
    assert!(f.rows[0].iter().all(|c| c.style == Style::Done));
    assert!(f.rows[2].iter().all(|c| c.style == Style::Pending));
    assert_eq!(f.cursor_row, 2);
    // left = (40 - 31) / 2 + 1
    assert_eq!(f.left, 5);
    assert_eq!(f.cursor_col, 5);
}

#[test]
fn small_terminal_stops_session() {
    let mut app = App::new("ab");
    app.begin();
    app.process(Event::ForceRender);
    assert!(app.render(39, 24).is_none());
    assert!(!app.is_running());
    assert!(matches!(
        app.error(),
        Some(TyperError::TerminalTooSmallError(TerminalTooSmallError))
    ));
    let mut app = App::new("ab");
    app.begin();
    app.process(Event::ForceRender);
    assert!(app.render(80, 9).is_none());
    assert!(!app.is_running());
}

#[test]
fn long_word_stops_session() {
    let text = format!("ok {}", "w".repeat(33));
    let mut app = App::new(&text);
    app.begin();
    app.process(Event::ForceRender);
    assert!(app.render(40, 10).is_none());
    assert!(!app.is_running());
    match app.error() {
        Some(TyperError::WordTooLongError(e)) => {
            assert_eq!(e.word(), "w".repeat(33));
            assert_eq!(e.max_length(), 32);
        }
        _ => panic!("expected a word-too-long error"),
    }
    // the same passage fits a wider terminal
    let mut wide = App::new(&text);
    wide.process(Event::ForceRender);
    assert!(wide.render(80, 10).is_some());
}

#[test]
fn terminal_input_events() {
    let key = |code, control_only| TermInput::Key { code, control_only };
    assert_eq!(input_event(key(KeyInput::Char('c'), true)), Some(Event::Terminate));
    assert_eq!(input_event(key(KeyInput::Char('c'), false)), Some(Event::KeyPress('c')));
    assert_eq!(input_event(key(KeyInput::Char('x'), true)), Some(Event::KeyPress('x')));
    assert_eq!(input_event(key(KeyInput::Backspace, false)), Some(Event::Backspace));
    assert_eq!(input_event(key(KeyInput::Other, false)), None);
    assert_eq!(input_event(TermInput::Resize), Some(Event::ForceRender));
    assert_eq!(input_event(TermInput::Other), None);
}
