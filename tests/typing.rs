use finger_blaster::app::App;
use finger_blaster::event::Event;

fn type_str(app: &mut App, s: &str) {
    for c in s.chars() {
        app.process(Event::KeyPress(c));
    }
}

fn sorted_mistakes(app: &App) -> Vec<(usize, usize)> {
    let mut v = app.mistakes().clone();
    v.sort();
    v
}

#[test]
fn new_session_starts_at_first_word() {
    let app = App::new("  hello   world ");
    assert_eq!(app.current(), 0);
    assert!(app.buffer().is_empty());
    assert!(!app.is_running());
    assert!(!app.is_completed());
    assert_eq!(app.mistake_count(), 0);
    assert!(app.mistakes().is_empty());
    assert!(app.error().is_none());
    assert_eq!(app.words().len(), 2);
}

#[test]
fn exact_typing_completes_once() {
    let text = "the quick brown fox";
    let mut app = App::new(text);
    app.begin();
    let keys: Vec<char> = text.chars().collect();
    for (i, c) in keys.iter().enumerate() {
        assert!(!app.is_completed());
        app.process(Event::KeyPress(*c));
        if i + 1 < keys.len() {
            assert!(!app.is_completed());
            assert!(app.is_running());
        }
    }
    assert!(app.is_completed());
    assert!(!app.is_running());
    assert_eq!(app.current(), 4);
    assert!(app.mistakes().is_empty());
    assert_eq!(app.mistake_count(), 0);
    assert!(app.buffer().is_empty());
}

#[test]
fn space_advances_only_after_whole_word() {
    let mut app = App::new("ab cd");
    type_str(&mut app, "ab");
    assert_eq!(app.current(), 0);
    assert_eq!(app.buffer(), &vec!['a', 'b']);
    type_str(&mut app, " ");
    assert_eq!(app.current(), 1);
    assert!(app.buffer().is_empty());
}

#[test]
fn early_space_is_a_mistake() {
    let mut app = App::new("abc de");
    type_str(&mut app, "a ");
    assert_eq!(app.current(), 0);
    assert_eq!(app.buffer(), &vec!['a', ' ']);
    assert_eq!(app.mistake_count(), 1);
    assert_eq!(sorted_mistakes(&app), vec![(0, 1)]);
}

#[test]
fn same_position_recorded_once() {
    let mut app = App::new("quick fox");
    type_str(&mut app, "x");
    app.process(Event::Backspace);
    type_str(&mut app, "z");
    app.process(Event::Backspace);
    type_str(&mut app, "y");
    assert_eq!(app.mistake_count(), 3);
    assert_eq!(sorted_mistakes(&app), vec![(0, 0)]);
}

#[test]
fn overshoot_counts_but_records_no_position() {
    let mut app = App::new("ab cd");
    type_str(&mut app, "abx");
    assert_eq!(app.mistake_count(), 1);
    assert!(app.mistakes().is_empty());
    assert_eq!(app.current(), 0);
}

#[test]
fn backspace_keeps_mistakes_and_word() {
    let mut app = App::new("ab cd");
    type_str(&mut app, "ab c");
    type_str(&mut app, "x");
    assert_eq!(app.current(), 1);
    let before = sorted_mistakes(&app);
    app.process(Event::Backspace);
    app.process(Event::Backspace);
    app.process(Event::Backspace);
    assert_eq!(app.current(), 1);
    assert!(app.buffer().is_empty());
    assert_eq!(sorted_mistakes(&app), before);
    assert_eq!(app.mistake_count(), 1);
}

#[test]
fn backspace_on_empty_buffer_does_nothing() {
    let mut app = App::new("ab");
    app.handle_backspace();
    assert!(app.buffer().is_empty());
    assert_eq!(app.current(), 0);
}

#[test]
fn terminate_stops_session() {
    let mut app = App::new("ab");
    app.begin();
    assert!(app.is_running());
    app.process(Event::Terminate);
    assert!(!app.is_running());
    assert!(!app.is_completed());
}

#[test]
fn keys_after_completion_change_nothing() {
    let mut app = App::new("ab");
    type_str(&mut app, "ab");
    assert!(app.is_completed());
    type_str(&mut app, "zz");
    assert_eq!(app.current(), 1);
    assert_eq!(app.mistake_count(), 0);
    assert!(app.buffer().is_empty());
}

#[test]
fn mistakes_listed_once_each() {
    let mut app = App::new("abc");
    type_str(&mut app, "x");
    app.process(Event::Backspace);
    type_str(&mut app, "y");
    app.process(Event::Backspace);
    type_str(&mut app, "az");
    assert_eq!(app.mistakes(), &vec![(0, 0), (0, 1)]);
}

#[test]
fn handle_keypress_direct() {
    let mut app = App::new("ab cd");
    app.handle_keypress('a');
    app.handle_keypress('q');
    assert_eq!(app.buffer(), &vec!['a', 'q']);
    assert_eq!(sorted_mistakes(&app), vec![(0, 1)]);
}
