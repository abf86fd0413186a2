use finger_blaster::error::{TerminalTooSmallError, TyperError, WordTooLongError};
use finger_blaster::layout::{format_quote, max_line_len, Line};
use finger_blaster::text::{chars_of, split_words};

fn lines_of(text: &str, cols: u16) -> Result<Vec<Line>, WordTooLongError> {
    format_quote(&split_words(&chars_of(text)), cols)
}

#[test]
fn bound_follows_terminal_width() {
    assert_eq!(max_line_len(40), 32);
    assert_eq!(max_line_len(87), 79);
    assert_eq!(max_line_len(88), 80);
    assert_eq!(max_line_len(200), 80);
    assert_eq!(max_line_len(8), 0);
    assert_eq!(max_line_len(3), 0);
}

#[test]
fn short_passage_is_one_line() {
    let lines = lines_of("the quick fox", 80).unwrap();
    assert_eq!(lines, vec![Line { first: 0, end: 3, width: 13 }]);
}

#[test]
fn greedy_wrap_at_exact_bound() {
    // at 40 columns the bound is 32: eight three-letter words take 31 columns, nine take 35
    let text = "abc abc abc abc abc abc abc abc abc abc";
    let lines = lines_of(text, 40).unwrap();
    assert_eq!(
        lines,
        vec![Line { first: 0, end: 8, width: 31 }, Line { first: 8, end: 10, width: 7 }]
    );
}

#[test]
fn line_filled_to_the_bound() {
    // 32 columns exactly: 16 + 1 + 15
    let a = "a".repeat(16);
    let b = "b".repeat(15);
    let text = format!("{} {} c", a, b);
    let lines = lines_of(&text, 40).unwrap();
    assert_eq!(
        lines,
        vec![Line { first: 0, end: 2, width: 32 }, Line { first: 2, end: 3, width: 1 }]
    );
}

#[test]
fn wrapped_lines_stay_within_bound_and_keep_order() {
    let text = "Lorem ipsum dolor sit amet, consectetur adipiscing elit, sed do eiusmod tempor \
                incididunt ut labore et dolore magna aliqua. Ut enim ad minim veniam, quis";
    let words = split_words(&chars_of(text));
    for cols in [40u16, 50, 60, 88, 120] {
        let lines = format_quote(&words, cols).unwrap();
        let bound = max_line_len(cols) as usize;
        let mut next = 0;
        for l in &lines {
            assert_eq!(l.first, next);
            assert!(l.first < l.end);
            let joined: Vec<String> = words[l.first..l.end].iter().map(|w| w.iter().collect()).collect();
            let width = joined.join(" ").chars().count();
            assert_eq!(width, l.width);
            assert!(width <= bound);
            next = l.end;
        }
        assert_eq!(next, words.len());
        // wrapping the words read back line by line gives the same lines
        let flat: Vec<Vec<char>> = lines.iter().flat_map(|l| words[l.first..l.end].to_vec()).collect();
        assert_eq!(flat, words);
        assert_eq!(format_quote(&flat, cols).unwrap(), lines);
    }
}

#[test]
fn width_counts_characters_not_bytes() {
    // sixteen two-byte letters and a fifteen-letter word fill 32 columns
    let a = "é".repeat(16);
    let b = "越".repeat(15);
    let text = format!("{} {}", a, b);
    let lines = lines_of(&text, 40).unwrap();
    assert_eq!(lines, vec![Line { first: 0, end: 2, width: 32 }]);
}

#[test]
fn empty_passage_has_no_lines() {
    assert_eq!(lines_of("   ", 80).unwrap(), vec![]);
}

#[test]
fn word_too_long_names_first_offender() {
    let long1 = "x".repeat(33);
    let long2 = "y".repeat(40);
    let text = format!("ok {} fine {}", long1, long2);
    let e = lines_of(&text, 40).unwrap_err();
    assert_eq!(e.word(), long1);
    assert_eq!(e.max_length(), 32);
    assert_eq!(
        e.message(),
        format!(
            "The word \"{}\" is too long for the current terminal size or longer than 32 characters.",
            long1
        )
    );
}

#[test]
fn word_of_exact_bound_fits() {
    let w = "z".repeat(32);
    let lines = lines_of(&w, 40).unwrap();
    assert_eq!(lines, vec![Line { first: 0, end: 1, width: 32 }]);
}

#[test]
fn error_messages() {
    let e = WordTooLongError::new("abc".to_string(), 7);
    assert_eq!(
        e.message(),
        "The word \"abc\" is too long for the current terminal size or longer than 7 characters."
    );
    assert_eq!(
        TerminalTooSmallError.message(),
        "The terminal size is too small. Min column count is 40 and minimum row count is 10."
    );
    assert_eq!(
        TyperError::TerminalTooSmallError(TerminalTooSmallError).message(),
        TerminalTooSmallError.message()
    );
    assert_eq!(TyperError::WordTooLongError(e.clone()).message(), e.message());
}
