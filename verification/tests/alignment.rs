use litclock::align::{find_phrase, wrapped_highlights};
use litclock::record::QuoteRecord;
use litclock::render::AlignmentError;

fn chars(s: &str) -> Vec<char> {
    s.chars().collect()
}

fn record(quote: &str, context: &str) -> QuoteRecord {
    QuoteRecord {
        hour: 12,
        minute: 0,
        context: context.to_string(),
        quote: quote.to_string(),
        source: "A Book".to_string(),
        author: "An Author".to_string(),
    }
}

#[test]
fn exact_range_covers_phrase_without_period() {
    let r = record("It was a cold morning.", "cold morning");
    let (start, end) = r.format_no_wrap().unwrap();
    assert_eq!((start, end), (9, 21));
    let q: Vec<char> = r.quote.chars().collect();
    let got: String = q[start..end].iter().collect();
    assert_eq!(got, "cold morning");
}

#[test]
fn exact_range_is_case_insensitive_and_case_preserving() {
    let r = record("It was a COLD Morning.", "cold morning");
    let (start, end) = r.format_no_wrap().unwrap();
    let q: Vec<char> = r.quote.chars().collect();
    let got: String = q[start..end].iter().collect();
    assert_eq!(got, "COLD Morning");
}

#[test]
fn exact_range_reports_missing_phrase() {
    let r = record("It was a cold morning.", "half past nine");
    assert_eq!(r.format_no_wrap(), Err(AlignmentError::NotFound));
}

#[test]
fn exact_range_picks_first_occurrence() {
    let q = chars("abab");
    let p = chars("ab");
    assert_eq!(find_phrase(&q, &p), Some(0));
}

#[test]
fn wrapped_scan_tolerates_line_break_and_indent() {
    let rendered = chars("half past\n    three");
    let phrase = chars("half past three");
    let hl = wrapped_highlights(&rendered, &phrase);
    // All letters of the phrase are marked; the newline (9) and the skipped
    // indent spaces (11, 12, 13) are not. One indent space (10) stands in
    // for the phrase's own space between the wrapped words.
    let expected: Vec<usize> = vec![0, 1, 2, 3, 4, 5, 6, 7, 8, 10, 14, 15, 16, 17, 18];
    assert_eq!(hl, expected);
    assert!(!hl.contains(&9));
    assert!(!hl.contains(&11));
    assert!(!hl.contains(&12));
    assert!(!hl.contains(&13));
}

#[test]
fn wrapped_scan_recovers_after_reset_on_same_line() {
    let rendered = chars("the the cold morning");
    let phrase = chars("cold morning");
    let hl = wrapped_highlights(&rendered, &phrase);
    let expected: Vec<usize> = (8..20).collect();
    assert_eq!(hl, expected);
}

#[test]
fn wrapped_scan_incomplete_when_phrase_absent() {
    let rendered = chars("no match here");
    let phrase = chars("cold morning");
    let hl = wrapped_highlights(&rendered, &phrase);
    assert!(hl.len() < phrase.len());
}

#[test]
fn wrapped_scan_empty_phrase_marks_nothing() {
    let rendered = chars("anything at all");
    let phrase = chars("");
    assert!(wrapped_highlights(&rendered, &phrase).is_empty());
}

#[test]
fn format_highlights_single_line_rendering() {
    let r = record("It was a cold morning.", "cold morning");
    let (display, hl) = r.format(60);
    let text: String = display.iter().collect();
    assert_eq!(text, "  It was a cold morning.");
    let expected: Vec<usize> = (11..23).collect();
    assert_eq!(hl, expected);
}

#[test]
fn format_highlights_survive_wrapping() {
    let r = record("one two half past three four five", "half past three");
    let (display, hl) = r.format(14);
    let text: String = display.iter().collect();
    assert!(text.contains('\n'));
    assert_eq!(hl.len(), "half past three".chars().count());
    for &i in &hl {
        assert_ne!(display[i], '\n');
    }
}

#[test]
fn format_normalizes_and_restores_apostrophes() {
    let r = record("It was five o\u{2019}clock precisely.", "five o'clock");
    let (display, hl) = r.format(60);
    assert_eq!(hl.len(), "five o'clock".chars().count());
    let text: String = display.iter().collect();
    assert!(text.contains('\u{2019}'));
    // The highlighted characters spell the phrase, up to case and the
    // presenter's typographic apostrophe.
    let marked: String = hl
        .iter()
        .map(|&i| if display[i] == '\u{2019}' { '\'' } else { display[i] })
        .collect();
    assert_eq!(marked.to_lowercase(), "five o'clock");
}
