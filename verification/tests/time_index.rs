use litclock::index::Database;
use litclock::record::QuoteRecord;
use litclock::Direction;

fn rec(hour: u8, minute: u8, tag: &str) -> QuoteRecord {
    QuoteRecord {
        hour,
        minute,
        context: format!("ctx {tag}"),
        quote: format!("quote {tag}"),
        source: "A Book".to_string(),
        author: "An Author".to_string(),
    }
}

#[test]
fn next_time_wraps_backward_at_midnight() {
    assert_eq!(litclock::clock::next_time(0, 0, Direction::Backward), (23, 59));
}

#[test]
fn next_time_wraps_forward_at_end_of_day() {
    assert_eq!(litclock::clock::next_time(23, 59, Direction::Forward), (0, 0));
}

#[test]
fn next_time_steps_within_an_hour_and_across_hours() {
    assert_eq!(litclock::clock::next_time(10, 30, Direction::Forward), (10, 31));
    assert_eq!(litclock::clock::next_time(10, 59, Direction::Forward), (11, 0));
    assert_eq!(litclock::clock::next_time(10, 30, Direction::Backward), (10, 29));
    assert_eq!(litclock::clock::next_time(10, 0, Direction::Backward), (9, 59));
}

#[test]
fn lookup_returns_exactly_the_matching_indices() {
    let db = Database::new(vec![
        rec(9, 15, "a"),
        rec(10, 0, "b"),
        rec(9, 15, "c"),
        rec(23, 59, "d"),
    ]);
    assert_eq!(db.lookup(9, 15), Some(vec![0, 2]));
    assert_eq!(db.lookup(10, 0), Some(vec![1]));
    assert_eq!(db.lookup(23, 59), Some(vec![3]));
    assert_eq!(db.lookup(0, 0), None);
}

#[test]
fn empty_corpus_has_empty_index() {
    let db = Database::new(Vec::new());
    assert_eq!(db.lookup(12, 0), None);
    assert!(db.at_time(12, 0).is_none());
}

#[test]
fn at_time_returns_a_record_with_the_queried_time() {
    let db = Database::new(vec![rec(9, 15, "a"), rec(9, 15, "b"), rec(10, 0, "c")]);
    for _ in 0..20 {
        let q = db.at_time(9, 15).unwrap();
        assert_eq!((q.hour, q.minute), (9, 15));
        assert!(q.quote == "quote a" || q.quote == "quote b");
    }
    assert!(db.at_time(11, 11).is_none());
}

#[test]
fn around_time_backward_from_midnight_probes_end_of_day() {
    let db = Database::new(vec![rec(23, 59, "d"), rec(12, 0, "noon")]);
    let q = db.around_time(0, 0, Direction::Backward);
    assert_eq!((q.hour, q.minute), (23, 59));
}

#[test]
fn around_time_returns_exact_match_when_present() {
    let db = Database::new(vec![rec(7, 30, "x"), rec(8, 0, "y")]);
    let q = db.around_time(8, 0, Direction::Backward);
    assert_eq!((q.hour, q.minute), (8, 0));
}

#[test]
fn around_time_moves_only_in_the_requested_direction() {
    // A record one minute before and one three minutes after the query:
    // forward search must pass the earlier one by.
    let db = Database::new(vec![rec(11, 59, "before"), rec(12, 3, "after")]);
    let q = db.around_time(12, 0, Direction::Forward);
    assert_eq!((q.hour, q.minute), (12, 3));
    let q = db.around_time(12, 0, Direction::Backward);
    assert_eq!((q.hour, q.minute), (11, 59));
}

#[test]
fn around_time_wraps_forward_past_end_of_day() {
    let db = Database::new(vec![rec(0, 5, "early")]);
    let q = db.around_time(23, 50, Direction::Forward);
    assert_eq!((q.hour, q.minute), (0, 5));
}

#[test]
fn repeated_queries_return_identical_times() {
    let db = Database::new(vec![rec(9, 15, "a"), rec(9, 15, "b"), rec(14, 40, "c")]);
    let t1 = {
        let q = db.around_time(9, 0, Direction::Forward);
        (q.hour, q.minute)
    };
    let t2 = {
        let q = db.around_time(9, 0, Direction::Forward);
        (q.hour, q.minute)
    };
    assert_eq!(t1, t2);
    assert_eq!(db.lookup(9, 15), db.lookup(9, 15));
}
