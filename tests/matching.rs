use ant_msgbus::identifiers::is_matching_backtracking;
use ant_msgbus::{is_matching, MStr};

#[test]
fn literal_pattern_matches_only_equal_topic() {
    assert!(is_matching(b"a.b.c", b"a.b.c"));
    assert!(!is_matching(b"a.b.c", b"a.b.d"));
    assert!(!is_matching(b"a.b", b"a.b.c"));
    assert!(!is_matching(b"a.b.c", b"a.b"));
    assert!(is_matching(b"", b""));
    assert!(!is_matching(b"x", b""));
}

#[test]
fn star_matches_one_or_more_in_the_middle() {
    assert!(is_matching(b"a.b.c", b"a.*.c"));
    assert!(is_matching(b"a.bb.c", b"a.*.c"));
}

#[test]
fn question_mark_matches_exactly_one_byte() {
    assert!(is_matching(b"a.b.c", b"a.?.c"));
    assert!(!is_matching(b"a.bb.c", b"a.?.c"));
    assert!(!is_matching(b"a..c", b"a.?.c"));
}

#[test]
fn lone_star_matches_any_topic() {
    assert!(is_matching(b"abc", b"*"));
    assert!(is_matching(b"a", b"*"));
    assert!(is_matching(b"", b"*"));
}

#[test]
fn star_may_match_nothing_and_backtracks() {
    assert!(is_matching(b"a.c", b"a.*c"));
    assert!(is_matching(b"data.quotes.BINANCE", b"data.*.BINANCE"));
    assert!(is_matching(b"aaab", b"*a*b"));
    assert!(!is_matching(b"aaac", b"*a*b"));
    assert!(is_matching(b"abc", b"**?"));
    assert!(!is_matching(b"", b"?"));
}

#[test]
fn identifiers_match_through_their_bytes() {
    let topic = MStr::topic("a.b.c").unwrap();
    assert!(is_matching_backtracking(topic, MStr::pattern("a.*.c")));
    assert!(is_matching_backtracking(topic, MStr::pattern("a.b.c")));
    assert!(!is_matching_backtracking(topic, MStr::pattern("a.?")));
}
