use ant_msgbus::correctness::CheckFailure;
use ant_msgbus::{MStr, Pattern, Topic};

#[test]
fn topic_accepts_fully_qualified_text() {
    let t = MStr::<Topic>::topic("data.quotes.BTCUSDT").unwrap();
    assert_eq!(t.as_str(), "data.quotes.BTCUSDT");
    assert_eq!(t.as_bytes(), b"data.quotes.BTCUSDT");
}

#[test]
fn topic_rejects_wildcards() {
    let e = MStr::<Topic>::topic("data.*").unwrap_err();
    assert_eq!(e.kind, CheckFailure::WildcardInIdentifier);
    let e = MStr::<Topic>::topic("data.?").unwrap_err();
    assert_eq!(e.kind, CheckFailure::WildcardInIdentifier);
}

#[test]
fn topic_rejects_invalid_strings() {
    assert_eq!(MStr::<Topic>::topic("").unwrap_err().kind, CheckFailure::EmptyString);
    assert_eq!(MStr::<Topic>::topic("   ").unwrap_err().kind, CheckFailure::WhitespaceString);
    assert_eq!(MStr::<Topic>::topic("caf\u{e9}").unwrap_err().kind, CheckFailure::NonAsciiString);
}

#[test]
fn endpoint_follows_the_topic_rules() {
    assert_eq!(MStr::endpoint("RiskEngine.execute").unwrap().as_str(), "RiskEngine.execute");
    assert_eq!(
        MStr::endpoint("Risk*").unwrap_err().kind,
        CheckFailure::WildcardInIdentifier
    );
}

#[test]
fn any_text_is_a_pattern_and_a_topic_converts_to_one() {
    let p = MStr::pattern("a.*.c");
    assert_eq!(p.as_str(), "a.*.c");
    let t = MStr::<Topic>::topic("a.b.c").unwrap();
    let q: MStr<Pattern> = MStr::from(t);
    assert_eq!(q.as_str(), "a.b.c");
}
