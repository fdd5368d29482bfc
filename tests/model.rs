use ant_msgbus::correctness::CheckFailure;
use ant_msgbus::{ComponentId, TraderId};

#[test]
fn trader_id_needs_a_dash() {
    let id = TraderId::new_checked("TRADER-001").unwrap();
    assert_eq!(id.as_str(), "TRADER-001");
    assert_eq!(
        TraderId::new_checked("TRADER001").unwrap_err().kind,
        CheckFailure::MissingSubstring
    );
    assert_eq!(TraderId::new_checked("").unwrap_err().kind, CheckFailure::EmptyString);
}

#[test]
fn trader_tag_follows_the_last_dash() {
    assert_eq!(TraderId::new("TRADER-001").get_tag(), "001");
    assert_eq!(TraderId::new("A-B-C").get_tag(), "C");
    assert_eq!(TraderId::new("TRADER-").get_tag(), "");
}

#[test]
fn test_string_reprs() {
    let component_risk_engine = ComponentId::new("RiskEngine");
    assert_eq!(component_risk_engine.as_str(), "RiskEngine");
    assert!(ComponentId::new_checked(" ").is_err());
}
