use caucus::pipeline::strategy_from_name;
use caucus::types::{ConsensusError, StrategyKind};

#[test]
fn strategy_from_name_valid() {
    assert!(strategy_from_name("majority_vote").is_ok());
    assert!(strategy_from_name("majority-vote").is_ok());
    assert!(strategy_from_name("judge").is_ok());
    assert!(strategy_from_name("debate").is_ok());
    assert!(strategy_from_name("debate_then_vote").is_ok());
}

#[test]
fn strategy_from_name_invalid() {
    assert!(strategy_from_name("nonexistent").is_err());
}

#[test]
fn test_all_strategies_from_name() {
    for name in &[
        "majority_vote",
        "majority-vote",
        "weighted_vote",
        "weighted-vote",
        "judge",
        "judge_synthesis",
        "debate",
        "multi_round_debate",
        "debate_then_vote",
    ] {
        assert!(strategy_from_name(name).is_ok(), "Failed to create strategy: {name}");
    }
}

#[test]
fn strategy_names_select_the_right_strategy() {
    assert_eq!(strategy_from_name("weighted-vote"), Ok(StrategyKind::WeightedVote));
    assert_eq!(strategy_from_name("judge-synthesis"), Ok(StrategyKind::JudgeSynthesis));
    assert_eq!(strategy_from_name("multi-round-debate"), Ok(StrategyKind::MultiRoundDebate));
    assert_eq!(strategy_from_name("debate-then-vote"), Ok(StrategyKind::DebateThenVote));
    assert_eq!(strategy_from_name("semantic_clustering").is_err(), true);
}

#[test]
fn unknown_strategy_error_names_it() {
    let e = strategy_from_name("nonexistent").unwrap_err();
    assert_eq!(e, ConsensusError::UnknownStrategy("nonexistent".to_string()));
    assert_eq!(e.message(), "Unknown strategy: nonexistent");
}

#[test]
fn reported_names_round_trip() {
    for k in [
        StrategyKind::MajorityVote,
        StrategyKind::WeightedVote,
        StrategyKind::JudgeSynthesis,
        StrategyKind::MultiRoundDebate,
        StrategyKind::DebateThenVote,
    ] {
        assert_eq!(strategy_from_name(&k.name()), Ok(k));
    }
}

#[test]
fn error_messages() {
    assert_eq!(ConsensusError::NoCandidates.message(), "No candidates provided");
    assert_eq!(
        ConsensusError::LlmRequired(StrategyKind::JudgeSynthesis).message(),
        "JudgeSynthesis requires an LLM provider"
    );
    assert_eq!(ConsensusError::NoResult.message(), "Pipeline produced no result (no steps?)");
    assert_eq!(
        ConsensusError::NoProvider("m".into()).message(),
        "No provider registered for model: m"
    );
}
