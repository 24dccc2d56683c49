use caucus::debate::{DebateConfig, MultiRoundDebate};
use caucus::judge::{normalize_verdict, JudgeVerdict};
use caucus::provider::MockProvider;
use caucus::ratio::{Ratio, Threshold};
use caucus::types::{Agreement, Candidate, ConsensusError, StrategyKind};

/// What a judge's JSON answer holds, read with serde_json.
fn read_verdict(answer: &str) -> Option<JudgeVerdict> {
    let v: serde_json::Value = serde_json::from_str(answer).ok()?;
    let score = v["agreement_score"].as_f64()?;
    let dissent_indices = v["dissent_indices"]
        .as_array()
        .map(|a| a.iter().filter_map(|x| x.as_u64()).map(|x| x as usize).collect())
        .unwrap_or_default();
    Some(normalize_verdict(JudgeVerdict {
        synthesis: v["synthesis"].as_str()?.to_string(),
        reasoning: v["reasoning"].as_str()?.to_string(),
        agreement: Ratio::new((score * 100.0).round() as u128, 100),
        dissent_indices,
    }))
}

#[test]
fn debate_converges() {
    let judge_json = r#"{"synthesis": "The refined consensus answer after debate.", "reasoning": "Both candidates broadly agreed.", "agreement_score": 0.85, "dissent_indices": []}"#;
    let mut provider = MockProvider::new(vec![
        "The refined consensus answer after debate.".to_string(),
        judge_json.to_string(),
    ]);
    let candidates = vec![
        Candidate::new("Answer A from model 1").with_model("model-1"),
        Candidate::new("Answer B from model 2").with_model("model-2"),
    ];
    let strategy = MultiRoundDebate::new().with_rounds(3);
    let mut session = strategy.start(&candidates, true).unwrap();
    while let Some(prompt) = strategy.next_prompt(&session) {
        let refined = provider.complete(&prompt, Some(&strategy.config.system_prompt));
        strategy.record(&mut session, refined);
    }
    let request = strategy.classification_request(&session, &candidates);
    let answer = provider.complete(&request, None);
    let result = strategy.finish(&session, &candidates, read_verdict(&answer));

    assert_eq!(result.strategy, "multi_round_debate");
    assert!(!result.content.is_empty());
    assert!(matches!(result.agreement, Agreement::Exact(Ratio { num: 1, den: 1 })));
    assert!(result.dissents.is_empty());
    assert_eq!(session.rounds, 3);
    assert_eq!(result.content, "The refined consensus answer after debate.");
    assert_eq!(result.reasoning.as_deref(), Some("Debate completed in 3 round(s) of 3 maximum"));
}

#[test]
fn debate_requires_llm() {
    let candidates = vec![Candidate::new("test")];
    let strategy = MultiRoundDebate::new();
    let result = strategy.start(&candidates, false);
    assert!(result.is_err());
    assert_eq!(result.err(), Some(ConsensusError::LlmRequired(StrategyKind::MultiRoundDebate)));
}

#[test]
fn debate_needs_candidates() {
    let strategy = MultiRoundDebate::new();
    assert_eq!(strategy.start(&Vec::new(), true).err(), Some(ConsensusError::NoCandidates));
}

#[test]
fn debate_stops_early_on_convergence() {
    let candidates = vec![
        Candidate::new("the sky is blue").with_metadata("question", "What colour is the sky?"),
        Candidate::new("grass is green"),
    ];
    let strategy = MultiRoundDebate::new();
    let mut session = strategy.start(&candidates, true).unwrap();
    assert_eq!(session.question, "What colour is the sky?");
    let first = strategy.next_prompt(&session).unwrap();
    assert!(first.starts_with("Original question: What colour is the sky?\n\n"));
    assert!(first.contains("--- Participant (Position 1) ---\nthe sky is blue"));
    assert!(first.contains("--- Participant (Position 2) ---\ngrass is green"));
    assert!(first.contains("This is round 1 of 3."));
    // identical to a current position: similarity one, at or above nine tenths
    strategy.record(&mut session, "The sky is blue".to_string());
    assert!(session.converged);
    assert_eq!(session.rounds, 1);
    assert!(strategy.next_prompt(&session).is_none());
    assert_eq!(session.history.len(), 2);
    assert_eq!(session.history[0], vec!["the sky is blue".to_string(), "grass is green".to_string()]);
    assert_eq!(session.positions, vec!["The sky is blue".to_string(), "The sky is blue".to_string()]);
}

#[test]
fn debate_without_judge_classification_falls_back_to_similarity() {
    let candidates = vec![
        Candidate::new("the sky is blue"),
        Candidate::new("cats purr loudly"),
    ];
    let strategy = MultiRoundDebate::with_config(DebateConfig {
        max_rounds: 1,
        convergence_threshold: Threshold::new(9, 10),
        system_prompt: "s".to_string(),
    });
    let mut session = strategy.start(&candidates, true).unwrap();
    let _ = strategy.next_prompt(&session).unwrap();
    strategy.record(&mut session, "the sky is blue today".to_string());
    assert!(strategy.next_prompt(&session).is_none());
    let result = strategy.finish(&session, &candidates, None);
    // first candidate: 4 shared words of 5; second: none
    assert_eq!(result.dissents, vec![1]);
    match &result.agreement {
        Agreement::MeanOf(sims) => {
            assert_eq!(sims.len(), 2);
            assert_eq!((sims[0].num, sims[0].den), (4, 5));
            assert_eq!((sims[1].num, sims[1].den), (0, 8));
        }
        Agreement::Exact(_) => panic!("expected a mean of similarities"),
    }
    assert_eq!(result.reasoning.as_deref(), Some("Debate completed in 1 round(s) of 1 maximum"));
}

#[test]
fn zero_rounds_keeps_the_first_position() {
    let candidates = vec![Candidate::new("first answer"), Candidate::new("second answer")];
    let strategy = MultiRoundDebate::new().with_rounds(0);
    let session = strategy.start(&candidates, true).unwrap();
    assert!(strategy.next_prompt(&session).is_none());
    let verdict = JudgeVerdict {
        synthesis: "ignored".into(),
        reasoning: "r".into(),
        agreement: Ratio::new(3, 10),
        dissent_indices: vec![1, 5],
    };
    let result = strategy.finish(&session, &candidates, Some(verdict));
    assert_eq!(result.content, "first answer");
    assert_eq!(result.dissents, vec![1]);
    assert!(matches!(result.agreement, Agreement::Exact(Ratio { num: 3, den: 10 })));
    assert_eq!(result.reasoning.as_deref(), Some("Debate completed in 0 round(s) of 0 maximum"));
}

#[test]
fn classification_request_lists_candidates_from_zero() {
    let candidates = vec![Candidate::new("A").with_model("m1"), Candidate::new("B")];
    let strategy = MultiRoundDebate::new();
    let session = strategy.start(&candidates, true).unwrap();
    let request = strategy.classification_request(&session, &candidates);
    assert!(request.starts_with(
        "Below is a synthesis produced by a multi-round debate, followed by the 2 original candidate responses"
    ));
    assert!(request.contains("--- Debate Synthesis ---\nA\n\n--- Candidate 0 (model: m1)---\nA\n\n--- Candidate 1---\nB\n\n"));
}
