use caucus::judge::{braced_text, normalize_verdict, JudgeSynthesis, JudgeVerdict};
use caucus::provider::MockProvider;
use caucus::ratio::Ratio;
use caucus::types::{Agreement, Candidate, ConsensusError, StrategyKind};

fn parse(answer: &str) -> Option<JudgeVerdict> {
    let v: serde_json::Value = serde_json::from_str(answer).ok()?;
    let score = v["agreement_score"].as_f64()?;
    let dissent_indices = v["dissent_indices"]
        .as_array()
        .map(|a| a.iter().filter_map(|x| x.as_u64()).map(|x| x as usize).collect())
        .unwrap_or_default();
    Some(normalize_verdict(JudgeVerdict {
        synthesis: v["synthesis"].as_str()?.to_string(),
        reasoning: v["reasoning"].as_str()?.to_string(),
        agreement: Ratio::new((score * 100.0).round() as u128, 100),
        dissent_indices,
    }))
}

fn read(answer: &str) -> Option<JudgeVerdict> {
    parse(answer).or_else(|| braced_text(answer).and_then(|t| parse(&t)))
}

#[test]
fn judge_synthesis_basic() {
    let judge_response = r#"{"synthesis": "The synthesized answer combining the best parts.", "reasoning": "Response 1 had better reasoning, Response 2 had more detail.", "agreement_score": 0.7, "dissent_indices": [1]}"#;
    let mut provider = MockProvider::fixed(&judge_response.to_string());
    let candidates = vec![
        Candidate::new("Answer from model A"),
        Candidate::new("Different answer from model B"),
        Candidate::new("Similar to model A's answer"),
    ];
    let strategy = JudgeSynthesis::new();
    let prompt = strategy.prepare(&candidates, true).unwrap();
    let answer = provider.complete(&prompt, Some(&strategy.system_prompt));
    let result = strategy.conclude(candidates.len(), read(&answer), answer.clone());

    assert_eq!(result.content, "The synthesized answer combining the best parts.");
    assert!(matches!(result.agreement, Agreement::Exact(Ratio { num: 70, den: 100 })));
    assert_eq!(result.dissents.len(), 1);
}

#[test]
fn judge_requires_llm() {
    let candidates = vec![Candidate::new("test")];
    let strategy = JudgeSynthesis::new();
    let result = strategy.prepare(&candidates, false);
    assert!(result.is_err());
    assert_eq!(result.err(), Some(ConsensusError::LlmRequired(StrategyKind::JudgeSynthesis)));
}

#[test]
fn test_judge_synthesis_with_mock() {
    let judge_response = "{\"synthesis\": \"Paris is the capital of France, located in the \u{ce}le-de-France region.\", \"reasoning\": \"Both responses agree on Paris; Response 1 is more concise, Response 2 adds geographic context.\", \"agreement_score\": 0.85, \"dissent_indices\": []}";
    let mut provider = MockProvider::fixed(&judge_response.to_string());
    let candidates = vec![
        Candidate::new("Paris is the capital of France"),
        Candidate::new("The capital of France is Paris, in the \u{ce}le-de-France region"),
    ];
    let strategy = JudgeSynthesis::new();
    let prompt = strategy.prepare(&candidates, true).unwrap();
    let answer = provider.complete(&prompt, None);
    let result = strategy.conclude(candidates.len(), read(&answer), answer.clone());
    assert_eq!(result.strategy, "judge_synthesis");
    assert!(result.content.contains("Paris"));
    // no dissent: full agreement whatever score was reported
    assert!(matches!(result.agreement, Agreement::Exact(Ratio { num: 1, den: 1 })));
}

#[test]
fn judge_prompt_numbers_responses_from_one() {
    let candidates = vec![Candidate::new("first").with_model("gpt"), Candidate::new("second")];
    let strategy = JudgeSynthesis::new().with_rubric("Be strict");
    let prompt = strategy.build_prompt(&candidates);
    assert!(prompt.starts_with("Evaluation rubric: Be strict\n\nBelow are 2 responses to the same question."));
    assert!(prompt.contains("--- Response 1 (model: gpt)---\nfirst\n\n--- Response 2---\nsecond\n\nRespond in"));
    assert!(prompt.contains("{{\n  \"synthesis\""));
}

#[test]
fn judge_answer_inside_prose_is_found() {
    let answer = "Here you go:\n```json\n{\"synthesis\": \"S\", \"reasoning\": \"R\", \"agreement_score\": 0.4, \"dissent_indices\": [0, 9]}\n```";
    assert_eq!(
        braced_text(answer).as_deref(),
        Some("{\"synthesis\": \"S\", \"reasoning\": \"R\", \"agreement_score\": 0.4, \"dissent_indices\": [0, 9]}")
    );
    let strategy = JudgeSynthesis::new();
    let result = strategy.conclude(2, read(answer), answer.to_string());
    assert_eq!(result.content, "S");
    assert_eq!(result.dissents, vec![0]);
    assert!(matches!(result.agreement, Agreement::Exact(Ratio { num: 40, den: 100 })));
    assert_eq!(result.reasoning.as_deref(), Some("R"));
}

#[test]
fn unstructured_judge_answer_is_taken_as_it_is() {
    let strategy = JudgeSynthesis::new();
    assert!(braced_text("no json here").is_none());
    let result = strategy.conclude(3, read("no json here"), "no json here".to_string());
    assert_eq!(result.content, "no json here");
    assert!(matches!(result.agreement, Agreement::Exact(Ratio { num: 1, den: 1 })));
    assert!(result.dissents.is_empty());
    assert_eq!(result.reasoning.as_deref(), Some("Judge response was not in structured format"));
}

#[test]
fn judge_needs_candidates() {
    let strategy = JudgeSynthesis::new();
    assert_eq!(strategy.prepare(&Vec::new(), true).err(), Some(ConsensusError::NoCandidates));
    assert_eq!(strategy.name(), "judge_synthesis");
    let custom = JudgeSynthesis::new().with_system_prompt("be brief");
    assert_eq!(custom.system_prompt, "be brief");
    assert!(custom.rubric.is_none());
}
