use caucus::debate::MultiRoundDebate;
use caucus::hybrid::DebateThenVote;
use caucus::pipeline::{Pipeline, PipelineAction, VoteMethod};
use caucus::provider::{MockProvider, MultiProvider};
use caucus::ratio::{Ratio, Threshold};
use caucus::types::{Agreement, Candidate, Consensus, ConsensusError};

/// Runs a pipeline whose steps need no LLM beyond generation; each model answers with the
/// text registered for it.
fn run(pipeline: &Pipeline, prompt: &str, provider: &MultiProvider<String>) -> Result<Consensus, ConsensusError> {
    let mut state = pipeline.start();
    loop {
        match pipeline.step(&mut state, false) {
            PipelineAction::Generate(models) => {
                let mut answers = Vec::new();
                for m in &models {
                    let answer = provider.get(m).ok_or(ConsensusError::NoProvider(m.clone()))?;
                    answers.push(answer.clone());
                }
                state.generated(&models, answers, prompt);
            }
            PipelineAction::Continue => {}
            PipelineAction::Finished => return state.outcome(),
            PipelineAction::Fail(e) => return Err(e),
            PipelineAction::Debate(_) | PipelineAction::WeightedVote | PipelineAction::Judge => {
                panic!("step needs work this test does not do")
            }
        }
    }
}

#[test]
fn pipeline_generate_and_vote() {
    let provider = MultiProvider::new()
        .add("model-a", "The answer is 42".to_string())
        .add("model-b", "The answer is 42".to_string())
        .add("model-c", "Something else entirely".to_string());
    let pipeline = Pipeline::new()
        .generate(vec!["model-a".into(), "model-b".into(), "model-c".into()])
        .vote(VoteMethod::Majority);
    let result = run(&pipeline, "What is the answer?", &provider).unwrap();
    assert_eq!(result.content, "The answer is 42");
}

#[test]
fn test_pipeline_generate_vote() {
    let provider = MultiProvider::new()
        .add("a", "The answer is 42".to_string())
        .add("b", "The answer is 42".to_string())
        .add("c", "The answer is 7".to_string());
    let pipeline = Pipeline::new()
        .generate(vec!["a".into(), "b".into(), "c".into()])
        .vote(VoteMethod::Majority);
    let result = run(&pipeline, "What is the answer?", &provider).unwrap();
    assert_eq!(result.content, "The answer is 42");
    match result.agreement {
        Agreement::Exact(r) => assert!(r.num as f64 / r.den as f64 > 0.5),
        Agreement::MeanOf(_) => panic!("majority votes agree exactly"),
    }
}

#[test]
fn consensus_convenience_function() {
    let candidates = vec![Candidate::new("Answer A"), Candidate::new("Answer A"), Candidate::new("Answer B")];
    let result = caucus::vote::MajorityVote::new().resolve(&candidates).unwrap();
    assert_eq!(result.strategy, "majority_vote");
    match result.agreement {
        Agreement::Exact(r) => assert!(r.num as f64 / r.den as f64 > 0.5),
        Agreement::MeanOf(_) => panic!("majority votes agree exactly"),
    }
}

#[test]
fn empty_pipeline_has_no_result() {
    let pipeline = Pipeline::new();
    let mut state = pipeline.start();
    assert!(matches!(pipeline.step(&mut state, true), PipelineAction::Finished));
    assert_eq!(state.outcome().err(), Some(ConsensusError::NoResult));
}

#[test]
fn judge_and_debate_steps_need_an_llm() {
    let pipeline = Pipeline::new().judge();
    let mut state = pipeline.start();
    assert!(matches!(pipeline.step(&mut state, false), PipelineAction::Fail(ConsensusError::JudgeStepNeedsLlm)));
    assert!(matches!(pipeline.step(&mut state, true), PipelineAction::Judge));
    let pipeline = Pipeline::new().debate(2);
    let mut state = pipeline.start();
    assert!(matches!(pipeline.step(&mut state, false), PipelineAction::Fail(ConsensusError::DebateStepNeedsLlm)));
    match pipeline.step(&mut state, true) {
        PipelineAction::Debate(config) => {
            assert_eq!(config.max_rounds, 2);
            assert_eq!(config.convergence_threshold, Threshold::new(9, 10));
        }
        _ => panic!("expected a debate"),
    }
}

#[test]
fn majority_vote_step_without_candidates_fails() {
    let pipeline = Pipeline::new().vote(VoteMethod::Majority);
    let mut state = pipeline.start();
    assert!(matches!(pipeline.step(&mut state, false), PipelineAction::Fail(ConsensusError::NoCandidates)));
}

#[test]
fn debate_step_puts_outcome_first() {
    let pipeline = Pipeline::new()
        .generate(vec!["a".into(), "b".into()])
        .debate_with_convergence(1, Threshold::new(1, 2))
        .vote(VoteMethod::Majority);
    assert_eq!(pipeline.len(), 3);
    let mut state = pipeline.start();
    match pipeline.step(&mut state, true) {
        PipelineAction::Generate(models) => {
            state.generated(&models, vec!["x one".into(), "y two".into()], "q");
        }
        _ => panic!("expected generation"),
    }
    assert_eq!(state.candidates[0].model.as_deref(), Some("a"));
    assert_eq!(state.candidates[1].metadata_value("question").map(|s| s.as_str()), Some("q"));
    match pipeline.step(&mut state, true) {
        PipelineAction::Debate(config) => {
            let debate = MultiRoundDebate::with_config(config);
            let mut session = debate.start(&state.candidates, true).unwrap();
            assert_eq!(session.question, "q");
            while let Some(_p) = debate.next_prompt(&session) {
                debate.record(&mut session, "x one".into());
            }
            let outcome = debate.finish(&session, &state.candidates, None);
            state.debated(outcome);
        }
        _ => panic!("expected a debate"),
    }
    let contents: Vec<&str> = state.candidates.iter().map(|c| c.content.as_str()).collect();
    assert_eq!(contents, vec!["x one", "x one", "y two"]);
    assert_eq!(state.candidates[0].metadata_value("source").map(|s| s.as_str()), Some("debate"));
    assert!(matches!(pipeline.step(&mut state, true), PipelineAction::Continue));
    assert!(matches!(pipeline.step(&mut state, true), PipelineAction::Finished));
    let result = state.outcome().unwrap();
    assert_eq!(result.content, "x one");
    assert_eq!(result.dissents, vec![2]);
}

#[test]
fn debate_then_vote_basic() {
    let mut provider = MockProvider::fixed("The consensus after debate.");
    let candidates = vec![Candidate::new("Position A"), Candidate::new("Position B"), Candidate::new("Position C")];
    let strategy = DebateThenVote::new().with_debate_rounds(1);
    let debate = strategy.debate();
    let mut session = strategy.start(&candidates, true).unwrap();
    while let Some(p) = debate.next_prompt(&session) {
        let refined = provider.complete(&p, None);
        debate.record(&mut session, refined);
    }
    let request = debate.classification_request(&session, &candidates);
    let _answer = provider.complete(&request, None);
    let debated = debate.finish(&session, &candidates, None);
    let result = strategy.conclude(&debated.content, &candidates);
    assert_eq!(result.strategy, "debate_then_vote");
    assert!(!result.content.is_empty());
    // the three positions are similar enough to outvote the debate's outcome
    assert_eq!(result.content, "Position A");
    assert_eq!(result.dissents, vec![0]);
    assert!(matches!(result.agreement, Agreement::Exact(Ratio { num: 3, den: 4 })));
}

#[test]
fn debate_then_vote_pool_and_errors() {
    let candidates = vec![Candidate::new("same"), Candidate::new("same"), Candidate::new("other")];
    let strategy = DebateThenVote::new();
    let pool = strategy.vote_pool(&"outcome".to_string(), &candidates);
    let contents: Vec<&str> = pool.iter().map(|c| c.content.as_str()).collect();
    assert_eq!(contents, vec!["outcome", "same", "same", "other"]);
    assert_eq!(pool[0].metadata_value("source").map(|s| s.as_str()), Some("debate_synthesis"));
    let result = strategy.conclude(&"same".to_string(), &candidates);
    assert_eq!(result.content, "same");
    assert!(matches!(result.agreement, Agreement::Exact(Ratio { num: 3, den: 4 })));
    assert_eq!(result.dissents, vec![3]);
    assert!(result.reasoning.is_none());
    assert_eq!(
        strategy.start(&candidates, false).err(),
        Some(ConsensusError::LlmRequired(caucus::types::StrategyKind::DebateThenVote))
    );
}

#[test]
fn unregistered_model_is_an_error() {
    let provider = MultiProvider::new().add("model-a", "x".to_string());
    let pipeline = Pipeline::new().generate(vec!["model-z".into()]).vote(VoteMethod::Majority);
    assert_eq!(
        run(&pipeline, "q", &provider).err(),
        Some(ConsensusError::NoProvider("model-z".to_string()))
    );
}
