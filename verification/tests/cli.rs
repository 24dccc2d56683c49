use caucus::cli::{
    default_format, default_strategy, is_debate_strategy, judge_model_name, mcp_action,
    meets_expectation, needs_subcommand_injection, occurs, tally_matches, pipeline_from_request, strategy_needs_llm,
    AskArgs, BenchArgs, CompareArgs, DebateArgs, McpAction, ServeArgs, StepRequest,
};

fn args(v: &[&str]) -> Vec<String> {
    v.iter().map(|s| s.to_string()).collect()
}

#[test]
fn bare_question_gets_ask_injected() {
    assert!(needs_subcommand_injection(&args(&["caucus", "What is 2+2?"])));
    assert!(needs_subcommand_injection(&args(&["caucus", "--env", "x.env", "question"])));
    assert!(needs_subcommand_injection(&args(&["caucus", "--env=x.env", "-v", "question"])));
}

#[test]
fn known_subcommands_and_help_are_left_alone() {
    assert!(!needs_subcommand_injection(&args(&["caucus", "ask", "q"])));
    assert!(!needs_subcommand_injection(&args(&["caucus", "serve"])));
    assert!(!needs_subcommand_injection(&args(&["caucus", "--help"])));
    assert!(!needs_subcommand_injection(&args(&["caucus", "-V", "q"])));
    assert!(!needs_subcommand_injection(&args(&["caucus"])));
    assert!(!needs_subcommand_injection(&args(&["caucus", "--env", "compare"])));
    assert!(!needs_subcommand_injection(&args(&["caucus", "--env", "x.env", "help"])));
}

#[test]
fn strategy_name_predicates() {
    assert!(is_debate_strategy("debate"));
    assert!(is_debate_strategy("multi-round-debate"));
    assert!(!is_debate_strategy("debate-then-vote"));
    assert!(strategy_needs_llm("judge"));
    assert!(strategy_needs_llm("debate_then_vote"));
    assert!(!strategy_needs_llm("majority-vote"));
    assert!(!strategy_needs_llm("weighted_vote"));
    assert_eq!(default_strategy(), "majority_vote");
    assert_eq!(default_format(), "json");
}

#[test]
fn command_defaults() {
    let a = AskArgs::new("q");
    assert_eq!((a.strategy.as_str(), a.format.as_str(), a.rounds), ("judge", "plain", 3));
    assert!(a.passes_through(1));
    assert!(!a.passes_through(2));
    let mut b = AskArgs::new("q");
    b.strategy = "majority-vote".to_string();
    assert!(b.passes_through(1));
    let c = CompareArgs::new("q");
    assert_eq!(c.strategies, vec!["majority-vote".to_string(), "weighted-vote".to_string()]);
    let d = DebateArgs::new("q");
    assert_eq!((d.rounds, d.format.as_str()), (3, "detailed"));
    let b = BenchArgs::new("cases.jsonl");
    assert_eq!(b.strategies, vec!["majority-vote".to_string()]);
    let s = ServeArgs::new();
    assert_eq!((s.port, s.host.as_str(), s.mcp), (8080, "127.0.0.1", false));
}

#[test]
fn bench_expectations_ignore_case() {
    assert_eq!(meets_expectation("The Answer is 42", &Some("answer IS 42".to_string())), Some(true));
    assert_eq!(meets_expectation("The answer is 7", &Some("42".to_string())), Some(false));
    assert_eq!(meets_expectation("anything", &None), None);
    assert_eq!(meets_expectation("x", &Some(String::new())), Some(true));
}

#[test]
fn pipeline_requests() {
    let steps = vec![
        StepRequest { step: "generate".into(), rounds: None, method: None },
        StepRequest { step: "debate".into(), rounds: None, method: None },
        StepRequest { step: "vote".into(), rounds: None, method: Some("weighted".into()) },
        StepRequest { step: "synthesize".into(), rounds: None, method: None },
    ];
    let p = pipeline_from_request(&steps, &vec!["m".to_string()]).unwrap();
    assert_eq!(p.len(), 4);
    let bad = vec![
        StepRequest { step: "vote".into(), rounds: None, method: None },
        StepRequest { step: "dance".into(), rounds: None, method: None },
        StepRequest { step: "wiggle".into(), rounds: None, method: None },
    ];
    assert_eq!(pipeline_from_request(&bad, &vec![]).err(), Some("dance".to_string()));
}

#[test]
fn judge_model_and_mcp_dispatch() {
    assert_eq!(judge_model_name(&Some(Some("model-x".to_string()))), "model-x");
    assert_eq!(judge_model_name(&Some(None)), "gpt-4o");
    assert_eq!(judge_model_name(&None), "gpt-4o");
    assert!(matches!(mcp_action("initialize", ""), McpAction::Initialize));
    assert!(matches!(mcp_action("tools/list", ""), McpAction::ListTools));
    assert!(matches!(mcp_action("tools/call", "consensus"), McpAction::CallConsensus));
    assert!(matches!(mcp_action("tools/call", "other"), McpAction::UnknownTool(t) if t == "other"));
    assert!(matches!(mcp_action("ping", ""), McpAction::UnknownMethod(m) if m == "ping"));
}

#[test]
fn occurs_finds_substrings() {
    let c = |s: &str| s.chars().collect::<Vec<char>>();
    assert!(occurs(&c("the answer is 42"), &c("42")));
    assert!(occurs(&c("abc"), &c("")));
    assert!(!occurs(&c("ab"), &c("abc")));
    assert!(!occurs(&c("abcabd"), &c("abe")));
}

#[test]
fn bench_outcomes_are_tallied() {
    assert_eq!(tally_matches(&vec![Some(true), None, Some(false), Some(true), None]), (2, 1, 2));
    assert_eq!(tally_matches(&vec![]), (0, 0, 0));
}
