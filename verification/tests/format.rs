use caucus::format::{preview, render_plain, render_supreme_court, ConsensusReport, OutputFormat};
use caucus::types::Candidate;

fn report() -> ConsensusReport {
    ConsensusReport {
        content: "Test response".to_string(),
        strategy: "majority_vote".to_string(),
        reasoning: Some("1 of 2 candidates agreed (threshold: 80%)".to_string()),
        candidates: vec![
            Candidate::new("Test response").with_model("model-a"),
            Candidate::new("Different response").with_model("model-b"),
        ],
        dissents: vec![Candidate::new("Different response").with_model("model-b")],
    }
}

#[test]
fn supreme_court_and_plain_output() {
    let r = report();
    let plain = render_plain(&r);
    assert!(!plain.is_empty());
    let sc = render_supreme_court(&r, "50", "50.0");
    assert!(sc.contains("MAJORITY OPINION"));
    assert!(sc.contains("VOTE SUMMARY"));
    assert!(sc.contains("  CONSENSUS OPINION \u{2014} majority_vote Strategy\n  Agreement: 50%\n"));
    assert!(sc.contains("  DISSENTS (1)\n"));
    assert!(sc.contains("  1. model-b wrote:\n\n     Different response\n\n"));
    assert!(!sc.contains("CONCURRENCES"));
    assert!(sc.ends_with(
        "  Total candidates: 2\n  In agreement:     1\n  Dissenting:       1\n  Agreement score:  50.0%\n"
    ));
}

#[test]
fn concurrences_leave_out_the_consensus_text_and_dissents() {
    let mut r = report();
    r.candidates.push(Candidate::new("Agreeing but worded differently"));
    r.dissents.clear();
    r.reasoning = None;
    let sc = render_supreme_court(&r, "100", "100.0");
    assert!(sc.contains("  CONCURRENCES (2)\n"));
    assert!(sc.contains("  1. model-b wrote:\n\n     Different response\n\n"));
    assert!(sc.contains("  2. Anonymous wrote:\n\n     Agreeing but worded differently\n\n"));
    assert!(!sc.contains("REASONING"));
    assert!(!sc.contains("DISSENTS"));
}

#[test]
fn previews_keep_five_non_blank_lines() {
    let (text, cut) = preview("a\n\n  \nb\nc", 5);
    assert_eq!(text, "a\nb\nc");
    assert!(!cut);
    let (text, cut) = preview("1\n2\n3\n4\n5\n6\n7", 5);
    assert_eq!(text, "1\n2\n3\n4\n5");
    assert!(cut);
    let mut r = report();
    r.dissents = vec![Candidate::new("1\n2\n3\n4\n5\n6")];
    let sc = render_supreme_court(&r, "50", "50.0");
    assert!(sc.contains("     5\n\n     ... [truncated \u{2014} use -f detailed for full text]\n\n"));
}

#[test]
fn output_format_names() {
    assert_eq!(OutputFormat::parse("plain"), Some(OutputFormat::Plain));
    assert_eq!(OutputFormat::parse("json"), Some(OutputFormat::Json));
    assert_eq!(OutputFormat::parse("supreme-court"), Some(OutputFormat::SupremeCourt));
    assert_eq!(OutputFormat::parse("detailed"), Some(OutputFormat::Detailed));
    assert_eq!(OutputFormat::parse("xml"), None);
}
