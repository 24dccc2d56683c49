use caucus::ratio::{Ratio, Threshold};
use caucus::types::{Agreement, Candidate, ConsensusError};
use caucus::text::{bigram_fraction_of, word_fraction_of};
use caucus::vote::{group_by_similarity, weight_for, weighted_pick, MajorityVote};

fn candidates(texts: &[&str]) -> Vec<Candidate> {
    texts.iter().map(|t| Candidate::new(t)).collect()
}

fn exact(a: &Agreement) -> (u128, u128) {
    match a {
        Agreement::Exact(r) => (r.num, r.den),
        Agreement::MeanOf(_) => panic!("expected an exact agreement"),
    }
}

#[test]
fn majority_vote_unanimous() {
    let cs = candidates(&["The answer is 42", "The answer is 42", "The answer is 42"]);
    let result = MajorityVote::new().resolve(&cs).unwrap();
    let (n, d) = exact(&result.agreement);
    assert_eq!(n as f64 / d as f64, 1.0);
    assert!(result.dissents.is_empty());
}

#[test]
fn majority_vote_split() {
    let cs = candidates(&["The answer is 42", "The answer is 42", "The answer is definitely 7"]);
    let result = MajorityVote::new().resolve(&cs).unwrap();
    let (n, d) = exact(&result.agreement);
    assert!(n as f64 / d as f64 > 0.5);
    assert_eq!(result.dissents.len(), 1);
}

#[test]
fn majority_vote_empty_candidates() {
    let result = MajorityVote::new().resolve(&Vec::new());
    assert!(result.is_err());
    assert_eq!(result.err(), Some(ConsensusError::NoCandidates));
}

#[test]
fn test_majority_vote_with_agreement() {
    let cs = candidates(&[
        "Paris is the capital of France",
        "Paris is the capital of France",
        "I think the answer involves quantum mechanics and string theory",
    ]);
    let result = MajorityVote::new().resolve(&cs).unwrap();
    assert_eq!(result.strategy, "majority_vote");
    assert!(result.content.contains("Paris"));
    assert_eq!(exact(&result.agreement), (2, 3));
    assert_eq!(result.dissents, vec![2]);
}

#[test]
fn majority_vote_single_candidate() {
    let cs = candidates(&["only one"]);
    let result = MajorityVote::new().resolve(&cs).unwrap();
    assert_eq!(result.content, "only one");
    assert_eq!(exact(&result.agreement), (1, 1));
    assert_eq!(result.reasoning.as_deref(), Some("Only one candidate provided"));
}

#[test]
fn majority_vote_reasoning_and_case_insensitive_grouping() {
    let cs = candidates(&["Answer A", "answer a", "Answer B completely different"]);
    let result = MajorityVote::new().resolve(&cs).unwrap();
    assert_eq!(result.content, "Answer A");
    assert_eq!(result.reasoning.as_deref(), Some("2 of 3 candidates agreed (threshold: 90%)"));
    assert_eq!(result.dissents, vec![2]);
}

#[test]
fn majority_vote_ties_go_to_the_first_group() {
    let cs = candidates(&["alpha beta gamma", "zzzz yyyy", "alpha beta gamma", "zzzz yyyy"]);
    let result = MajorityVote::new().resolve(&cs).unwrap();
    assert_eq!(result.content, "alpha beta gamma");
    assert_eq!(result.dissents, vec![1, 3]);
    assert_eq!(exact(&result.agreement), (2, 4));
}

#[test]
fn grouping_follows_each_groups_first_member() {
    let cs = candidates(&["The answer is 42", "The answer is 42!", "Something else", "something else"]);
    let groups = group_by_similarity(&cs, &Threshold::new(4, 5));
    assert_eq!(groups, vec![vec![0, 1], vec![2, 3]]);
    let strict = group_by_similarity(&cs, &Threshold::new(1, 1));
    assert_eq!(strict, vec![vec![0], vec![1], vec![2, 3]]);
}

#[test]
fn lower_threshold_percent_in_reasoning() {
    let cs = candidates(&["x y", "x y", "p q"]);
    let result = MajorityVote::new().with_threshold(Threshold::new(1, 2)).resolve(&cs).unwrap();
    assert_eq!(result.reasoning.as_deref(), Some("2 of 3 candidates agreed (threshold: 50%)"));
    let _ = Ratio::one();
}

#[test]
fn weights_prefer_confidence_then_model_then_default() {
    assert_eq!(weight_for(Some(0.9), Some(2.0), 1.0), 0.9);
    assert_eq!(weight_for(None, Some(2.0), 1.0), 2.0);
    assert_eq!(weight_for(None, None, 1.0), 1.0);
    assert_eq!(weight_for::<u32>(None, None, 7), 7);
}

#[test]
fn majority_vote_readme_example() {
    let cs = vec![
        Candidate::new("The answer is 42").with_model("gpt-5.2"),
        Candidate::new("The answer is 42").with_model("opus-4-6"),
        Candidate::new("The answer is 7").with_model("gemini-3.1-pro-preview"),
    ];
    let result = MajorityVote::new().resolve(&cs).unwrap();
    assert_eq!(result.content, "The answer is 42");
    let (n, d) = exact(&result.agreement);
    assert_eq!((n, d), (2, 3));
    assert_eq!(format!("{:.0}%", n as f64 / d as f64 * 100.0), "67%");
    assert_eq!(result.dissents, vec![2]);
}

fn chars(s: &str) -> Vec<char> {
    s.chars().collect()
}

#[test]
fn bigram_fraction_counts_repeats_and_stays_at_most_one() {
    // each of the three "aa" of "aaaa" occurs in "aab": 6/5, taken as one
    assert_eq!(bigram_fraction_of(&chars("aaaa"), &chars("aab")), (5, 5));
    // "ab", "ba", "ab": both "ab" occur in "abx"
    assert_eq!(bigram_fraction_of(&chars("abab"), &chars("abx")), (4, 5));
    assert_eq!(bigram_fraction_of(&chars("the answer is 42"), &chars("the answer is 7")), (26, 29));
    assert_eq!(bigram_fraction_of(&chars("abc"), &chars("abc")), (1, 1));
    assert_eq!(bigram_fraction_of(&chars("a"), &chars("ab")), (0, 1));
}

#[test]
fn word_fraction_is_jaccard_of_word_sets() {
    let w = |s: &str| s.split_whitespace().map(|x| x.to_string()).collect::<Vec<String>>();
    assert_eq!(word_fraction_of(&w("a b b c"), &w("b c d")), (2, 4));
    assert_eq!(word_fraction_of(&w(""), &w("")), (1, 1));
    assert_eq!(word_fraction_of(&w("x"), &w("")), (0, 1));
}

#[test]
fn weighted_pick_takes_first_heaviest_group_and_last_heaviest_member() {
    let groups = vec![vec![0, 2], vec![1]];
    let pick = weighted_pick(&groups, &vec![5, 9, 5]);
    assert_eq!((pick.group, pick.best, pick.group_weight, pick.total_weight), (0, 2, 10, 19));
    let pick = weighted_pick(&groups, &vec![1, 9, 5]);
    assert_eq!((pick.group, pick.best, pick.group_weight, pick.total_weight), (1, 1, 9, 15));
    let tie = weighted_pick(&vec![vec![0], vec![1]], &vec![3, 3]);
    assert_eq!((tie.group, tie.best), (0, 0));
}

#[test]
fn weighted_vote_prefers_confidence() {
    let cs = vec![
        Candidate::new("Answer A").with_confidence(Ratio::new(9, 10)),
        Candidate::new("Answer B completely different").with_confidence(Ratio::new(1, 10)),
    ];
    let groups = group_by_similarity(&cs, &Threshold::new(3, 10));
    let pick = weighted_pick(&groups, &vec![90, 10]);
    assert_eq!(cs[pick.best].content, "Answer A");
}

#[test]
fn test_weighted_vote_with_confidence() {
    let cs = vec![
        Candidate::new("The answer is 42").with_confidence(Ratio::new(95, 100)).with_model("expert-model"),
        Candidate::new("Something completely unrelated to anything").with_confidence(Ratio::new(10, 100)).with_model("bad-model"),
        Candidate::new("The answer is 42").with_confidence(Ratio::new(85, 100)).with_model("good-model"),
    ];
    let groups = group_by_similarity(&cs, &Threshold::new(4, 5));
    // weights in hundredths
    let pick = weighted_pick(&groups, &vec![95, 10, 85]);
    assert!(pick.group_weight as f64 / pick.total_weight as f64 > 0.5);
    assert!(cs[pick.best].content.contains("42"));
}
