use caucus::semantic::{cluster_synthesis_request, clustering_ready, clustering_reasoning_text};
use caucus::types::{Candidate, ConsensusError, StrategyKind};

#[test]
fn clustering_needs_an_llm_and_candidates() {
    assert_eq!(
        clustering_ready(3, false),
        Err(ConsensusError::LlmRequired(StrategyKind::SemanticClustering))
    );
    assert_eq!(clustering_ready(0, true), Err(ConsensusError::NoCandidates));
    assert_eq!(clustering_ready(2, true), Ok(()));
    assert_eq!(
        ConsensusError::LlmRequired(StrategyKind::SemanticClustering).message(),
        "SemanticClustering requires an LLM provider with embedding support"
    );
}

#[test]
fn cluster_synthesis_prompt_numbers_by_position() {
    let cs = vec![Candidate::new("zero"), Candidate::new("one"), Candidate::new("two")];
    let p = cluster_synthesis_request(&cs, &vec![0, 2]);
    assert_eq!(
        p,
        "The following responses were identified as semantically similar. Synthesize them into a single, comprehensive response:\n\n--- Response 1 ---\nzero\n\n--- Response 3 ---\ntwo"
    );
    assert_eq!(clustering_reasoning_text(2, 2, 3), "Found 2 clusters; dominant cluster has 2 of 3 candidates");
}
