use vstd::prelude::*;
use vstd::string::StringExecFns;

use crate::fmt::{decimal, decimal_string};
use crate::text::{join, join_strings, views};
use crate::types::{Candidate, ConsensusError, StrategyKind};

verus! {

/// One member of the winning cluster as the synthesis prompt shows it, numbered from one by
/// its position among all candidates.
pub open spec fn cluster_block(i: usize, c: Candidate) -> Seq<char> {
    "--- Response "@ + decimal((i + 1) as nat) + " ---\n"@ + c.content@
}

/// The prompt that asks for one response synthesized from the members of a cluster.
pub open spec fn cluster_synthesis_prompt(cs: Seq<Candidate>, cluster: Seq<usize>) -> Seq<char> {
    "The following responses were identified as semantically similar. Synthesize them into a single, comprehensive response:\n\n"@
        + join(Seq::new(cluster.len(), |k: int| cluster_block(cluster[k], cs[cluster[k] as int])), "\n\n"@)
}

/// Checks what semantic clustering needs before embeddings are asked for: an LLM and at
/// least one candidate.
pub fn clustering_ready(candidates: usize, has_llm: bool) -> (r: Result<(), ConsensusError>)
    ensures
        !has_llm ==> r == Err::<(), ConsensusError>(ConsensusError::LlmRequired(StrategyKind::SemanticClustering)),
        has_llm && candidates == 0 ==> r == Err::<(), ConsensusError>(ConsensusError::NoCandidates),
        has_llm && candidates > 0 ==> r is Ok,
{
    if !has_llm {
        Err(ConsensusError::LlmRequired(StrategyKind::SemanticClustering))
    } else if candidates == 0 {
        Err(ConsensusError::NoCandidates)
    } else {
        Ok(())
    }
}

/// The prompt that asks for one response synthesized from the members of the winning
/// cluster, given by their positions among the candidates.
pub fn cluster_synthesis_request(candidates: &Vec<Candidate>, cluster: &Vec<usize>) -> (p: String)
    requires
        forall|k: int| 0 <= k < cluster@.len() ==> #[trigger] cluster@[k] < candidates@.len(),
    ensures
        p@ == cluster_synthesis_prompt(candidates@, cluster@),
{
    let total = candidates.len();
    let mut blocks: Vec<String> = Vec::new();
    let mut k: usize = 0;
    while k < cluster.len()
        invariant
            k <= cluster@.len(),
            total == candidates@.len(),
            forall|j: int| 0 <= j < cluster@.len() ==> #[trigger] cluster@[j] < candidates@.len(),
            views(blocks@) == Seq::new(k as nat, |j: int| cluster_block(cluster@[j], candidates@[cluster@[j] as int])),
        decreases cluster@.len() - k,
    {
        let i = cluster[k];
        let mut b = String::from_str("--- Response ");
        b.append(decimal_string(i as u64 + 1).as_str());
        b.append(" ---\n");
        b.append(candidates[i].content.as_str());
        let ghost before = views(blocks@);
        blocks.push(b);
        proof {
            assert(views(blocks@) =~= before.push(b@));
            assert(views(blocks@) =~= Seq::new((k + 1) as nat, |j: int| cluster_block(cluster@[j], candidates@[cluster@[j] as int])));
        }
        k = k + 1;
    }
    let mut p = String::from_str("The following responses were identified as semantically similar. Synthesize them into a single, comprehensive response:\n\n");
    p.append(join_strings(&blocks, "\n\n").as_str());
    p
}

/// The reasoning text of semantic clustering.
pub open spec fn clustering_reasoning(clusters: nat, winning: nat, total: nat) -> Seq<char> {
    "Found "@ + decimal(clusters) + " clusters; dominant cluster has "@ + decimal(winning) + " of "@ + decimal(total)
        + " candidates"@
}

pub fn clustering_reasoning_text(clusters: usize, winning: usize, total: usize) -> (s: String)
    ensures
        s@ == clustering_reasoning(clusters as nat, winning as nat, total as nat),
{
    let mut s = String::from_str("Found ");
    s.append(decimal_string(clusters as u64).as_str());
    s.append(" clusters; dominant cluster has ");
    s.append(decimal_string(winning as u64).as_str());
    s.append(" of ");
    s.append(decimal_string(total as u64).as_str());
    s.append(" candidates");
    s
}

} // verus!
