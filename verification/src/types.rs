use vstd::prelude::*;
use vstd::string::StringExecFns;

use crate::ratio::Ratio;

verus! {

/// Whether two texts are the same sequence of characters.
pub fn str_eq(a: &str, b: &str) -> (r: bool)
    ensures
        r == (a@ == b@),
{
    String::from_str(a) == String::from_str(b)
}

/// A copy of an optional string.
pub fn clone_opt(s: &Option<String>) -> (r: Option<String>)
    ensures
        r == *s,
{
    match s {
        Some(v) => Some(v.clone()),
        None => None,
    }
}

/// Metadata as an append-only list of entries; a later entry for a key overrides earlier ones.
pub open spec fn meta_map(md: Seq<(String, String)>) -> Map<Seq<char>, Seq<char>>
    decreases md.len(),
{
    if md.len() == 0 {
        Map::empty()
    } else {
        meta_map(md.drop_last()).insert(md.last().0@, md.last().1@)
    }
}

/// A key is in the metadata map exactly when some entry has it.
pub proof fn lemma_meta_map_has(md: Seq<(String, String)>, k: Seq<char>)
    ensures
        meta_map(md).contains_key(k) <==> exists|i: int| 0 <= i < md.len() && md[i].0@ == k,
    decreases md.len(),
{
    if md.len() > 0 {
        let init = md.drop_last();
        lemma_meta_map_has(init, k);
        if exists|i: int| 0 <= i < md.len() && md[i].0@ == k {
            let i = choose|i: int| 0 <= i < md.len() && md[i].0@ == k;
            if i < init.len() {
                assert(init[i] == md[i]);
            }
        }
        if exists|i: int| 0 <= i < init.len() && init[i].0@ == k {
            let i = choose|i: int| 0 <= i < init.len() && init[i].0@ == k;
            assert(init[i] == md[i]);
        }
    }
}

/// The value of a key is that of the last entry that has it.
pub proof fn lemma_meta_map_value(md: Seq<(String, String)>, k: Seq<char>, j: int)
    requires
        0 <= j < md.len(),
        md[j].0@ == k,
        forall|i: int| j < i < md.len() ==> md[i].0@ != k,
    ensures
        meta_map(md).contains_key(k),
        meta_map(md)[k] == md[j].1@,
    decreases md.len(),
{
    let init = md.drop_last();
    if j < md.len() - 1 {
        assert(md.last() == md[md.len() - 1]);
        assert forall|i: int| j < i < init.len() implies init[i].0@ != k by {
            assert(init[i] == md[i]);
        }
        assert(init[j] == md[j]);
        lemma_meta_map_value(init, k, j);
    }
}

/// A single response submitted for consensus.
pub struct Candidate {
    pub content: String,
    pub model: Option<String>,
    /// Confidence, for weighted voting.
    pub confidence: Option<Ratio>,
    /// Metadata entries; a later entry for a key overrides earlier ones.
    pub metadata: Vec<(String, String)>,
}

impl Candidate {
    /// The metadata as a map from key to value.
    pub open spec fn meta(&self) -> Map<Seq<char>, Seq<char>> {
        meta_map(self.metadata@)
    }

    pub fn new(content: &str) -> (c: Candidate)
        ensures
            c.content@ == content@,
            c.model is None,
            c.confidence is None,
            c.meta() == Map::<Seq<char>, Seq<char>>::empty(),
    {
        let c = Candidate {
            content: String::from_str(content),
            model: None,
            confidence: None,
            metadata: Vec::new(),
        };
        proof {
            assert(c.meta() =~= Map::<Seq<char>, Seq<char>>::empty());
        }
        c
    }

    pub fn with_model(self, model: &str) -> (c: Candidate)
        ensures
            c.content == self.content,
            c.model matches Some(m) && m@ == model@,
            c.confidence == self.confidence,
            c.metadata == self.metadata,
    {
        Candidate { model: Some(String::from_str(model)), ..self }
    }

    pub fn with_confidence(self, confidence: Ratio) -> (c: Candidate)
        ensures
            c.content == self.content,
            c.model == self.model,
            c.confidence == Some(confidence),
            c.metadata == self.metadata,
    {
        Candidate { confidence: Some(confidence), ..self }
    }

    pub fn with_metadata(self, key: &str, value: &str) -> (c: Candidate)
        ensures
            c.content == self.content,
            c.model == self.model,
            c.confidence == self.confidence,
            c.meta() == self.meta().insert(key@, value@),
    {
        let mut metadata = self.metadata;
        let ghost before = metadata@;
        metadata.push((String::from_str(key), String::from_str(value)));
        proof {
            assert(metadata@.drop_last() =~= before);
        }
        Candidate { metadata, ..self }
    }

    /// The value of a metadata key, if any.
    pub fn metadata_value(&self, key: &str) -> (r: Option<&String>)
        ensures
            r matches Some(v) ==> self.meta().contains_key(key@) && self.meta()[key@] == v@,
            r is None ==> !self.meta().contains_key(key@),
    {
        let md = &self.metadata;
        let mut i: usize = md.len();
        while i > 0
            invariant
                i <= md@.len(),
                md@ == self.metadata@,
                forall|j: int| i <= j < md@.len() ==> md@[j].0@ != key@,
            decreases i,
        {
            i = i - 1;
            if str_eq(md[i].0.as_str(), key) {
                proof {
                    lemma_meta_map_value(md@, key@, i as int);
                }
                return Some(&md[i].1);
            }
        }
        proof {
            lemma_meta_map_has(md@, key@);
        }
        None
    }

    /// A copy of this candidate.
    pub fn duplicate(&self) -> (c: Candidate)
        ensures
            c.content == self.content,
            c.model == self.model,
            c.confidence == self.confidence,
            c.metadata@ == self.metadata@,
    {
        let mut metadata: Vec<(String, String)> = Vec::new();
        let mut i: usize = 0;
        while i < self.metadata.len()
            invariant
                i <= self.metadata@.len(),
                metadata@ == self.metadata@.take(i as int),
            decreases self.metadata@.len() - i,
        {
            let entry = (self.metadata[i].0.clone(), self.metadata[i].1.clone());
            metadata.push(entry);
            proof {
                assert(self.metadata@.take(i + 1) =~= self.metadata@.take(i as int).push(self.metadata@[i as int]));
            }
            i = i + 1;
        }
        proof {
            assert(self.metadata@.take(self.metadata@.len() as int) =~= self.metadata@);
            assert(metadata@ =~= self.metadata@);
        }
        Candidate {
            content: self.content.clone(),
            model: clone_opt(&self.model),
            confidence: self.confidence,
            metadata,
        }
    }
}

/// The contents of a list of candidates.
pub open spec fn contents(c: Seq<Candidate>) -> Seq<Seq<char>> {
    c.map_values(|x: Candidate| x.content@)
}

/// How much the candidates agree, from zero (none) to one (unanimous).
pub enum Agreement {
    /// An exact fraction.
    Exact(Ratio),
    /// The mean of these fractions, taken where the agreement is shown as a number.
    MeanOf(Vec<Ratio>),
}

impl Agreement {
    /// Full agreement.
    pub open spec fn is_full(self) -> bool {
        self == Agreement::Exact(Ratio { num: 1, den: 1 })
    }
}

/// The consensus that a strategy reaches over a list of candidates.
pub struct Consensus {
    /// The consensus output text.
    pub content: String,
    /// Which strategy produced it.
    pub strategy: String,
    /// Agreement from zero (none) to one (unanimous).
    pub agreement: Agreement,
    /// Positions, in the list of candidates that was evaluated, of the dissenting candidates.
    pub dissents: Vec<usize>,
    /// How consensus was reached.
    pub reasoning: Option<String>,
}

/// The consensus strategies that can be chosen by name.
#[derive(Clone, Copy, Debug, PartialEq, Eq, Structural)]
pub enum StrategyKind {
    MajorityVote,
    WeightedVote,
    JudgeSynthesis,
    MultiRoundDebate,
    DebateThenVote,
    SemanticClustering,
}

impl StrategyKind {
    /// The name a strategy reports in its results.
    pub open spec fn spec_name(self) -> Seq<char> {
        match self {
            StrategyKind::MajorityVote => "majority_vote"@,
            StrategyKind::WeightedVote => "weighted_vote"@,
            StrategyKind::JudgeSynthesis => "judge_synthesis"@,
            StrategyKind::MultiRoundDebate => "multi_round_debate"@,
            StrategyKind::DebateThenVote => "debate_then_vote"@,
            StrategyKind::SemanticClustering => "semantic_clustering"@,
        }
    }

    pub fn name(&self) -> (s: String)
        ensures
            s@ == self.spec_name(),
    {
        match self {
            StrategyKind::MajorityVote => String::from_str("majority_vote"),
            StrategyKind::WeightedVote => String::from_str("weighted_vote"),
            StrategyKind::JudgeSynthesis => String::from_str("judge_synthesis"),
            StrategyKind::MultiRoundDebate => String::from_str("multi_round_debate"),
            StrategyKind::DebateThenVote => String::from_str("debate_then_vote"),
            StrategyKind::SemanticClustering => String::from_str("semantic_clustering"),
        }
    }
}

/// Why a consensus could not be reached.
#[derive(Debug, PartialEq, Eq)]
pub enum ConsensusError {
    /// The list of candidates was empty.
    NoCandidates,
    /// The strategy needs an LLM provider and none was given.
    LlmRequired(StrategyKind),
    /// No strategy has this name.
    UnknownStrategy(String),
    /// A pipeline's debate step found no LLM to debate with.
    DebateStepNeedsLlm,
    /// A pipeline's judge or synthesis step found no LLM to judge with.
    JudgeStepNeedsLlm,
    /// A pipeline ended without any step producing a consensus.
    NoResult,
    /// No provider is registered for this model.
    NoProvider(String),
}

impl ConsensusError {
    pub open spec fn spec_message(&self) -> Seq<char> {
        match self {
            ConsensusError::NoCandidates => "No candidates provided"@,
            ConsensusError::LlmRequired(StrategyKind::MajorityVote) => "MajorityVote requires an LLM provider"@,
            ConsensusError::LlmRequired(StrategyKind::WeightedVote) => "WeightedVote requires an LLM provider"@,
            ConsensusError::LlmRequired(StrategyKind::JudgeSynthesis) => "JudgeSynthesis requires an LLM provider"@,
            ConsensusError::LlmRequired(StrategyKind::MultiRoundDebate) => "MultiRoundDebate requires an LLM provider"@,
            ConsensusError::LlmRequired(StrategyKind::DebateThenVote) => "DebateThenVote requires an LLM provider"@,
            ConsensusError::LlmRequired(StrategyKind::SemanticClustering) => "SemanticClustering requires an LLM provider with embedding support"@,
            ConsensusError::UnknownStrategy(name) => "Unknown strategy: "@ + name@,
            ConsensusError::DebateStepNeedsLlm => "Debate step requires a judge LLM"@,
            ConsensusError::JudgeStepNeedsLlm => "Judge/Synthesize step requires a judge LLM"@,
            ConsensusError::NoResult => "Pipeline produced no result (no steps?)"@,
            ConsensusError::NoProvider(model) => "No provider registered for model: "@ + model@,
        }
    }

    /// The error's message.
    pub fn message(&self) -> (s: String)
        ensures
            s@ == self.spec_message(),
    {
        match self {
            ConsensusError::NoCandidates => String::from_str("No candidates provided"),
            ConsensusError::LlmRequired(StrategyKind::MajorityVote) => String::from_str("MajorityVote requires an LLM provider"),
            ConsensusError::LlmRequired(StrategyKind::WeightedVote) => String::from_str("WeightedVote requires an LLM provider"),
            ConsensusError::LlmRequired(StrategyKind::JudgeSynthesis) => String::from_str("JudgeSynthesis requires an LLM provider"),
            ConsensusError::LlmRequired(StrategyKind::MultiRoundDebate) => String::from_str("MultiRoundDebate requires an LLM provider"),
            ConsensusError::LlmRequired(StrategyKind::DebateThenVote) => String::from_str("DebateThenVote requires an LLM provider"),
            ConsensusError::LlmRequired(StrategyKind::SemanticClustering) => String::from_str("SemanticClustering requires an LLM provider with embedding support"),
            ConsensusError::UnknownStrategy(name) => {
                let mut s = String::from_str("Unknown strategy: ");
                s.append(name.as_str());
                s
            },
            ConsensusError::DebateStepNeedsLlm => String::from_str("Debate step requires a judge LLM"),
            ConsensusError::JudgeStepNeedsLlm => String::from_str("Judge/Synthesize step requires a judge LLM"),
            ConsensusError::NoResult => String::from_str("Pipeline produced no result (no steps?)"),
            ConsensusError::NoProvider(model) => {
                let mut s = String::from_str("No provider registered for model: ");
                s.append(model.as_str());
                s
            },
        }
    }
}

} // verus!
