use vstd::prelude::*;
use vstd::string::StringExecFns;

use crate::debate::{debate_system_text, DebateConfig, DebateSession, MultiRoundDebate};
use crate::ratio::{Ratio, Threshold};
use crate::types::{contents, Agreement, Candidate, Consensus, ConsensusError, StrategyKind};
use crate::vote::{first_largest, grouping, outside, MajorityVote};

verus! {

/// The contents of the voting pool after a debate: the debate's outcome first, then every
/// original candidate.
pub open spec fn pool_contents(outcome: Seq<char>, cs: Seq<Candidate>) -> Seq<Seq<char>> {
    seq![outcome] + contents(cs)
}

/// Debate for a few rounds, then a majority vote over the debate's outcome together with the
/// original candidates.
pub struct DebateThenVote {
    pub debate_rounds: usize,
    pub vote_threshold: Threshold,
    pub convergence_threshold: Threshold,
}

impl DebateThenVote {
    /// Two debate rounds, a vote threshold of four fifths and a convergence threshold of nine
    /// tenths.
    pub fn new() -> (h: DebateThenVote)
        ensures
            h.debate_rounds == 2,
            h.vote_threshold == (Threshold { num: 4, den: 5 }),
            h.convergence_threshold == (Threshold { num: 9, den: 10 }),
    {
        DebateThenVote {
            debate_rounds: 2,
            vote_threshold: Threshold { num: 4, den: 5 },
            convergence_threshold: Threshold { num: 9, den: 10 },
        }
    }

    pub fn with_debate_rounds(self, rounds: usize) -> (h: DebateThenVote)
        ensures
            h.debate_rounds == rounds,
            h.vote_threshold == self.vote_threshold,
            h.convergence_threshold == self.convergence_threshold,
    {
        DebateThenVote { debate_rounds: rounds, ..self }
    }

    pub fn with_vote_threshold(self, threshold: Threshold) -> (h: DebateThenVote)
        ensures
            h.debate_rounds == self.debate_rounds,
            h.vote_threshold == threshold,
            h.convergence_threshold == self.convergence_threshold,
    {
        DebateThenVote { vote_threshold: threshold, ..self }
    }

    pub open spec fn spec_name() -> Seq<char> {
        "debate_then_vote"@
    }

    pub fn name(&self) -> (s: String)
        ensures
            s@ == Self::spec_name(),
    {
        String::from_str("debate_then_vote")
    }

    /// The debate of the first phase: this strategy's rounds and convergence threshold, with
    /// the default system prompt.
    pub fn debate(&self) -> (d: MultiRoundDebate)
        ensures
            d.config.max_rounds == self.debate_rounds,
            d.config.convergence_threshold == self.convergence_threshold,
            d.config.system_prompt@ == debate_system_text(),
    {
        MultiRoundDebate::with_config(DebateConfig {
            max_rounds: self.debate_rounds,
            convergence_threshold: self.convergence_threshold,
            ..DebateConfig::default()
        })
    }

    /// Opens the debate phase. The strategy needs an LLM and at least one candidate.
    pub fn start(&self, candidates: &Vec<Candidate>, has_llm: bool) -> (r: Result<DebateSession, ConsensusError>)
        ensures
            !has_llm ==> r == Err::<DebateSession, ConsensusError>(ConsensusError::LlmRequired(StrategyKind::DebateThenVote)),
            has_llm && candidates@.len() == 0 ==> r == Err::<DebateSession, ConsensusError>(ConsensusError::NoCandidates),
            has_llm && candidates@.len() > 0 ==> (r matches Ok(s) && {
                &&& s.wf()
                &&& views_match(s, candidates@)
                &&& s.rounds == 0
                &&& !s.converged
            }),
    {
        if !has_llm {
            return Err(ConsensusError::LlmRequired(StrategyKind::DebateThenVote));
        }
        self.debate().start(candidates, true)
    }

    /// The voting pool: the debate's outcome, tagged as the debate's synthesis, then a copy
    /// of every original candidate.
    pub fn vote_pool(&self, outcome: &String, candidates: &Vec<Candidate>) -> (pool: Vec<Candidate>)
        ensures
            contents(pool@) == pool_contents(outcome@, candidates@),
            pool@[0].meta() == Map::<Seq<char>, Seq<char>>::empty().insert("source"@, "debate_synthesis"@),
            forall|i: int| 0 <= i < candidates@.len() ==> {
                &&& #[trigger] pool@[i + 1].model == candidates@[i].model
                &&& pool@[i + 1].confidence == candidates@[i].confidence
                &&& pool@[i + 1].metadata@ == candidates@[i].metadata@
            },
    {
        let mut pool: Vec<Candidate> = Vec::new();
        pool.push(Candidate::new(outcome.as_str()).with_metadata("source", "debate_synthesis"));
        let mut i: usize = 0;
        while i < candidates.len()
            invariant
                i <= candidates@.len(),
                pool@.len() == i + 1,
                contents(pool@) == pool_contents(outcome@, candidates@.take(i as int)),
                pool@[0].meta() == Map::<Seq<char>, Seq<char>>::empty().insert("source"@, "debate_synthesis"@),
                forall|k: int| 0 <= k < i ==> {
                    &&& #[trigger] pool@[k + 1].model == candidates@[k].model
                    &&& pool@[k + 1].confidence == candidates@[k].confidence
                    &&& pool@[k + 1].metadata@ == candidates@[k].metadata@
                },
            decreases candidates@.len() - i,
        {
            let c = candidates[i].duplicate();
            let ghost before = pool@;
            pool.push(c);
            proof {
                assert(pool@ == before.push(c));
                assert(contents(pool@) =~= contents(before).push(c.content@));
                assert(contents(candidates@.take(i + 1)) =~= contents(candidates@.take(i as int)).push(candidates@[i as int].content@));
                assert(pool_contents(outcome@, candidates@.take(i + 1)) =~= pool_contents(outcome@, candidates@.take(i as int)).push(candidates@[i as int].content@));
            }
            i = i + 1;
        }
        proof {
            assert(candidates@.take(candidates@.len() as int) =~= candidates@);
        }
        pool
    }

    /// The second phase: a majority vote, under the vote threshold, over the debate's outcome
    /// and the original candidates, reported under this strategy's name. The dissents are
    /// positions in the pool, where the outcome comes first. The reasoning, which shows both
    /// phases' agreements as decimals, is left to the caller.
    pub fn conclude(&self, outcome: &String, candidates: &Vec<Candidate>) -> (c: Consensus)
        requires
            self.vote_threshold.wf(),
            candidates@.len() > 0,
        ensures
            ({
                let pool = pool_contents(outcome@, candidates@);
                let n = pool.len();
                let gs = grouping(pool, self.vote_threshold, n);
                let w = first_largest(gs);
                &&& c.content@ == pool[gs[w][0] as int]
                &&& c.strategy@ == Self::spec_name()
                &&& c.agreement == Agreement::Exact(Ratio { num: gs[w].len() as u128, den: n as u128 })
                &&& c.dissents@ == outside(gs[w], n)
                &&& c.reasoning is None
            }),
    {
        let pool = self.vote_pool(outcome, candidates);
        let vote = MajorityVote::new().with_threshold(self.vote_threshold);
        let r = vote.resolve(&pool);
        proof {
            assert(contents(pool@).len() == pool@.len());
        }
        match r {
            Ok(v) => Consensus { strategy: self.name(), reasoning: None, ..v },
            Err(_) => {
                proof {
                    assert(false);
                }
                Consensus {
                    content: String::new(),
                    strategy: self.name(),
                    agreement: Agreement::Exact(Ratio::one()),
                    dissents: Vec::new(),
                    reasoning: None,
                }
            },
        }
    }
}

/// A fresh debate session over the candidates: their question, labels and contents.
pub open spec fn views_match(s: DebateSession, cs: Seq<Candidate>) -> bool {
    &&& s.question@ == crate::debate::question_of(cs)
    &&& crate::text::views(s.labels@) == crate::debate::labels_of(cs)
    &&& crate::text::views(s.positions@) == contents(cs)
    &&& crate::text::views(s.history@[0]@) == contents(cs)
}

} // verus!
