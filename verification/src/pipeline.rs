use vstd::prelude::*;
use vstd::string::StringExecFns;

use crate::debate::{debate_system_text, DebateConfig};
use crate::ratio::Threshold;
use crate::text::views;
use crate::types::{contents, str_eq, Candidate, Consensus, ConsensusError, StrategyKind};
use crate::vote::{majority_consensus, MajorityVote};

verus! {

/// The strategy a name selects, if any; names may use `_` or `-` between words.
pub open spec fn strategy_named(name: Seq<char>) -> Option<StrategyKind> {
    if name == "majority_vote"@ || name == "majority-vote"@ {
        Some(StrategyKind::MajorityVote)
    } else if name == "weighted_vote"@ || name == "weighted-vote"@ {
        Some(StrategyKind::WeightedVote)
    } else if name == "judge"@ || name == "judge_synthesis"@ || name == "judge-synthesis"@ {
        Some(StrategyKind::JudgeSynthesis)
    } else if name == "debate"@ || name == "multi_round_debate"@ || name == "multi-round-debate"@ {
        Some(StrategyKind::MultiRoundDebate)
    } else if name == "debate_then_vote"@ || name == "debate-then-vote"@ {
        Some(StrategyKind::DebateThenVote)
    } else {
        None
    }
}

/// The strategy of a name; an unknown name is an error that carries it.
pub fn strategy_from_name(name: &str) -> (r: Result<StrategyKind, ConsensusError>)
    ensures
        strategy_named(name@) matches Some(k) ==> r == Ok::<StrategyKind, ConsensusError>(k),
        strategy_named(name@) is None ==> (r matches Err(ConsensusError::UnknownStrategy(s)) && s@ == name@),
{
    if str_eq(name, "majority_vote") || str_eq(name, "majority-vote") {
        Ok(StrategyKind::MajorityVote)
    } else if str_eq(name, "weighted_vote") || str_eq(name, "weighted-vote") {
        Ok(StrategyKind::WeightedVote)
    } else if str_eq(name, "judge") || str_eq(name, "judge_synthesis") || str_eq(name, "judge-synthesis") {
        Ok(StrategyKind::JudgeSynthesis)
    } else if str_eq(name, "debate") || str_eq(name, "multi_round_debate") || str_eq(name, "multi-round-debate") {
        Ok(StrategyKind::MultiRoundDebate)
    } else if str_eq(name, "debate_then_vote") || str_eq(name, "debate-then-vote") {
        Ok(StrategyKind::DebateThenVote)
    } else {
        Err(ConsensusError::UnknownStrategy(String::from_str(name)))
    }
}

/// How a pipeline's vote step counts.
#[derive(Clone, Copy, Debug, PartialEq, Eq, Structural)]
pub enum VoteMethod {
    Majority,
    Weighted,
}

/// One step of a pipeline.
pub enum PipelineStep {
    /// Ask each of these models for the prompt.
    Generate { models: Vec<String> },
    /// Let the candidates debate.
    Debate { max_rounds: usize, convergence_threshold: Threshold },
    /// Vote over the candidates.
    Vote { method: VoteMethod },
    /// Let a judge synthesize the candidates.
    Judge,
    /// A final synthesis pass, done as the judge does it.
    Synthesize,
}

/// A composable pipeline for multi-LLM consensus: its steps run in the order they were added.
pub struct Pipeline {
    steps: Vec<PipelineStep>,
}

impl View for Pipeline {
    type V = Seq<PipelineStep>;

    closed spec fn view(&self) -> Seq<PipelineStep> {
        self.steps@
    }
}

impl Pipeline {
    pub fn new() -> (p: Pipeline)
        ensures
            p@ == Seq::<PipelineStep>::empty(),
    {
        Pipeline { steps: Vec::new() }
    }

    /// Adds a step that asks multiple models for the same prompt.
    pub fn generate(self, models: Vec<String>) -> (p: Pipeline)
        ensures
            p@ == self@.push(PipelineStep::Generate { models }),
    {
        let mut steps = self.steps;
        steps.push(PipelineStep::Generate { models });
        Pipeline { steps }
    }

    /// Adds a debate step over at most `max_rounds` rounds, converging at nine tenths.
    pub fn debate(self, max_rounds: usize) -> (p: Pipeline)
        ensures
            p@ == self@.push(PipelineStep::Debate { max_rounds, convergence_threshold: Threshold { num: 9, den: 10 } }),
    {
        let mut steps = self.steps;
        steps.push(PipelineStep::Debate { max_rounds, convergence_threshold: Threshold { num: 9, den: 10 } });
        Pipeline { steps }
    }

    /// Adds a debate step with its own convergence threshold.
    pub fn debate_with_convergence(self, max_rounds: usize, threshold: Threshold) -> (p: Pipeline)
        ensures
            p@ == self@.push(PipelineStep::Debate { max_rounds, convergence_threshold: threshold }),
    {
        let mut steps = self.steps;
        steps.push(PipelineStep::Debate { max_rounds, convergence_threshold: threshold });
        Pipeline { steps }
    }

    /// Adds a vote step.
    pub fn vote(self, method: VoteMethod) -> (p: Pipeline)
        ensures
            p@ == self@.push(PipelineStep::Vote { method }),
    {
        let mut steps = self.steps;
        steps.push(PipelineStep::Vote { method });
        Pipeline { steps }
    }

    /// Adds a judge synthesis step.
    pub fn judge(self) -> (p: Pipeline)
        ensures
            p@ == self@.push(PipelineStep::Judge),
    {
        let mut steps = self.steps;
        steps.push(PipelineStep::Judge);
        Pipeline { steps }
    }

    /// Adds a final synthesis step.
    pub fn synthesize(self) -> (p: Pipeline)
        ensures
            p@ == self@.push(PipelineStep::Synthesize),
    {
        let mut steps = self.steps;
        steps.push(PipelineStep::Synthesize);
        Pipeline { steps }
    }

    /// The number of steps.
    pub fn len(&self) -> (n: usize)
        ensures
            n == self@.len(),
    {
        self.steps.len()
    }

    /// A run of this pipeline, before its first step.
    pub fn start(&self) -> (r: PipelineRun)
        ensures
            r.next == 0,
            r.candidates@.len() == 0,
            r.last is None,
    {
        PipelineRun { next: 0, candidates: Vec::new(), last: None }
    }

    /// What the run has to do for its next step. A majority vote is done here and the run
    /// moves on; a debate or judge step without an LLM fails; the other steps are handed
    /// out, and the run moves on once their result comes back.
    pub fn step(&self, run: &mut PipelineRun, has_llm: bool) -> (a: PipelineAction)
        requires
            old(run).next <= self@.len(),
        ensures
            final(run).next <= self@.len(),
            old(run).next == self@.len() ==> a is Finished && *final(run) == *old(run),
            old(run).next < self@.len() ==> match self@[old(run).next as int] {
                PipelineStep::Generate { models } => {
                    &&& a matches PipelineAction::Generate(m) && views(m@) == views(models@)
                    &&& *final(run) == *old(run)
                },
                PipelineStep::Debate { max_rounds, convergence_threshold } => {
                    &&& !has_llm ==> a == PipelineAction::Fail(ConsensusError::DebateStepNeedsLlm)
                    &&& has_llm ==> (a matches PipelineAction::Debate(c) && {
                        &&& c.max_rounds == max_rounds
                        &&& c.convergence_threshold == convergence_threshold
                        &&& c.system_prompt@ == debate_system_text()
                    })
                    &&& *final(run) == *old(run)
                },
                PipelineStep::Vote { method: VoteMethod::Weighted } => {
                    &&& a is WeightedVote
                    &&& *final(run) == *old(run)
                },
                PipelineStep::Vote { method: VoteMethod::Majority } => {
                    &&& old(run).candidates@.len() == 0 ==> a == PipelineAction::Fail(ConsensusError::NoCandidates) && *final(run) == *old(run)
                    &&& old(run).candidates@.len() > 0 ==> {
                        &&& a is Continue
                        &&& final(run).next == old(run).next + 1
                        &&& final(run).candidates == old(run).candidates
                        &&& final(run).last matches Some(c) && majority_consensus(old(run).candidates@, Threshold { num: 9, den: 10 }, c)
                    }
                },
                _ => {
                    &&& !has_llm ==> a == PipelineAction::Fail(ConsensusError::JudgeStepNeedsLlm)
                    &&& has_llm ==> a is Judge
                    &&& *final(run) == *old(run)
                },
            },
    {
        if run.next >= self.steps.len() {
            return PipelineAction::Finished;
        }
        match &self.steps[run.next] {
            PipelineStep::Generate { models } => {
                let mut m: Vec<String> = Vec::new();
                let mut i: usize = 0;
                while i < models.len()
                    invariant
                        i <= models@.len(),
                        views(m@) == views(models@).take(i as int),
                    decreases models@.len() - i,
                {
                    let ghost before = views(m@);
                    m.push(models[i].clone());
                    proof {
                        assert(views(m@) =~= before.push(models@[i as int]@));
                        assert(views(m@) =~= views(models@).take(i + 1));
                    }
                    i = i + 1;
                }
                proof {
                    assert(views(models@).take(models@.len() as int) =~= views(models@));
                }
                PipelineAction::Generate(m)
            },
            PipelineStep::Debate { max_rounds, convergence_threshold } => {
                if !has_llm {
                    return PipelineAction::Fail(ConsensusError::DebateStepNeedsLlm);
                }
                PipelineAction::Debate(DebateConfig {
                    max_rounds: *max_rounds,
                    convergence_threshold: *convergence_threshold,
                    ..DebateConfig::default()
                })
            },
            PipelineStep::Vote { method: VoteMethod::Weighted } => PipelineAction::WeightedVote,
            PipelineStep::Vote { method: VoteMethod::Majority } => {
                match MajorityVote::new().resolve(&run.candidates) {
                    Ok(c) => {
                        run.last = Some(c);
                        run.next = run.next + 1;
                        PipelineAction::Continue
                    },
                    Err(e) => PipelineAction::Fail(e),
                }
            },
            _ => {
                if !has_llm {
                    return PipelineAction::Fail(ConsensusError::JudgeStepNeedsLlm);
                }
                PipelineAction::Judge
            },
        }
    }
}

/// What a pipeline run needs done next.
pub enum PipelineAction {
    /// Ask each of these models, in order, for the prompt, and hand the answers to
    /// `generated`.
    Generate(Vec<String>),
    /// Debate the candidates with these settings, and hand the consensus to `debated`.
    Debate(DebateConfig),
    /// Run a weighted vote over the candidates, and hand the consensus to `concluded`.
    WeightedVote,
    /// Let a judge synthesize the candidates, and hand the consensus to `concluded`.
    Judge,
    /// The step was done; ask for the next one.
    Continue,
    /// All steps are done; `outcome` gives the result.
    Finished,
    /// The run stops with this error.
    Fail(ConsensusError),
}

/// The state of a pipeline run between steps.
pub struct PipelineRun {
    /// The position of the next step.
    pub next: usize,
    /// The candidates the next step works on.
    pub candidates: Vec<Candidate>,
    /// The consensus of the last step that produced one.
    pub last: Option<Consensus>,
}

/// The candidates a generate step makes: each model's answer, with the model and the
/// question recorded.
pub open spec fn generated_ok(cs: Seq<Candidate>, models: Seq<Seq<char>>, answers: Seq<Seq<char>>, prompt: Seq<char>) -> bool {
    &&& cs.len() == answers.len()
    &&& forall|i: int| 0 <= i < cs.len() ==> {
        &&& #[trigger] cs[i].content@ == answers[i]
        &&& cs[i].model matches Some(m) && m@ == models[i]
        &&& cs[i].confidence is None
        &&& cs[i].meta() == Map::<Seq<char>, Seq<char>>::empty().insert("question"@, prompt)
    }
}

impl PipelineRun {
    /// Takes in the answers of a generate step, one per model in order: they become the
    /// candidates.
    pub fn generated(&mut self, models: &Vec<String>, answers: Vec<String>, prompt: &str)
        requires
            answers@.len() == models@.len(),
            old(self).next < usize::MAX,
        ensures
            generated_ok(final(self).candidates@, views(models@), views(answers@), prompt@),
            final(self).next == old(self).next + 1,
            final(self).last == old(self).last,
    {
        let mut cs: Vec<Candidate> = Vec::new();
        let mut i: usize = 0;
        while i < answers.len()
            invariant
                i <= answers@.len(),
                answers@.len() == models@.len(),
                generated_ok(cs@, views(models@), views(answers@).take(i as int), prompt@),
            decreases answers@.len() - i,
        {
            let c = Candidate::new(answers[i].as_str()).with_model(models[i].as_str()).with_metadata("question", prompt);
            let ghost before = cs@;
            cs.push(c);
            proof {
                assert(cs@ == before.push(c));
                assert(views(answers@).take(i + 1)[i as int] == answers@[i as int]@);
                assert forall|k: int| 0 <= k < cs@.len() implies {
                    &&& #[trigger] cs@[k].content@ == views(answers@).take(i + 1)[k]
                    &&& cs@[k].model matches Some(m) && m@ == views(models@)[k]
                    &&& cs@[k].confidence is None
                    &&& cs@[k].meta() == Map::<Seq<char>, Seq<char>>::empty().insert("question"@, prompt@)
                } by {
                    if k < i {
                        assert(cs@[k] == before[k]);
                        assert(views(answers@).take(i as int)[k] == views(answers@).take(i + 1)[k]);
                    }
                }
            }
            i = i + 1;
        }
        proof {
            assert(views(answers@).take(answers@.len() as int) =~= views(answers@));
        }
        self.candidates = cs;
        self.next = self.next + 1;
    }

    /// Takes in the consensus of a debate step: its outcome, tagged as coming from the debate,
    /// goes first, followed by the candidates that entered the debate.
    pub fn debated(&mut self, outcome: Consensus)
        requires
            old(self).next < usize::MAX,
        ensures
            contents(final(self).candidates@) == seq![outcome.content@] + contents(old(self).candidates@),
            final(self).candidates@[0].meta() == Map::<Seq<char>, Seq<char>>::empty().insert("source"@, "debate"@),
            forall|i: int| 0 <= i < old(self).candidates@.len() ==> {
                &&& #[trigger] final(self).candidates@[i + 1].model == old(self).candidates@[i].model
                &&& final(self).candidates@[i + 1].confidence == old(self).candidates@[i].confidence
                &&& final(self).candidates@[i + 1].metadata == old(self).candidates@[i].metadata
            },
            final(self).last == Some(outcome),
            final(self).next == old(self).next + 1,
    {
        let mut cs: Vec<Candidate> = Vec::new();
        cs.push(Candidate::new(outcome.content.as_str()).with_metadata("source", "debate"));
        let ghost first = cs@;
        let ghost olds = self.candidates@;
        cs.append(&mut self.candidates);
        proof {
            assert(cs@ == first + olds);
            assert(contents(cs@) =~= seq![outcome.content@] + contents(olds));
            assert forall|i: int| 0 <= i < olds.len() implies #[trigger] cs@[i + 1] == olds[i] by {
                assert((first + olds)[i + 1] == olds[i]);
            }
        }
        self.candidates = cs;
        self.last = Some(outcome);
        self.next = self.next + 1;
    }

    /// Takes in the consensus of a vote or judge step; the candidates stay as they are.
    pub fn concluded(&mut self, outcome: Consensus)
        requires
            old(self).next < usize::MAX,
        ensures
            final(self).candidates == old(self).candidates,
            final(self).last == Some(outcome),
            final(self).next == old(self).next + 1,
    {
        self.last = Some(outcome);
        self.next = self.next + 1;
    }

    /// The result of a finished run: the last consensus, or an error when no step made one.
    pub fn outcome(self) -> (r: Result<Consensus, ConsensusError>)
        ensures
            self.last matches Some(c) ==> r == Ok::<Consensus, ConsensusError>(c),
            self.last is None ==> r == Err::<Consensus, ConsensusError>(ConsensusError::NoResult),
    {
        match self.last {
            Some(c) => Ok(c),
            None => Err(ConsensusError::NoResult),
        }
    }
}

/// Every strategy that can be chosen by name is chosen by the name it reports in its results.
pub proof fn strategy_names_round_trip(k: StrategyKind)
    requires
        k != StrategyKind::SemanticClustering,
    ensures
        strategy_named(k.spec_name()) == Some(k),
{
    reveal_strlit("majority_vote");
    reveal_strlit("majority-vote");
    reveal_strlit("weighted_vote");
    reveal_strlit("weighted-vote");
    reveal_strlit("judge");
    reveal_strlit("judge_synthesis");
    reveal_strlit("judge-synthesis");
    reveal_strlit("debate");
    reveal_strlit("multi_round_debate");
    reveal_strlit("multi-round-debate");
    reveal_strlit("debate_then_vote");
    reveal_strlit("debate-then-vote");
    match k {
        StrategyKind::MajorityVote => {},
        StrategyKind::WeightedVote => {
            assert("weighted_vote"@[0] != "majority_vote"@[0]);
            assert("weighted_vote"@[0] != "majority-vote"@[0]);
        },
        StrategyKind::JudgeSynthesis => {
            assert("judge_synthesis"@[0] != "majority_vote"@[0]);
            assert("judge_synthesis"@[0] != "majority-vote"@[0]);
            assert("judge_synthesis"@[0] != "weighted_vote"@[0]);
            assert("judge_synthesis"@[0] != "weighted-vote"@[0]);
            assert("judge_synthesis"@.len() != "judge"@.len());
        },
        StrategyKind::MultiRoundDebate => {
            assert("multi_round_debate"@[1] != "majority_vote"@[1]);
            assert("multi_round_debate"@[1] != "majority-vote"@[1]);
            assert("multi_round_debate"@[0] != "weighted_vote"@[0]);
            assert("multi_round_debate"@[0] != "weighted-vote"@[0]);
            assert("multi_round_debate"@[0] != "judge"@[0]);
            assert("multi_round_debate"@[0] != "judge_synthesis"@[0]);
            assert("multi_round_debate"@[0] != "judge-synthesis"@[0]);
            assert("multi_round_debate"@[0] != "debate"@[0]);
        },
        StrategyKind::DebateThenVote => {
            assert("debate_then_vote"@[0] != "majority_vote"@[0]);
            assert("debate_then_vote"@[0] != "majority-vote"@[0]);
            assert("debate_then_vote"@[0] != "weighted_vote"@[0]);
            assert("debate_then_vote"@[0] != "weighted-vote"@[0]);
            assert("debate_then_vote"@[0] != "judge"@[0]);
            assert("debate_then_vote"@[0] != "judge_synthesis"@[0]);
            assert("debate_then_vote"@[0] != "judge-synthesis"@[0]);
            assert("debate_then_vote"@.len() != "debate"@.len());
            assert("debate_then_vote"@[0] != "multi_round_debate"@[0]);
            assert("debate_then_vote"@[0] != "multi-round-debate"@[0]);
        },
        StrategyKind::SemanticClustering => {},
    }
}

} // verus!
