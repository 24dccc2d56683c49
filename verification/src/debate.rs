use vstd::prelude::*;
use vstd::string::StringExecFns;

use crate::fmt::{decimal, decimal_string};
use crate::judge::{model_note, model_note_string, valid_positions, keep_valid_positions, JudgeVerdict};
use crate::ratio::{Ratio, Threshold};
use crate::text::{join, join_strings, replace, replace_all, text_fraction, text_similarity, views};
use crate::types::{contents, Agreement, Candidate, Consensus, ConsensusError, StrategyKind};

verus! {

/// The default system prompt of the debate participants.
pub open spec fn debate_system_text() -> Seq<char> {
    "You are participating in a structured debate with other AI models. You have been given a question and will see other participants' responses. Carefully consider their arguments. If they make valid points, incorporate them. If you disagree, explain why with clear reasoning. Your goal is to arrive at the most accurate and well-reasoned answer."@
}

fn debate_system() -> (s: String)
    ensures
        s@ == debate_system_text(),
{
    String::from_str("You are participating in a structured debate with other AI models. You have been given a question and will see other participants' responses. Carefully consider their arguments. If they make valid points, incorporate them. If you disagree, explain why with clear reasoning. Your goal is to arrive at the most accurate and well-reasoned answer.")
}

/// The prompt of one debate round, with `{question}`, `{positions}`, `{round}` and
/// `{max_rounds}` to fill in.
pub open spec fn round_template() -> Seq<char> {
    "Original question: {question}\n\nHere are the current positions from all participants:\n\n{positions}\n\nThis is round {round} of {max_rounds}. Consider the strengths and weaknesses of each position, then produce a single, standalone answer to the original question. Do NOT reference the other positions, the debate process, or \"other participants\" \u{2014} write as if you are the sole author giving a definitive response."@
}

fn round_template_string() -> (s: String)
    ensures
        s@ == round_template(),
{
    String::from_str("Original question: {question}\n\nHere are the current positions from all participants:\n\n{positions}\n\nThis is round {round} of {max_rounds}. Consider the strengths and weaknesses of each position, then produce a single, standalone answer to the original question. Do NOT reference the other positions, the debate process, or \"other participants\" \u{2014} write as if you are the sole author giving a definitive response.")
}

/// The prompt that asks a judge how far the candidates agree with the debate's outcome,
/// with `{count}`, `{synthesis}` and `{candidates}` to fill in.
pub open spec fn classification_template() -> Seq<char> {
    "Below is a synthesis produced by a multi-round debate, followed by the {count} original candidate responses that entered the debate.\n\n--- Debate Synthesis ---\n{synthesis}\n\n{candidates}\n\nCompare the synthesis to each original candidate. Determine how much the candidates agree with the final synthesis overall, and identify any candidates whose position significantly differs from the consensus.\n\nRespond in the following JSON format:\n{{\n  \"synthesis\": \"(copy the debate synthesis above verbatim)\",\n  \"reasoning\": \"Brief explanation of agreement and disagreements\",\n  \"agreement_score\": 0.0 to 1.0 representing overall agreement,\n  \"dissent_indices\": [zero-based indices of candidates that significantly disagreed]\n}}"@
}

fn classification_template_string() -> (s: String)
    ensures
        s@ == classification_template(),
{
    String::from_str("Below is a synthesis produced by a multi-round debate, followed by the {count} original candidate responses that entered the debate.\n\n--- Debate Synthesis ---\n{synthesis}\n\n{candidates}\n\nCompare the synthesis to each original candidate. Determine how much the candidates agree with the final synthesis overall, and identify any candidates whose position significantly differs from the consensus.\n\nRespond in the following JSON format:\n{{\n  \"synthesis\": \"(copy the debate synthesis above verbatim)\",\n  \"reasoning\": \"Brief explanation of agreement and disagreements\",\n  \"agreement_score\": 0.0 to 1.0 representing overall agreement,\n  \"dissent_indices\": [zero-based indices of candidates that significantly disagreed]\n}}")
}

/// The question under debate: the `question` metadata of the first candidate, or a pointer
/// to the responses when there is none.
pub open spec fn question_of(cs: Seq<Candidate>) -> Seq<char> {
    if cs.len() > 0 && cs[0].meta().contains_key("question"@) {
        cs[0].meta()["question"@]
    } else {
        "(see the responses below)"@
    }
}

/// How a participant is named in the debate: by its model, or as `Participant`.
pub open spec fn label_of(c: Candidate) -> Seq<char> {
    match c.model {
        Some(m) => m@,
        None => "Participant"@,
    }
}

/// The labels of all participants.
pub open spec fn labels_of(cs: Seq<Candidate>) -> Seq<Seq<char>> {
    cs.map_values(|c: Candidate| label_of(c))
}

/// One position as the debate shows it, numbered from one.
pub open spec fn position_block(i: int, label: Seq<char>, pos: Seq<char>) -> Seq<char> {
    "--- "@ + label + " (Position "@ + decimal((i + 1) as nat) + ") ---\n"@ + pos
}

/// All positions, separated by blank lines.
pub open spec fn positions_text(labels: Seq<Seq<char>>, positions: Seq<Seq<char>>) -> Seq<char> {
    join(Seq::new(positions.len(), |i: int| position_block(i, labels[i], positions[i])), "\n\n"@)
}

/// The prompt of round `round` of `max` rounds.
pub open spec fn round_prompt(
    question: Seq<char>,
    labels: Seq<Seq<char>>,
    positions: Seq<Seq<char>>,
    round: nat,
    max: nat,
) -> Seq<char> {
    let a = replace_all(round_template(), "{question}"@, question);
    let b = replace_all(a, "{positions}"@, positions_text(labels, positions));
    let c = replace_all(b, "{round}"@, decimal(round));
    replace_all(c, "{max_rounds}"@, decimal(max))
}

/// One original candidate as the classifying judge sees it, numbered from zero.
pub open spec fn candidate_block(i: int, c: Candidate) -> Seq<char> {
    "--- Candidate "@ + decimal(i as nat) + model_note(c.model) + "---\n"@ + c.content@
}

/// The prompt that asks how far the candidates agree with `synthesis`.
pub open spec fn classification_prompt(cs: Seq<Candidate>, synthesis: Seq<char>) -> Seq<char> {
    let blocks = join(Seq::new(cs.len(), |i: int| candidate_block(i, cs[i])), "\n\n"@);
    let a = replace_all(classification_template(), "{count}"@, decimal(cs.len()));
    let b = replace_all(a, "{synthesis}"@, synthesis);
    replace_all(b, "{candidates}"@, blocks)
}

/// Whether a refined answer is similar enough to one of the current positions for the
/// debate to stop.
pub open spec fn converges(refined: Seq<char>, positions: Seq<Seq<char>>, t: Threshold) -> bool {
    exists|i: int|
        0 <= i < positions.len() && #[trigger] t.admits(
            text_fraction(refined, positions[i]).0,
            text_fraction(refined, positions[i]).1,
        )
}

/// Word-set similarity of two texts as a ratio.
pub open spec fn similarity_ratio(a: Seq<char>, b: Seq<char>) -> Ratio {
    Ratio { num: text_fraction(a, b).0 as u128, den: text_fraction(a, b).1 as u128 }
}

/// Similarity below which a candidate dissents from a debate's outcome when no judge
/// classification is available: three tenths.
pub open spec fn dissent_cutoff() -> Threshold {
    Threshold { num: 3, den: 10 }
}

/// The similarity of each candidate to the debate's outcome.
pub open spec fn similarities(outcome: Seq<char>, cs: Seq<Candidate>) -> Seq<Ratio> {
    Seq::new(cs.len(), |i: int| similarity_ratio(outcome, cs[i].content@))
}

/// Whether candidate `i` falls below the dissent cut-off.
pub open spec fn falls_short(outcome: Seq<char>, cs: Seq<Candidate>, i: usize) -> bool {
    !dissent_cutoff().admits(
        text_fraction(outcome, cs[i as int].content@).0,
        text_fraction(outcome, cs[i as int].content@).1,
    )
}

/// Positions of the candidates whose similarity to the outcome falls below the cut-off.
pub open spec fn low_similarity(outcome: Seq<char>, cs: Seq<Candidate>) -> Seq<usize> {
    Seq::new(cs.len(), |i: int| i as usize).filter(|i: usize| falls_short(outcome, cs, i))
}

/// The reasoning text of a finished debate.
pub open spec fn debate_reasoning(rounds: nat, max: nat) -> Seq<char> {
    "Debate completed in "@ + decimal(rounds) + " round(s) of "@ + decimal(max) + " maximum"@
}

/// Settings of a multi-round debate.
pub struct DebateConfig {
    /// Most rounds the debate runs.
    pub max_rounds: usize,
    /// The debate stops early once a refined answer is this similar to a current position.
    pub convergence_threshold: Threshold,
    /// System prompt of the debate participants.
    pub system_prompt: String,
}

impl Default for DebateConfig {
    /// Three rounds, a convergence threshold of nine tenths, and the default system prompt.
    fn default() -> (c: DebateConfig)
        ensures
            c.max_rounds == 3,
            c.convergence_threshold == (Threshold { num: 9, den: 10 }),
            c.system_prompt@ == debate_system_text(),
    {
        DebateConfig {
            max_rounds: 3,
            convergence_threshold: Threshold { num: 9, den: 10 },
            system_prompt: debate_system(),
        }
    }
}

/// The state of a debate between LLM calls.
pub struct DebateSession {
    /// The question under debate.
    pub question: String,
    /// How each participant is named.
    pub labels: Vec<String>,
    /// The current position of each participant.
    pub positions: Vec<String>,
    /// The positions before the first round and after each round.
    pub history: Vec<Vec<String>>,
    /// Rounds completed.
    pub rounds: usize,
    /// Whether the last round reached the convergence threshold.
    pub converged: bool,
}

impl DebateSession {
    /// A session is consistent: at least one participant, a label for each, and one history
    /// entry per completed round beyond the start.
    pub open spec fn wf(&self) -> bool {
        &&& self.positions@.len() > 0
        &&& self.labels@.len() == self.positions@.len()
        &&& self.history@.len() == self.rounds + 1
    }

    /// Whether another round is due under a limit of `max` rounds.
    pub open spec fn is_open(&self, max: nat) -> bool {
        !self.converged && self.rounds < max
    }

    /// The debate's outcome: the first current position.
    pub open spec fn outcome(&self) -> Seq<char> {
        self.positions@[0]@
    }
}

/// A multi-round debate: a participant LLM sees every position and writes a refined answer,
/// which becomes every participant's position, until an answer is similar enough to a
/// position it replaces or the rounds run out.
pub struct MultiRoundDebate {
    pub config: DebateConfig,
}

/// `n` copies of a string.
fn copies(s: &String, n: usize) -> (r: Vec<String>)
    ensures
        views(r@) == Seq::new(n as nat, |i: int| s@),
{
    let mut r: Vec<String> = Vec::new();
    let mut k: usize = 0;
    while k < n
        invariant
            k <= n,
            views(r@) == Seq::new(k as nat, |i: int| s@),
        decreases n - k,
    {
        let ghost before = views(r@);
        r.push(s.clone());
        proof {
            assert(views(r@) =~= before.push(s@));
            assert(views(r@) =~= Seq::new((k + 1) as nat, |i: int| s@));
        }
        k = k + 1;
    }
    r
}

/// A copy of a list of strings.
fn copy_strings(v: &Vec<String>) -> (r: Vec<String>)
    ensures
        views(r@) == views(v@),
{
    let mut r: Vec<String> = Vec::new();
    let mut k: usize = 0;
    while k < v.len()
        invariant
            k <= v@.len(),
            views(r@) == views(v@).take(k as int),
        decreases v@.len() - k,
    {
        let ghost before = views(r@);
        r.push(v[k].clone());
        proof {
            assert(views(r@) =~= before.push(v@[k as int]@));
            assert(views(r@) =~= views(v@).take(k + 1));
        }
        k = k + 1;
    }
    proof {
        assert(views(v@).take(v@.len() as int) =~= views(v@));
    }
    r
}

impl MultiRoundDebate {
    /// A debate with the default settings.
    pub fn new() -> (d: MultiRoundDebate)
        ensures
            d.config.max_rounds == 3,
            d.config.convergence_threshold == (Threshold { num: 9, den: 10 }),
            d.config.system_prompt@ == debate_system_text(),
    {
        MultiRoundDebate { config: DebateConfig::default() }
    }

    pub fn with_config(config: DebateConfig) -> (d: MultiRoundDebate)
        ensures
            d.config == config,
    {
        MultiRoundDebate { config }
    }

    pub fn with_rounds(self, rounds: usize) -> (d: MultiRoundDebate)
        ensures
            d.config.max_rounds == rounds,
            d.config.convergence_threshold == self.config.convergence_threshold,
            d.config.system_prompt == self.config.system_prompt,
    {
        MultiRoundDebate { config: DebateConfig { max_rounds: rounds, ..self.config } }
    }

    pub fn with_convergence_threshold(self, threshold: Threshold) -> (d: MultiRoundDebate)
        ensures
            d.config.max_rounds == self.config.max_rounds,
            d.config.convergence_threshold == threshold,
            d.config.system_prompt == self.config.system_prompt,
    {
        MultiRoundDebate { config: DebateConfig { convergence_threshold: threshold, ..self.config } }
    }

    pub open spec fn spec_name() -> Seq<char> {
        "multi_round_debate"@
    }

    pub fn name(&self) -> (s: String)
        ensures
            s@ == Self::spec_name(),
    {
        String::from_str("multi_round_debate")
    }

    /// Opens a debate over the candidates: each starts from its own content. A debate needs
    /// an LLM and at least one candidate.
    pub fn start(&self, candidates: &Vec<Candidate>, has_llm: bool) -> (r: Result<DebateSession, ConsensusError>)
        ensures
            !has_llm ==> r == Err::<DebateSession, ConsensusError>(ConsensusError::LlmRequired(StrategyKind::MultiRoundDebate)),
            has_llm && candidates@.len() == 0 ==> r == Err::<DebateSession, ConsensusError>(ConsensusError::NoCandidates),
            has_llm && candidates@.len() > 0 ==> (r matches Ok(s) && {
                &&& s.wf()
                &&& s.question@ == question_of(candidates@)
                &&& views(s.labels@) == labels_of(candidates@)
                &&& views(s.positions@) == contents(candidates@)
                &&& views(s.history@[0]@) == contents(candidates@)
                &&& s.rounds == 0
                &&& !s.converged
            }),
    {
        if !has_llm {
            return Err(ConsensusError::LlmRequired(StrategyKind::MultiRoundDebate));
        }
        if candidates.len() == 0 {
            return Err(ConsensusError::NoCandidates);
        }
        let question = match candidates[0].metadata_value("question") {
            Some(q) => q.clone(),
            None => String::from_str("(see the responses below)"),
        };
        proof {
            reveal_strlit("question");
        }
        let mut labels: Vec<String> = Vec::new();
        let mut positions: Vec<String> = Vec::new();
        let mut i: usize = 0;
        while i < candidates.len()
            invariant
                i <= candidates@.len(),
                views(labels@) == labels_of(candidates@).take(i as int),
                views(positions@) == contents(candidates@).take(i as int),
            decreases candidates@.len() - i,
        {
            let label = match &candidates[i].model {
                Some(m) => m.clone(),
                None => String::from_str("Participant"),
            };
            let ghost lb = views(labels@);
            let ghost pb = views(positions@);
            labels.push(label);
            positions.push(candidates[i].content.clone());
            proof {
                assert(views(labels@) =~= lb.push(label_of(candidates@[i as int])));
                assert(views(positions@) =~= pb.push(candidates@[i as int].content@));
                assert(views(labels@) =~= labels_of(candidates@).take(i + 1));
                assert(views(positions@) =~= contents(candidates@).take(i + 1));
            }
            i = i + 1;
        }
        proof {
            assert(labels_of(candidates@).take(candidates@.len() as int) =~= labels_of(candidates@));
            assert(contents(candidates@).take(candidates@.len() as int) =~= contents(candidates@));
        }
        let first = copy_strings(&positions);
        let mut history: Vec<Vec<String>> = Vec::new();
        history.push(first);
        Ok(DebateSession { question, labels, positions, history, rounds: 0, converged: false })
    }

    /// The prompt of the next round, or `None` once the debate has converged or used up its
    /// rounds.
    pub fn next_prompt(&self, s: &DebateSession) -> (r: Option<String>)
        requires
            s.wf(),
        ensures
            r is None <==> !s.is_open(self.config.max_rounds as nat),
            r matches Some(p) ==> p@ == round_prompt(
                s.question@,
                views(s.labels@),
                views(s.positions@),
                (s.rounds + 1) as nat,
                self.config.max_rounds as nat,
            ),
    {
        if s.converged || s.rounds >= self.config.max_rounds {
            return None;
        }
        let mut blocks: Vec<String> = Vec::new();
        let mut i: usize = 0;
        while i < s.positions.len()
            invariant
                i <= s.positions@.len(),
                s.labels@.len() == s.positions@.len(),
                views(blocks@) == Seq::new(i as nat, |k: int| position_block(k, views(s.labels@)[k], views(s.positions@)[k])),
            decreases s.positions@.len() - i,
        {
            let mut b = String::from_str("--- ");
            b.append(s.labels[i].as_str());
            b.append(" (Position ");
            b.append(decimal_string(i as u64 + 1).as_str());
            b.append(") ---\n");
            b.append(s.positions[i].as_str());
            let ghost before = views(blocks@);
            blocks.push(b);
            proof {
                assert(views(blocks@) =~= before.push(b@));
                assert(views(blocks@) =~= Seq::new((i + 1) as nat, |k: int| position_block(k, views(s.labels@)[k], views(s.positions@)[k])));
            }
            i = i + 1;
        }
        let text = join_strings(&blocks, "\n\n");
        proof {
            assert(views(s.positions@).len() == s.positions@.len());
            reveal_strlit("{question}");
            reveal_strlit("{positions}");
            reveal_strlit("{round}");
            reveal_strlit("{max_rounds}");
        }
        let a = replace(round_template_string().as_str(), "{question}", s.question.as_str());
        let b = replace(a.as_str(), "{positions}", text.as_str());
        let c = replace(b.as_str(), "{round}", decimal_string(s.rounds as u64 + 1).as_str());
        let p = replace(c.as_str(), "{max_rounds}", decimal_string(self.config.max_rounds as u64).as_str());
        Some(p)
    }

    /// Takes in the participant's refined answer for the round just prompted: it becomes every
    /// participant's position, enters the history, and the debate converges when it is
    /// similar enough to one of the positions it replaces.
    pub fn record(&self, s: &mut DebateSession, refined: String)
        requires
            old(s).wf(),
            old(s).is_open(self.config.max_rounds as nat),
        ensures
            final(s).wf(),
            final(s).question == old(s).question,
            final(s).labels == old(s).labels,
            views(final(s).positions@) == Seq::new(old(s).positions@.len(), |i: int| refined@),
            final(s).history@.len() == old(s).history@.len() + 1,
            forall|i: int| 0 <= i < old(s).history@.len() ==> final(s).history@[i] == old(s).history@[i],
            views(final(s).history@.last()@) == views(final(s).positions@),
            final(s).rounds == old(s).rounds + 1,
            final(s).converged == converges(refined@, views(old(s).positions@), self.config.convergence_threshold),
    {
        let t = &self.config.convergence_threshold;
        let n = s.positions.len();
        let mut reached = false;
        let mut i: usize = 0;
        while i < n
            invariant
                i <= n,
                n == s.positions@.len(),
                reached == exists|k: int| 0 <= k < i && #[trigger] t.admits(
                    text_fraction(refined@, views(s.positions@)[k]).0,
                    text_fraction(refined@, views(s.positions@)[k]).1,
                ),
            decreases n - i,
        {
            let sim = text_similarity(refined.as_str(), s.positions[i].as_str());
            let ok = t.admits_exec(sim.num, sim.den);
            proof {
                assert(views(s.positions@)[i as int] == s.positions@[i as int]@);
            }
            reached = reached || ok;
            i = i + 1;
        }
        let positions = copies(&refined, n);
        let snapshot = copy_strings(&positions);
        let ghost old_history = s.history@;
        s.history.push(snapshot);
        s.positions = positions;
        s.rounds = s.rounds + 1;
        s.converged = reached;
        proof {
            assert(views(s.positions@).len() == s.positions@.len());
            assert(s.positions@.len() == n);
            assert(s.history@.last() == s.history@[old_history.len() as int]);
        }
    }

    /// The prompt that asks a judge how far the original candidates agree with the debate's
    /// outcome.
    pub fn classification_request(&self, s: &DebateSession, candidates: &Vec<Candidate>) -> (p: String)
        requires
            s.wf(),
        ensures
            p@ == classification_prompt(candidates@, s.outcome()),
    {
        let mut blocks: Vec<String> = Vec::new();
        let mut i: usize = 0;
        while i < candidates.len()
            invariant
                i <= candidates@.len(),
                views(blocks@) == Seq::new(i as nat, |k: int| candidate_block(k, candidates@[k])),
            decreases candidates@.len() - i,
        {
            let mut b = String::from_str("--- Candidate ");
            b.append(decimal_string(i as u64).as_str());
            b.append(model_note_string(&candidates[i].model).as_str());
            b.append("---\n");
            b.append(candidates[i].content.as_str());
            let ghost before = views(blocks@);
            blocks.push(b);
            proof {
                assert(views(blocks@) =~= before.push(b@));
                assert(views(blocks@) =~= Seq::new((i + 1) as nat, |k: int| candidate_block(k, candidates@[k])));
            }
            i = i + 1;
        }
        let text = join_strings(&blocks, "\n\n");
        proof {
            reveal_strlit("{count}");
            reveal_strlit("{synthesis}");
            reveal_strlit("{candidates}");
        }
        let a = replace(classification_template_string().as_str(), "{count}", decimal_string(candidates.len() as u64).as_str());
        let b = replace(a.as_str(), "{synthesis}", s.positions[0].as_str());
        replace(b.as_str(), "{candidates}", text.as_str())
    }

    /// The consensus of a finished debate: its outcome, with the agreement and dissents the
    /// judge reported when its answer could be read, and otherwise with every candidate whose
    /// similarity to the outcome is below three tenths dissenting and the agreement the mean
    /// similarity (full agreement when nobody dissents).
    pub fn finish(&self, s: &DebateSession, candidates: &Vec<Candidate>, verdict: Option<JudgeVerdict>) -> (c: Consensus)
        requires
            s.wf(),
        ensures
            c.content@ == s.outcome(),
            c.strategy@ == Self::spec_name(),
            c.reasoning matches Some(t) && t@ == debate_reasoning(s.rounds as nat, self.config.max_rounds as nat),
            verdict matches Some(v) ==> {
                &&& c.agreement == Agreement::Exact(v.agreement)
                &&& c.dissents@ == valid_positions(v.dissent_indices@, candidates@.len())
            },
            verdict is None ==> {
                &&& c.dissents@ == low_similarity(s.outcome(), candidates@)
                &&& c.dissents@.len() == 0 ==> c.agreement.is_full()
                &&& c.dissents@.len() > 0 ==> (c.agreement matches Agreement::MeanOf(v)
                    && v@ == similarities(s.outcome(), candidates@))
            },
    {
        let outcome = s.positions[0].clone();
        let mut reasoning = String::from_str("Debate completed in ");
        reasoning.append(decimal_string(s.rounds as u64).as_str());
        reasoning.append(" round(s) of ");
        reasoning.append(decimal_string(self.config.max_rounds as u64).as_str());
        reasoning.append(" maximum");
        match verdict {
            Some(v) => {
                let dissents = keep_valid_positions(&v.dissent_indices, candidates.len());
                Consensus {
                    content: outcome,
                    strategy: self.name(),
                    agreement: Agreement::Exact(v.agreement),
                    dissents,
                    reasoning: Some(reasoning),
                }
            },
            None => {
                let ghost out = outcome@;
                let ghost pred = |i: usize| falls_short(out, candidates@, i);
                let cut = Threshold { num: 3, den: 10 };
                let mut sims: Vec<Ratio> = Vec::new();
                let mut dissents: Vec<usize> = Vec::new();
                let mut i: usize = 0;
                while i < candidates.len()
                    invariant
                        i <= candidates@.len(),
                        out == outcome@,
                        cut == dissent_cutoff(),
                        pred == (|i: usize| falls_short(out, candidates@, i)),
                        sims@ == similarities(out, candidates@).take(i as int),
                        dissents@ == Seq::new(i as nat, |k: int| k as usize).filter(pred),
                    decreases candidates@.len() - i,
                {
                    let sim = text_similarity(outcome.as_str(), candidates[i].content.as_str());
                    proof {
                        let idx = Seq::new(i as nat, |k: int| k as usize);
                        assert(Seq::new((i + 1) as nat, |k: int| k as usize) =~= idx.push(i));
                        idx.lemma_filter_push(i, pred);
                    }
                    let low = !cut.admits_exec(sim.num, sim.den);
                    if low {
                        dissents.push(i);
                    }
                    sims.push(sim);
                    proof {
                        assert(sims@ =~= similarities(out, candidates@).take(i + 1));
                    }
                    i = i + 1;
                }
                proof {
                    assert(similarities(out, candidates@).take(candidates@.len() as int) =~= similarities(out, candidates@));
                }
                let agreement = if dissents.len() == 0 {
                    Agreement::Exact(Ratio::one())
                } else {
                    Agreement::MeanOf(sims)
                };
                Consensus {
                    content: outcome,
                    strategy: self.name(),
                    agreement,
                    dissents,
                    reasoning: Some(reasoning),
                }
            },
        }
    }
}

} // verus!
