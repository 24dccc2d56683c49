use vstd::prelude::*;
use vstd::string::StringExecFns;

use crate::fmt::{decimal, decimal_string};
use crate::ratio::Ratio;
use crate::text::{join, join_strings, replace, replace_all, views, chars_of};
use crate::types::{Agreement, Candidate, Consensus, ConsensusError, StrategyKind};

verus! {

/// The judge's default system prompt.
pub open spec fn judge_system_text() -> Seq<char> {
    "You are an expert judge evaluating multiple AI responses to the same question. Your job is to synthesize the best possible answer by analyzing all responses, identifying the strongest reasoning and most accurate information from each, and producing a single authoritative response."@
}

pub fn judge_system() -> (s: String)
    ensures
        s@ == judge_system_text(),
{
    String::from_str("You are an expert judge evaluating multiple AI responses to the same question. Your job is to synthesize the best possible answer by analyzing all responses, identifying the strongest reasoning and most accurate information from each, and producing a single authoritative response.")
}

/// The judge's prompt, with `{count}` and `{candidates}` to fill in.
pub open spec fn judge_template() -> Seq<char> {
    "Below are {count} responses to the same question. Evaluate each response for accuracy, completeness, and reasoning quality. Then synthesize the best possible answer.\n\n{candidates}\n\nRespond in the following JSON format:\n{{\n  \"synthesis\": \"Your synthesized best answer\",\n  \"reasoning\": \"Brief explanation of how you evaluated and combined the responses\",\n  \"agreement_score\": 0.0 to 1.0 representing how much the responses agreed,\n  \"dissent_indices\": [indices of responses that significantly disagreed with the consensus]\n}}"@
}

fn judge_template_string() -> (s: String)
    ensures
        s@ == judge_template(),
{
    String::from_str("Below are {count} responses to the same question. Evaluate each response for accuracy, completeness, and reasoning quality. Then synthesize the best possible answer.\n\n{candidates}\n\nRespond in the following JSON format:\n{{\n  \"synthesis\": \"Your synthesized best answer\",\n  \"reasoning\": \"Brief explanation of how you evaluated and combined the responses\",\n  \"agreement_score\": 0.0 to 1.0 representing how much the responses agreed,\n  \"dissent_indices\": [indices of responses that significantly disagreed with the consensus]\n}}")
}

/// ` (model: NAME)` for a candidate with a model, nothing otherwise.
pub open spec fn model_note(model: Option<String>) -> Seq<char> {
    match model {
        Some(m) => " (model: "@ + m@ + ")"@,
        None => Seq::empty(),
    }
}

pub fn model_note_string(model: &Option<String>) -> (s: String)
    ensures
        s@ == model_note(*model),
{
    match model {
        Some(m) => {
            let mut s = String::from_str(" (model: ");
            s.append(m.as_str());
            s.append(")");
            s
        },
        None => String::new(),
    }
}

/// One candidate as the judge sees it, numbered from one.
pub open spec fn response_block(i: int, c: Candidate) -> Seq<char> {
    "--- Response "@ + decimal((i + 1) as nat) + model_note(c.model) + "---\n"@ + c.content@
}

/// All candidates as the judge sees them, separated by blank lines.
pub open spec fn responses_text(cs: Seq<Candidate>) -> Seq<char> {
    join(Seq::new(cs.len(), |i: int| response_block(i, cs[i])), "\n\n"@)
}

/// The judge's prompt for a list of candidates, with the rubric first when there is one.
pub open spec fn judge_prompt(rubric: Option<String>, cs: Seq<Candidate>) -> Seq<char> {
    let filled = replace_all(
        replace_all(judge_template(), "{count}"@, decimal(cs.len())),
        "{candidates}"@,
        responses_text(cs),
    );
    match rubric {
        Some(r) => "Evaluation rubric: "@ + r@ + "\n\n"@ + filled,
        None => filled,
    }
}

/// What a judge answered, once parsed: the synthesis, the explanation, the agreement it
/// reported (already limited to the range from zero to one), and the positions of the
/// candidates that disagreed.
pub struct JudgeVerdict {
    pub synthesis: String,
    pub reasoning: String,
    pub agreement: Ratio,
    pub dissent_indices: Vec<usize>,
}

/// The positions of `indices` that name a candidate (below `n`), in order, repeats kept.
pub open spec fn valid_positions(indices: Seq<usize>, n: nat) -> Seq<usize> {
    indices.filter(|i: usize| i < n)
}

pub fn keep_valid_positions(indices: &Vec<usize>, n: usize) -> (r: Vec<usize>)
    ensures
        r@ == valid_positions(indices@, n as nat),
{
    let ghost pred = |i: usize| i < n;
    let mut r: Vec<usize> = Vec::new();
    let mut k: usize = 0;
    while k < indices.len()
        invariant
            k <= indices@.len(),
            pred == (|i: usize| i < n),
            r@ == indices@.take(k as int).filter(pred),
        decreases indices@.len() - k,
    {
        proof {
            assert(indices@.take(k + 1) =~= indices@.take(k as int).push(indices@[k as int]));
            indices@.take(k as int).lemma_filter_push(indices@[k as int], pred);
        }
        if indices[k] < n {
            r.push(indices[k]);
        }
        k = k + 1;
    }
    proof {
        assert(indices@.take(indices@.len() as int) =~= indices@);
    }
    r
}

/// A judge that evaluates all candidates and synthesizes the best response.
pub struct JudgeSynthesis {
    /// System prompt for the judge LLM.
    pub system_prompt: String,
    /// Rubric or criteria for the evaluation.
    pub rubric: Option<String>,
}

impl JudgeSynthesis {
    pub fn new() -> (j: JudgeSynthesis)
        ensures
            j.system_prompt@ == judge_system_text(),
            j.rubric is None,
    {
        JudgeSynthesis { system_prompt: judge_system(), rubric: None }
    }

    pub fn with_system_prompt(self, prompt: &str) -> (j: JudgeSynthesis)
        ensures
            j.system_prompt@ == prompt@,
            j.rubric == self.rubric,
    {
        JudgeSynthesis { system_prompt: String::from_str(prompt), rubric: self.rubric }
    }

    pub fn with_rubric(self, rubric: &str) -> (j: JudgeSynthesis)
        ensures
            j.system_prompt == self.system_prompt,
            j.rubric matches Some(r) && r@ == rubric@,
    {
        JudgeSynthesis { system_prompt: self.system_prompt, rubric: Some(String::from_str(rubric)) }
    }

    pub open spec fn spec_name() -> Seq<char> {
        "judge_synthesis"@
    }

    pub fn name(&self) -> (s: String)
        ensures
            s@ == Self::spec_name(),
    {
        String::from_str("judge_synthesis")
    }

    /// The prompt that asks the judge to evaluate the candidates.
    pub fn build_prompt(&self, candidates: &Vec<Candidate>) -> (p: String)
        ensures
            p@ == judge_prompt(self.rubric, candidates@),
    {
        let mut blocks: Vec<String> = Vec::new();
        let mut i: usize = 0;
        while i < candidates.len()
            invariant
                i <= candidates@.len(),
                views(blocks@) == Seq::new(i as nat, |k: int| response_block(k, candidates@[k])),
            decreases candidates@.len() - i,
        {
            let mut b = String::from_str("--- Response ");
            b.append(decimal_string(i as u64 + 1).as_str());
            b.append(model_note_string(&candidates[i].model).as_str());
            b.append("---\n");
            b.append(candidates[i].content.as_str());
            let ghost before = views(blocks@);
            blocks.push(b);
            proof {
                assert(views(blocks@) =~= before.push(b@));
                assert(views(blocks@) =~= Seq::new((i + 1) as nat, |k: int| response_block(k, candidates@[k])));
            }
            i = i + 1;
        }
        let text = join_strings(&blocks, "\n\n");
        let count = decimal_string(candidates.len() as u64);
        proof {
            reveal_strlit("{count}");
            reveal_strlit("{candidates}");
        }
        let step = replace(judge_template_string().as_str(), "{count}", count.as_str());
        let filled = replace(step.as_str(), "{candidates}", text.as_str());
        match &self.rubric {
            Some(r) => {
                let mut p = String::from_str("Evaluation rubric: ");
                p.append(r.as_str());
                p.append("\n\n");
                p.append(filled.as_str());
                p
            },
            None => filled,
        }
    }

    /// Checks what a judgement needs before the judge is asked: an LLM provider and at least
    /// one candidate. Gives back the prompt for the judge.
    pub fn prepare(&self, candidates: &Vec<Candidate>, has_llm: bool) -> (r: Result<String, ConsensusError>)
        ensures
            !has_llm ==> r matches Err(ConsensusError::LlmRequired(StrategyKind::JudgeSynthesis)),
            has_llm && candidates@.len() == 0 ==> r matches Err(ConsensusError::NoCandidates),
            has_llm && candidates@.len() > 0 ==> (r matches Ok(p) && p@ == judge_prompt(self.rubric, candidates@)),
    {
        if !has_llm {
            return Err(ConsensusError::LlmRequired(StrategyKind::JudgeSynthesis));
        }
        if candidates.len() == 0 {
            return Err(ConsensusError::NoCandidates);
        }
        Ok(self.build_prompt(candidates))
    }

    /// The consensus from the judge's answer: from its parsed verdict when it has one (the
    /// synthesis, the reported agreement, the reasoning, and the candidates it names as
    /// dissenting), and otherwise the raw answer with full agreement.
    pub fn conclude(&self, n: usize, verdict: Option<JudgeVerdict>, raw: String) -> (c: Consensus)
        ensures
            c.strategy@ == Self::spec_name(),
            verdict matches Some(v) ==> {
                &&& c.content == v.synthesis
                &&& c.agreement == Agreement::Exact(v.agreement)
                &&& c.dissents@ == valid_positions(v.dissent_indices@, n as nat)
                &&& c.reasoning == Some(v.reasoning)
            },
            verdict is None ==> {
                &&& c.content == raw
                &&& c.agreement.is_full()
                &&& c.dissents@.len() == 0
                &&& c.reasoning matches Some(s) && s@ == "Judge response was not in structured format"@
            },
    {
        match verdict {
            Some(v) => {
                let dissents = keep_valid_positions(&v.dissent_indices, n);
                Consensus {
                    content: v.synthesis,
                    strategy: self.name(),
                    agreement: Agreement::Exact(v.agreement),
                    dissents,
                    reasoning: Some(v.reasoning),
                }
            },
            None => Consensus {
                content: raw,
                strategy: self.name(),
                agreement: Agreement::Exact(Ratio::one()),
                dissents: Vec::new(),
                reasoning: Some(String::from_str("Judge response was not in structured format")),
            },
        }
    }
}

/// A parsed judge answer with no dissent reports full agreement, whatever score it gave.
pub fn normalize_verdict(v: JudgeVerdict) -> (r: JudgeVerdict)
    ensures
        r.synthesis == v.synthesis,
        r.reasoning == v.reasoning,
        r.dissent_indices@ == v.dissent_indices@,
        v.dissent_indices@.len() == 0 ==> r.agreement.num == 1 && r.agreement.den == 1,
        v.dissent_indices@.len() > 0 ==> r.agreement == v.agreement,
{
    if v.dissent_indices.len() == 0 {
        JudgeVerdict { agreement: Ratio::one(), ..v }
    } else {
        v
    }
}

/// The position of the first `{` and of the last `}` of an answer, when it has both.
pub open spec fn brace_span(s: Seq<char>) -> Option<(int, int)> {
    if (exists|i: int| 0 <= i < s.len() && s[i] == '{') && (exists|i: int| 0 <= i < s.len() && s[i] == '}') {
        let start = choose|i: int| 0 <= i < s.len() && s[i] == '{' && forall|k: int| 0 <= k < i ==> s[k] != '{';
        let end = choose|i: int| 0 <= i < s.len() && s[i] == '}' && forall|k: int| i < k < s.len() ==> s[k] != '}';
        Some((start, end))
    } else {
        None
    }
}

/// The text from the first `{` to the last `}` of an answer, where a JSON object embedded in
/// prose or a code block would stand; `None` when either brace is missing. An answer whose last
/// `}` comes more than one character before its first `{` has no such text.
pub fn braced_text(response: &str) -> (r: Option<String>)
    requires
        brace_span(response@) matches Some(p) ==> p.0 <= p.1 + 1,
    ensures
        brace_span(response@) is None ==> r is None,
        brace_span(response@) matches Some(p) ==> (r matches Some(t) && t@ == response@.subrange(p.0, p.1 + 1)),
{
    let cs = chars_of(response);
    let n = cs.len();
    let mut start: usize = 0;
    while start < n && cs[start] != '{'
        invariant
            start <= n,
            n == cs@.len(),
            cs@ == response@,
            forall|k: int| 0 <= k < start ==> cs@[k] != '{',
        decreases n - start,
    {
        start = start + 1;
    }
    if start == n {
        return None;
    }
    let mut end: usize = n;
    while end > 0 && cs[end - 1] != '}'
        invariant
            end <= n,
            n == cs@.len(),
            cs@ == response@,
            forall|k: int| end <= k < n ==> cs@[k] != '}',
        decreases end,
    {
        end = end - 1;
    }
    if end == 0 {
        return None;
    }
    let last = end - 1;
    proof {
        let s = response@;
        assert(s[start as int] == '{');
        assert(s[last as int] == '}');
        let a = choose|i: int| 0 <= i < s.len() && s[i] == '{' && forall|k: int| 0 <= k < i ==> s[k] != '{';
        let b = choose|i: int| 0 <= i < s.len() && s[i] == '}' && forall|k: int| i < k < s.len() ==> s[k] != '}';
        assert(a == start);
        assert(b == last);
    }
    let mut v: Vec<char> = Vec::new();
    let mut j: usize = start;
    while j <= last
        invariant
            start <= j <= last + 1,
            last < n,
            n == cs@.len(),
            v@ == cs@.subrange(start as int, j as int),
        decreases last + 1 - j,
    {
        v.push(cs[j]);
        j = j + 1;
    }
    Some(crate::text::string_of(v.as_slice()))
}

/// The dissents a judge reports name only candidates that exist: every kept position is below
/// the number of candidates.
pub proof fn judge_dissents_name_candidates(indices: Seq<usize>, n: nat)
    ensures
        forall|i: int| 0 <= i < valid_positions(indices, n).len() ==> #[trigger] valid_positions(indices, n)[i] < n,
{
    assert forall|i: int| 0 <= i < valid_positions(indices, n).len() implies #[trigger] valid_positions(indices, n)[i] < n by {
        indices.lemma_filter_pred(|x: usize| x < n, i);
    }
}

} // verus!
