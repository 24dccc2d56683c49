use vstd::prelude::*;
use vstd::string::StringExecFns;

use crate::pipeline::{Pipeline, PipelineStep, VoteMethod};
use crate::ratio::Threshold;
use crate::text::{lowercase_of, starts_with, to_lowercase, views};
use crate::types::str_eq;

verus! {

/// The subcommands of the command line.
pub open spec fn subcommands() -> Seq<Seq<char>> {
    seq!["ask"@, "compare"@, "debate"@, "bench"@, "serve"@, "help"@]
}

/// Whether `s` starts with `p`.
pub open spec fn has_prefix(s: Seq<char>, p: Seq<char>) -> bool {
    s.len() >= p.len() && s.take(p.len() as int) == p
}

/// Whether the arguments from position `i` on call for `ask` to be put in front: the first
/// positional argument, found by skipping flags and the value of `--env`, is not a
/// subcommand. A help or version flag before it, or no positional argument at all, means no.
pub open spec fn injection_from(args: Seq<Seq<char>>, i: int) -> bool
    decreases args.len() - i,
{
    if i < 0 || i >= args.len() {
        false
    } else {
        let a = args[i];
        if a == "--help"@ || a == "-h"@ || a == "--version"@ || a == "-V"@ {
            false
        } else if a == "--env"@ {
            if i + 2 < args.len() {
                injection_from(args, i + 2)
            } else {
                false
            }
        } else if has_prefix(a, "-"@) {
            injection_from(args, i + 1)
        } else {
            !subcommands().contains(a)
        }
    }
}

/// Whether `ask` must be put in as the subcommand: the first positional argument after the
/// program name is not a known subcommand.
pub fn needs_subcommand_injection(args: &Vec<String>) -> (r: bool)
    ensures
        r == injection_from(views(args@), 1),
{
    let ghost a = views(args@);
    let mut i: usize = 1;
    while i < args.len()
        invariant
            1 <= i,
            a == views(args@),
            injection_from(a, i as int) == injection_from(a, 1),
        decreases args@.len() - i,
    {
        let arg = args[i].as_str();
        proof {
            assert(a[i as int] == arg@);
        }
        if str_eq(arg, "--help") || str_eq(arg, "-h") || str_eq(arg, "--version") || str_eq(arg, "-V") {
            return false;
        }
        if str_eq(arg, "--env") {
            if args.len() - i <= 2 {
                proof {
                    assert(injection_from(a, i + 2) == false);
                }
                return false;
            }
            i = i + 2;
        } else if starts_with(arg, "-") {
            i = i + 1;
        } else {
            let known = str_eq(arg, "ask") || str_eq(arg, "compare") || str_eq(arg, "debate")
                || str_eq(arg, "bench") || str_eq(arg, "serve") || str_eq(arg, "help");
            proof {
                reveal_strlit("ask");
                reveal_strlit("compare");
                reveal_strlit("debate");
                reveal_strlit("bench");
                reveal_strlit("serve");
                reveal_strlit("help");
                assert(known == subcommands().contains(arg@)) by {
                    if subcommands().contains(arg@) {
                        let k = choose|k: int| 0 <= k < 6 && subcommands()[k] == arg@;
                        assert(0 <= k < 6);
                    }
                    if known {
                        if arg@ == "ask"@ { assert(subcommands()[0] == arg@); }
                        if arg@ == "compare"@ { assert(subcommands()[1] == arg@); }
                        if arg@ == "debate"@ { assert(subcommands()[2] == arg@); }
                        if arg@ == "bench"@ { assert(subcommands()[3] == arg@); }
                        if arg@ == "serve"@ { assert(subcommands()[4] == arg@); }
                        if arg@ == "help"@ { assert(subcommands()[5] == arg@); }
                    }
                }
            }
            return !known;
        }
    }
    false
}

/// Names of the debate strategy.
pub open spec fn is_debate_name(name: Seq<char>) -> bool {
    name == "debate"@ || name == "multi_round_debate"@ || name == "multi-round-debate"@
}

/// Names of the strategies that need an LLM.
pub open spec fn needs_llm_name(name: Seq<char>) -> bool {
    ||| name == "judge"@
    ||| name == "judge_synthesis"@
    ||| name == "judge-synthesis"@
    ||| is_debate_name(name)
    ||| name == "debate_then_vote"@
    ||| name == "debate-then-vote"@
}

/// Whether a strategy name names the multi-round debate.
pub fn is_debate_strategy(name: &str) -> (r: bool)
    ensures
        r == is_debate_name(name@),
{
    str_eq(name, "debate") || str_eq(name, "multi_round_debate") || str_eq(name, "multi-round-debate")
}

/// Whether the strategy of a name needs an LLM to judge or debate with.
pub fn strategy_needs_llm(name: &str) -> (r: bool)
    ensures
        r == needs_llm_name(name@),
{
    str_eq(name, "judge") || str_eq(name, "judge_synthesis") || str_eq(name, "judge-synthesis")
        || is_debate_strategy(name) || str_eq(name, "debate_then_vote") || str_eq(name, "debate-then-vote")
}

/// The strategy of a consensus request that names none.
pub fn default_strategy() -> (s: String)
    ensures
        s@ == "majority_vote"@,
{
    String::from_str("majority_vote")
}

/// The output format of a request that names none.
pub fn default_format() -> (s: String)
    ensures
        s@ == "json"@,
{
    String::from_str("json")
}

/// Arguments of `ask`: a one-shot consensus query across multiple models.
pub struct AskArgs {
    /// The question or prompt to send to the models.
    pub prompt: String,
    /// Models to query; all configured providers when absent.
    pub models: Option<Vec<String>>,
    /// Show the queries, the strategy and the agreement on standard error.
    pub verbose: bool,
    /// Custom system prompt for the model queries.
    pub system: Option<String>,
    /// Consensus strategy.
    pub strategy: String,
    /// Output format.
    pub format: String,
    /// Number of debate rounds, for the debate strategies.
    pub rounds: usize,
}

impl AskArgs {
    /// The arguments of `ask` for a prompt, with every option at its default: the judge
    /// strategy, plain output and three debate rounds.
    pub fn new(prompt: &str) -> (a: AskArgs)
        ensures
            a.prompt@ == prompt@,
            a.models is None,
            !a.verbose,
            a.system is None,
            a.strategy@ == "judge"@,
            a.format@ == "plain"@,
            a.rounds == 3,
    {
        AskArgs {
            prompt: String::from_str(prompt),
            models: None,
            verbose: false,
            system: None,
            strategy: String::from_str("judge"),
            format: String::from_str("plain"),
            rounds: 3,
        }
    }

    /// Whether the answer of a single model is given back as it is: with a single candidate,
    /// no consensus is run, whatever the strategy.
    pub fn passes_through(&self, candidates: usize) -> (r: bool)
        ensures
            r == (candidates == 1),
    {
        candidates == 1
    }
}

/// Arguments of `compare`: several strategies side by side.
pub struct CompareArgs {
    pub prompt: String,
    pub models: Option<Vec<String>>,
    /// Strategies to compare.
    pub strategies: Vec<String>,
    pub format: String,
}

impl CompareArgs {
    /// The arguments of `compare` for a prompt: majority and weighted vote, plain output.
    pub fn new(prompt: &str) -> (a: CompareArgs)
        ensures
            a.prompt@ == prompt@,
            a.models is None,
            views(a.strategies@) == seq!["majority-vote"@, "weighted-vote"@],
            a.format@ == "plain"@,
    {
        let mut strategies: Vec<String> = Vec::new();
        strategies.push(String::from_str("majority-vote"));
        strategies.push(String::from_str("weighted-vote"));
        proof {
            assert(views(strategies@) =~= seq!["majority-vote"@, "weighted-vote"@]);
        }
        CompareArgs { prompt: String::from_str(prompt), models: None, strategies, format: String::from_str("plain") }
    }
}

/// Arguments of `debate`: an interactive multi-round debate between models.
pub struct DebateArgs {
    pub prompt: String,
    pub models: Option<Vec<String>>,
    /// Number of debate rounds.
    pub rounds: usize,
    pub format: String,
}

impl DebateArgs {
    /// The arguments of `debate` for a prompt: three rounds, detailed output.
    pub fn new(prompt: &str) -> (a: DebateArgs)
        ensures
            a.prompt@ == prompt@,
            a.models is None,
            a.rounds == 3,
            a.format@ == "detailed"@,
    {
        DebateArgs { prompt: String::from_str(prompt), models: None, rounds: 3, format: String::from_str("detailed") }
    }
}

/// Arguments of `bench`: a batch evaluation over a file of test cases.
pub struct BenchArgs {
    /// Path of the file of test cases, one JSON object per line.
    pub input: String,
    pub models: Option<Vec<String>>,
    /// Strategies to benchmark.
    pub strategies: Vec<String>,
    /// Path of the file for the results; standard output when absent.
    pub output: Option<String>,
}

impl BenchArgs {
    /// The arguments of `bench` for an input file: majority vote only, results on standard
    /// output.
    pub fn new(input: &str) -> (a: BenchArgs)
        ensures
            a.input@ == input@,
            a.models is None,
            views(a.strategies@) == seq!["majority-vote"@],
            a.output is None,
    {
        let mut strategies: Vec<String> = Vec::new();
        strategies.push(String::from_str("majority-vote"));
        proof {
            assert(views(strategies@) =~= seq!["majority-vote"@]);
        }
        BenchArgs { input: String::from_str(input), models: None, strategies, output: None }
    }
}

/// Arguments of `serve`: an HTTP API or an MCP server.
pub struct ServeArgs {
    pub port: u16,
    pub host: String,
    /// Serve MCP over standard input and output instead of HTTP.
    pub mcp: bool,
}

impl ServeArgs {
    /// Port 8080 on the loopback address, over HTTP.
    pub fn new() -> (a: ServeArgs)
        ensures
            a.port == 8080,
            a.host@ == "127.0.0.1"@,
            !a.mcp,
    {
        ServeArgs { port: 8080, host: String::from_str("127.0.0.1"), mcp: false }
    }
}

/// Whether a benchmark answer meets its expectation: the answer contains the expected text,
/// both compared in lower case; `None` when nothing is expected.
pub open spec fn expectation_met(content: Seq<char>, expected: Option<Seq<char>>) -> Option<bool> {
    match expected {
        Some(e) => Some(exists|i: int| 0 <= i <= lowercase_of(content).len() - lowercase_of(e).len()
            && #[trigger] lowercase_of(content).subrange(i, i + lowercase_of(e).len()) == lowercase_of(e)),
        None => None,
    }
}

/// Whether `pat` occurs in `s`.
pub fn occurs(s: &Vec<char>, pat: &Vec<char>) -> (r: bool)
    ensures
        r == exists|i: int| 0 <= i <= s@.len() - pat@.len() && #[trigger] s@.subrange(i, i + pat@.len()) == pat@,
{
    if pat.len() > s.len() {
        return false;
    }
    let last = s.len() - pat.len();
    let mut i: usize = 0;
    while i <= last
        invariant
            last == s@.len() - pat@.len(),
            s@.len() <= usize::MAX,
            pat@.len() <= s@.len(),
            forall|k: int| 0 <= k < i ==> #[trigger] s@.subrange(k, k + pat@.len()) != pat@,
        decreases last + 1 - i,
    {
        let mut k: usize = 0;
        let mut same = true;
        while k < pat.len()
            invariant
                k <= pat@.len(),
                pat@.len() <= s@.len(),
                s@.len() <= usize::MAX,
                i <= last,
                last == s@.len() - pat@.len(),
                same == forall|j: int| 0 <= j < k ==> s@[i + j] == pat@[j],
            decreases pat@.len() - k,
        {
            if s[i + k] != pat[k] {
                same = false;
            }
            k = k + 1;
        }
        if same {
            proof {
                assert(s@.subrange(i as int, i + pat@.len()) =~= pat@);
            }
            return true;
        }
        proof {
            assert(exists|j: int| 0 <= j < pat@.len() && s@[i + j] != pat@[j]);
            let j = choose|j: int| 0 <= j < pat@.len() && s@[i + j] != pat@[j];
            assert(s@.subrange(i as int, i + pat@.len())[j] != pat@[j]);
        }
        if i == last {
            return false;
        }
        i = i + 1;
    }
    false
}

/// Checks a benchmark answer against its expectation.
pub fn meets_expectation(content: &str, expected: &Option<String>) -> (r: Option<bool>)
    ensures
        r == expectation_met(content@, match expected { Some(e) => Some(e@), None => None }),
{
    match expected {
        Some(e) => {
            let c = crate::text::chars_of(to_lowercase(content).as_str());
            let p = crate::text::chars_of(to_lowercase(e.as_str()).as_str());
            Some(occurs(&c, &p))
        },
        None => None,
    }
}

/// How many benchmark results met their expectation, how many missed it, and how many had
/// none.
pub open spec fn bench_tally(ms: Seq<Option<bool>>) -> (nat, nat, nat) {
    (
        ms.filter(|m: Option<bool>| m == Some(true)).len(),
        ms.filter(|m: Option<bool>| m == Some(false)).len(),
        ms.filter(|m: Option<bool>| m is None).len(),
    )
}

/// Counts the benchmark results that met their expectation, missed it, and had none.
pub fn tally_matches(ms: &Vec<Option<bool>>) -> (r: (usize, usize, usize))
    ensures
        r.0 == bench_tally(ms@).0,
        r.1 == bench_tally(ms@).1,
        r.2 == bench_tally(ms@).2,
{
    let ghost p_met = |m: Option<bool>| m == Some(true);
    let ghost p_missed = |m: Option<bool>| m == Some(false);
    let ghost p_none = |m: Option<bool>| m is None;
    let mut met: usize = 0;
    let mut missed: usize = 0;
    let mut none: usize = 0;
    let mut i: usize = 0;
    while i < ms.len()
        invariant
            i <= ms@.len(),
            p_met == (|m: Option<bool>| m == Some(true)),
            p_missed == (|m: Option<bool>| m == Some(false)),
            p_none == (|m: Option<bool>| m is None),
            met == ms@.take(i as int).filter(p_met).len(),
            missed == ms@.take(i as int).filter(p_missed).len(),
            none == ms@.take(i as int).filter(p_none).len(),
            met + missed + none == i,
        decreases ms@.len() - i,
    {
        proof {
            assert(ms@.take(i + 1) =~= ms@.take(i as int).push(ms@[i as int]));
            ms@.take(i as int).lemma_filter_push(ms@[i as int], p_met);
            ms@.take(i as int).lemma_filter_push(ms@[i as int], p_missed);
            ms@.take(i as int).lemma_filter_push(ms@[i as int], p_none);
        }
        match ms[i] {
            Some(true) => met = met + 1,
            Some(false) => missed = missed + 1,
            None => none = none + 1,
        }
        i = i + 1;
    }
    proof {
        assert(ms@.take(ms@.len() as int) =~= ms@);
    }
    (met, missed, none)
}

/// One step of a pipeline as an HTTP request gives it.
pub struct StepRequest {
    pub step: String,
    pub rounds: Option<usize>,
    pub method: Option<String>,
}

/// Whether a request step names a known step: `generate`, `debate`, `vote`, `judge` or
/// `synthesize`.
pub open spec fn known_step(s: StepRequest) -> bool {
    s.step@ == "generate"@ || s.step@ == "debate"@ || s.step@ == "vote"@ || s.step@ == "judge"@
        || s.step@ == "synthesize"@
}

/// Whether a built step is the one a request step asks for: `generate` asks the request's
/// models, `debate` debates for the given rounds (three by default), `vote` counts by weight
/// when its method is `weighted` and by majority otherwise, and `judge` or `synthesize` adds a
/// judge step.
pub open spec fn step_matches(built: PipelineStep, s: StepRequest, models: Seq<Seq<char>>) -> bool {
    if s.step@ == "generate"@ {
        built matches PipelineStep::Generate { models: m } && views(m@) == models
    } else if s.step@ == "debate"@ {
        built == PipelineStep::Debate {
            max_rounds: match s.rounds { Some(r) => r, None => 3 },
            convergence_threshold: Threshold { num: 9, den: 10 },
        }
    } else if s.step@ == "vote"@ {
        built == PipelineStep::Vote {
            method: if (s.method matches Some(m) && m@ == "weighted"@) { VoteMethod::Weighted } else { VoteMethod::Majority },
        }
    } else if s.step@ == "judge"@ || s.step@ == "synthesize"@ {
        built == PipelineStep::Judge
    } else {
        false
    }
}

/// The pipeline an HTTP request describes, or the name of the first unknown step.
pub fn pipeline_from_request(steps: &Vec<StepRequest>, models: &Vec<String>) -> (r: Result<Pipeline, String>)
    ensures
        r matches Ok(p) ==> {
            &&& p@.len() == steps@.len()
            &&& forall|i: int| 0 <= i < steps@.len() ==> #[trigger] step_matches(p@[i], steps@[i], views(models@))
        },
        r matches Err(name) ==> exists|i: int| {
            &&& 0 <= i < steps@.len()
            &&& !known_step(steps@[i])
            &&& name@ == steps@[i].step@
            &&& forall|j: int| 0 <= j < i ==> known_step(#[trigger] steps@[j])
        },
        r is Err <==> exists|i: int| 0 <= i < steps@.len() && !known_step(#[trigger] steps@[i]),
{
    let mut p = Pipeline::new();
    let mut i: usize = 0;
    while i < steps.len()
        invariant
            i <= steps@.len(),
            p@.len() == i,
            forall|k: int| 0 <= k < i ==> #[trigger] step_matches(p@[k], steps@[k], views(models@)),
            forall|k: int| 0 <= k < i ==> known_step(#[trigger] steps@[k]),
        decreases steps@.len() - i,
    {
        let s = &steps[i];
        let name = s.step.as_str();
        let ghost before = p@;
        if str_eq(name, "generate") {
            let mut m: Vec<String> = Vec::new();
            let mut k: usize = 0;
            while k < models.len()
                invariant
                    k <= models@.len(),
                    views(m@) == views(models@).take(k as int),
                decreases models@.len() - k,
            {
                let ghost mb = views(m@);
                m.push(models[k].clone());
                proof {
                    assert(views(m@) =~= mb.push(models@[k as int]@));
                    assert(views(m@) =~= views(models@).take(k + 1));
                }
                k = k + 1;
            }
            proof {
                assert(views(models@).take(models@.len() as int) =~= views(models@));
            }
            p = p.generate(m);
        } else if str_eq(name, "debate") {
            let rounds = match s.rounds {
                Some(r) => r,
                None => 3,
            };
            p = p.debate(rounds);
        } else if str_eq(name, "vote") {
            let weighted = match &s.method {
                Some(m) => str_eq(m.as_str(), "weighted"),
                None => false,
            };
            let method = if weighted { VoteMethod::Weighted } else { VoteMethod::Majority };
            p = p.vote(method);
        } else if str_eq(name, "judge") || str_eq(name, "synthesize") {
            p = p.judge();
        } else {
            proof {
                assert(!known_step(steps@[i as int]));
            }
            return Err(String::from_str(name));
        }
        proof {
            assert forall|k: int| 0 <= k < i + 1 implies #[trigger] step_matches(p@[k], steps@[k], views(models@)) by {
                if k < i {
                    assert(p@[k] == before[k]);
                }
            }
        }
        i = i + 1;
    }
    proof {
        assert forall|j: int| 0 <= j < steps@.len() implies known_step(#[trigger] steps@[j]) by {}
    }
    Ok(p)
}

/// The model that judges a consensus request: the first candidate's model, or `gpt-4o`.
pub fn judge_model_name(first_model: &Option<Option<String>>) -> (r: String)
    ensures
        first_model matches Some(Some(m)) ==> r@ == m@,
        !(first_model matches Some(Some(_))) ==> r@ == "gpt-4o"@,
{
    match first_model {
        Some(Some(m)) => m.clone(),
        _ => String::from_str("gpt-4o"),
    }
}

/// What an MCP server does with a request.
pub enum McpAction {
    /// Answer `initialize` with the server's capabilities.
    Initialize,
    /// Answer `tools/list` with the consensus tool.
    ListTools,
    /// Run the consensus tool.
    CallConsensus,
    /// Answer that no tool has this name.
    UnknownTool(String),
    /// Answer that no method has this name.
    UnknownMethod(String),
}

/// The action for an MCP request's method and, for `tools/call`, tool name.
pub fn mcp_action(method: &str, tool: &str) -> (a: McpAction)
    ensures
        method@ == "initialize"@ ==> a is Initialize,
        method@ == "tools/list"@ ==> a is ListTools,
        method@ == "tools/call"@ && tool@ == "consensus"@ ==> a is CallConsensus,
        method@ == "tools/call"@ && tool@ != "consensus"@ ==> (a matches McpAction::UnknownTool(t) && t@ == tool@),
        method@ != "initialize"@ && method@ != "tools/list"@ && method@ != "tools/call"@
            ==> (a matches McpAction::UnknownMethod(m) && m@ == method@),
{
    proof {
        reveal_strlit("initialize");
        reveal_strlit("tools/list");
        reveal_strlit("tools/call");
        assert("initialize"@[0] != "tools/list"@[0]);
        assert("initialize"@[0] != "tools/call"@[0]);
        assert("tools/list"@[6] != "tools/call"@[6]);
    }
    if str_eq(method, "initialize") {
        McpAction::Initialize
    } else if str_eq(method, "tools/list") {
        McpAction::ListTools
    } else if str_eq(method, "tools/call") {
        if str_eq(tool, "consensus") {
            McpAction::CallConsensus
        } else {
            McpAction::UnknownTool(String::from_str(tool))
        }
    } else {
        McpAction::UnknownMethod(String::from_str(method))
    }
}

} // verus!
