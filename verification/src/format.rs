use vstd::prelude::*;
use vstd::string::StringExecFns;

use crate::fmt::{decimal, decimal_string};
use crate::names::{lines, text_lines, trim, trimmed};
use crate::text::{join, join_strings, views};
use crate::types::{str_eq, Candidate};

verus! {

/// The ways a consensus can be shown.
#[derive(Clone, Copy, Debug, PartialEq, Eq, Structural)]
pub enum OutputFormat {
    /// The consensus text alone.
    Plain,
    /// The whole result as JSON.
    Json,
    /// Majority opinion, concurrences, dissents and a vote summary.
    SupremeCourt,
    /// A full transcript.
    Detailed,
}

/// The format a name selects, as the command line spells them.
pub open spec fn format_named(name: Seq<char>) -> Option<OutputFormat> {
    if name == "plain"@ {
        Some(OutputFormat::Plain)
    } else if name == "json"@ {
        Some(OutputFormat::Json)
    } else if name == "supreme-court"@ {
        Some(OutputFormat::SupremeCourt)
    } else if name == "detailed"@ {
        Some(OutputFormat::Detailed)
    } else {
        None
    }
}

impl OutputFormat {
    /// The format of a name, if it names one.
    pub fn parse(name: &str) -> (r: Option<OutputFormat>)
        ensures
            r == format_named(name@),
    {
        if str_eq(name, "plain") {
            Some(OutputFormat::Plain)
        } else if str_eq(name, "json") {
            Some(OutputFormat::Json)
        } else if str_eq(name, "supreme-court") {
            Some(OutputFormat::SupremeCourt)
        } else if str_eq(name, "detailed") {
            Some(OutputFormat::Detailed)
        } else {
            None
        }
    }
}

/// A consensus result as it is shown: the consensus text, the strategy, the reasoning, the
/// candidates evaluated and those that dissented.
pub struct ConsensusReport {
    pub content: String,
    pub strategy: String,
    pub reasoning: Option<String>,
    pub candidates: Vec<Candidate>,
    pub dissents: Vec<Candidate>,
}

/// Plain output: the consensus text alone.
pub fn render_plain(report: &ConsensusReport) -> (s: String)
    ensures
        s@ == report.content@,
{
    report.content.clone()
}

/// Lines shown of a concurrence or dissent.
pub open spec fn preview_lines() -> nat {
    5
}

/// The lines of a text that hold more than white space.
pub open spec fn non_blank_lines(text: Seq<char>) -> Seq<Seq<char>> {
    text_lines(text).filter(|l: Seq<char>| trimmed(l).len() > 0)
}

/// The first `max` non-blank lines of a text, joined by line breaks, and whether lines were
/// left out.
pub open spec fn preview_of(text: Seq<char>, max: nat) -> (Seq<char>, bool) {
    let ls = non_blank_lines(text);
    if ls.len() <= max {
        (join(ls, "\n"@), false)
    } else {
        (join(ls.take(max as int), "\n"@), true)
    }
}

/// Truncates a text to a preview: its first `max_lines` non-blank lines, and whether any
/// were left out.
pub fn preview(text: &str, max_lines: usize) -> (r: (String, bool))
    ensures
        r.0@ == preview_of(text@, max_lines as nat).0,
        r.1 == preview_of(text@, max_lines as nat).1,
{
    let all = lines(text);
    let ghost pred = |l: Seq<char>| trimmed(l).len() > 0;
    let mut kept: Vec<String> = Vec::new();
    let mut i: usize = 0;
    while i < all.len()
        invariant
            i <= all@.len(),
            views(all@) == text_lines(text@),
            pred == (|l: Seq<char>| trimmed(l).len() > 0),
            views(kept@) == views(all@).take(i as int).filter(pred),
        decreases all@.len() - i,
    {
        proof {
            assert(views(all@).take(i + 1) =~= views(all@).take(i as int).push(all@[i as int]@));
            views(all@).take(i as int).lemma_filter_push(all@[i as int]@, pred);
        }
        let t = trim(all[i].as_str());
        if !t.as_str().is_empty() {
            let ghost before = views(kept@);
            kept.push(all[i].clone());
            proof {
                assert(views(kept@) =~= before.push(all@[i as int]@));
            }
        }
        i = i + 1;
    }
    proof {
        assert(views(all@).take(all@.len() as int) =~= views(all@));
    }
    if kept.len() <= max_lines {
        (join_strings(&kept, "\n"), false)
    } else {
        let mut first: Vec<String> = Vec::new();
        let mut k: usize = 0;
        while k < max_lines
            invariant
                k <= max_lines,
                max_lines < kept@.len(),
                views(first@) == views(kept@).take(k as int),
            decreases max_lines - k,
        {
            let ghost before = views(first@);
            first.push(kept[k].clone());
            proof {
                assert(views(first@) =~= before.push(kept@[k as int]@));
                assert(views(first@) =~= views(kept@).take(k + 1));
            }
            k = k + 1;
        }
        (join_strings(&first, "\n"), true)
    }
}

/// The double rule between sections.
pub open spec fn rule() -> Seq<char> {
    "\u{2550}\u{2550}\u{2550}\u{2550}\u{2550}\u{2550}\u{2550}\u{2550}\u{2550}\u{2550}\u{2550}\u{2550}\u{2550}\u{2550}\u{2550}\u{2550}\u{2550}\u{2550}\u{2550}\u{2550}\u{2550}\u{2550}\u{2550}\u{2550}\u{2550}\u{2550}\u{2550}\u{2550}\u{2550}\u{2550}\u{2550}\u{2550}\u{2550}\u{2550}\u{2550}\u{2550}\u{2550}\u{2550}\u{2550}\u{2550}\u{2550}\u{2550}\u{2550}\u{2550}\u{2550}\u{2550}\u{2550}\u{2550}\u{2550}\u{2550}\u{2550}"@
}

fn rule_string() -> (s: String)
    ensures
        s@ == rule(),
{
    String::from_str("\u{2550}\u{2550}\u{2550}\u{2550}\u{2550}\u{2550}\u{2550}\u{2550}\u{2550}\u{2550}\u{2550}\u{2550}\u{2550}\u{2550}\u{2550}\u{2550}\u{2550}\u{2550}\u{2550}\u{2550}\u{2550}\u{2550}\u{2550}\u{2550}\u{2550}\u{2550}\u{2550}\u{2550}\u{2550}\u{2550}\u{2550}\u{2550}\u{2550}\u{2550}\u{2550}\u{2550}\u{2550}\u{2550}\u{2550}\u{2550}\u{2550}\u{2550}\u{2550}\u{2550}\u{2550}\u{2550}\u{2550}\u{2550}\u{2550}\u{2550}\u{2550}")
}

/// A section title between two double rules.
pub open spec fn section_title(title: Seq<char>) -> Seq<char> {
    rule() + "\n  "@ + title + "\n"@ + rule() + "\n\n"@
}

fn section_title_string(title: &str) -> (s: String)
    ensures
        s@ == section_title(title@),
{
    let mut s = rule_string();
    s.append("\n  ");
    s.append(title);
    s.append("\n");
    s.append(rule_string().as_str());
    s.append("\n\n");
    s
}

/// The author of a concurrence or dissent: its model, or `Anonymous`.
pub open spec fn author(c: Candidate) -> Seq<char> {
    match c.model {
        Some(m) => m@,
        None => "Anonymous"@,
    }
}

/// One concurrence or dissent, numbered from one: its author, the indented preview, and a
/// note when the preview left lines out.
pub open spec fn opinion_block(i: int, c: Candidate) -> Seq<char> {
    let p = preview_of(c.content@, preview_lines());
    let body = join(text_lines(p.0).map_values(|l: Seq<char>| "     "@ + l + "\n"@), Seq::empty());
    "  "@ + decimal((i + 1) as nat) + ". "@ + author(c) + " wrote:\n\n"@ + body
        + (if p.1 { "\n     ... [truncated \u{2014} use -f detailed for full text]\n"@ } else { Seq::empty() })
        + "\n"@
}

/// A titled section of opinions, or nothing when there are none.
pub open spec fn opinions_section(title: Seq<char>, cs: Seq<Candidate>) -> Seq<char> {
    if cs.len() == 0 {
        Seq::empty()
    } else {
        section_title(title + " ("@ + decimal(cs.len()) + ")"@)
            + join(Seq::new(cs.len(), |i: int| opinion_block(i, cs[i])), Seq::empty())
    }
}

/// Whether a candidate concurs: no dissent has its content, and it is not the consensus
/// text itself.
pub open spec fn concurs(r: ConsensusReport, c: Candidate) -> bool {
    &&& !(exists|j: int| 0 <= j < r.dissents@.len() && #[trigger] r.dissents@[j].content@ == c.content@)
    &&& c.content@ != r.content@
}

/// The concurring candidates, in order.
pub open spec fn concurrences(r: ConsensusReport) -> Seq<Candidate> {
    r.candidates@.filter(|c: Candidate| concurs(r, c))
}

/// The header: the strategy and the agreement as a whole percentage.
pub open spec fn header_text(strategy: Seq<char>, whole: Seq<char>) -> Seq<char> {
    "\n"@ + rule() + "\n  CONSENSUS OPINION \u{2014} "@ + strategy + " Strategy\n  Agreement: "@ + whole + "%\n"@
        + rule() + "\n\n"@
}

/// The majority opinion: the consensus text under its title.
pub open spec fn majority_text(content: Seq<char>) -> Seq<char> {
    "  MAJORITY OPINION\n  \u{2500}\u{2500}\u{2500}\u{2500}\u{2500}\u{2500}\u{2500}\u{2500}\u{2500}\u{2500}\u{2500}\u{2500}\u{2500}\u{2500}\u{2500}\u{2500}\u{2500}\u{2500}\u{2500}\u{2500}\u{2500}\u{2500}\u{2500}\u{2500}\u{2500}\u{2500}\u{2500}\u{2500}\u{2500}\u{2500}\u{2500}\u{2500}\u{2500}\u{2500}\u{2500}\u{2500}\u{2500}\u{2500}\u{2500}\u{2500}\u{2500}\u{2500}\u{2500}\u{2500}\u{2500}\u{2500}\u{2500}\u{2500}\u{2500}\n\n"@
        + content + "\n\n"@
}

/// The reasoning section, when there is reasoning.
pub open spec fn reasoning_text(reasoning: Option<String>) -> Seq<char> {
    match reasoning {
        Some(t) => section_title("REASONING"@) + t@ + "\n\n"@,
        None => Seq::empty(),
    }
}

/// The vote summary: how many candidates, how many agree and dissent, and the agreement with
/// one decimal.
pub open spec fn summary_text(n: nat, d: nat, tenths: Seq<char>) -> Seq<char> {
    section_title("VOTE SUMMARY"@) + "  Total candidates: "@ + decimal(n) + "\n  In agreement:     "@
        + decimal((n - d) as nat) + "\n  Dissenting:       "@ + decimal(d) + "\n  Agreement score:  "@ + tenths
        + "%\n"@
}

/// The "Supreme Court" rendering of a report, given its agreement as a whole percentage and
/// with one decimal.
pub open spec fn supreme_court_text(r: ConsensusReport, whole: Seq<char>, tenths: Seq<char>) -> Seq<char> {
    header_text(r.strategy@, whole) + majority_text(r.content@) + reasoning_text(r.reasoning)
        + opinions_section("CONCURRENCES"@, concurrences(r)) + opinions_section("DISSENTS"@, r.dissents@)
        + summary_text(r.candidates@.len(), r.dissents@.len(), tenths)
}

/// The "Supreme Court" rendering ends with the vote counts: all candidates, those in agreement
/// (every candidate that does not dissent) and the dissenters, then the agreement score.
pub proof fn vote_summary_counts(r: ConsensusReport, whole: Seq<char>, tenths: Seq<char>)
    requires
        r.dissents@.len() <= r.candidates@.len(),
    ensures
        ({
            let n = r.candidates@.len();
            let d = r.dissents@.len();
            let text = supreme_court_text(r, whole, tenths);
            let tail = "  Total candidates: "@ + decimal(n) + "\n  In agreement:     "@ + decimal((n - d) as nat)
                + "\n  Dissenting:       "@ + decimal(d) + "\n  Agreement score:  "@ + tenths + "%\n"@;
            &&& text.len() >= tail.len()
            &&& text.skip(text.len() - tail.len()) == tail
        }),
{
    let n = r.candidates@.len();
    let d = r.dissents@.len();
    let tail = "  Total candidates: "@ + decimal(n) + "\n  In agreement:     "@ + decimal((n - d) as nat)
        + "\n  Dissenting:       "@ + decimal(d) + "\n  Agreement score:  "@ + tenths + "%\n"@;
    let head = header_text(r.strategy@, whole) + majority_text(r.content@) + reasoning_text(r.reasoning)
        + opinions_section("CONCURRENCES"@, concurrences(r)) + opinions_section("DISSENTS"@, r.dissents@)
        + section_title("VOTE SUMMARY"@);
    let text = supreme_court_text(r, whole, tenths);
    assert(text =~= head + tail);
    assert(text.skip(text.len() - tail.len()) =~= tail);
}

/// One opinion block.
fn opinion_block_string(i: usize, c: &Candidate) -> (s: String)
    requires
        i < usize::MAX,
    ensures
        s@ == opinion_block(i as int, *c),
{
    let (text, truncated) = preview(c.content.as_str(), 5);
    let ls = lines(text.as_str());
    let mut parts: Vec<String> = Vec::new();
    let mut k: usize = 0;
    while k < ls.len()
        invariant
            k <= ls@.len(),
            views(ls@) == text_lines(text@),
            views(parts@) == views(ls@).take(k as int).map_values(|l: Seq<char>| "     "@ + l + "\n"@),
        decreases ls@.len() - k,
    {
        let mut p = String::from_str("     ");
        p.append(ls[k].as_str());
        p.append("\n");
        let ghost before = views(parts@);
        parts.push(p);
        proof {
            assert(views(parts@) =~= before.push(p@));
            assert(views(parts@) =~= views(ls@).take(k + 1).map_values(|l: Seq<char>| "     "@ + l + "\n"@));
        }
        k = k + 1;
    }
    proof {
        assert(views(ls@).take(ls@.len() as int) =~= views(ls@));
        reveal_strlit("");
    }
    let body = join_strings(&parts, "");
    let mut s = String::from_str("  ");
    s.append(decimal_string(i as u64 + 1).as_str());
    s.append(". ");
    match &c.model {
        Some(m) => s.append(m.as_str()),
        None => s.append("Anonymous"),
    }
    s.append(" wrote:\n\n");
    s.append(body.as_str());
    if truncated {
        s.append("\n     ... [truncated \u{2014} use -f detailed for full text]\n");
    }
    s.append("\n");
    proof {
        assert(""@ =~= Seq::<char>::empty());
    }
    s
}

/// A titled section of opinion blocks for the given candidates.
fn opinions_section_string(title: &str, blocks: &Vec<String>) -> (s: String)
    requires
        blocks@.len() > 0,
    ensures
        s@ == section_title(title@ + " ("@ + decimal(blocks@.len() as nat) + ")"@) + join(views(blocks@), Seq::empty()),
{
    let mut t = String::from_str(title);
    t.append(" (");
    t.append(decimal_string(blocks.len() as u64).as_str());
    t.append(")");
    let mut s = section_title_string(t.as_str());
    proof {
        reveal_strlit("");
        assert(""@ =~= Seq::<char>::empty());
    }
    s.append(join_strings(blocks, "").as_str());
    s
}

/// Whether some dissent has this content.
fn has_dissent_content(dissents: &Vec<Candidate>, content: &String) -> (r: bool)
    ensures
        r == exists|j: int| 0 <= j < dissents@.len() && #[trigger] dissents@[j].content@ == content@,
{
    let mut j: usize = 0;
    while j < dissents.len()
        invariant
            j <= dissents@.len(),
            forall|k: int| 0 <= k < j ==> #[trigger] dissents@[k].content@ != content@,
        decreases dissents@.len() - j,
    {
        if str_eq(dissents[j].content.as_str(), content.as_str()) {
            return true;
        }
        j = j + 1;
    }
    false
}

fn header_string(strategy: &str, whole: &str) -> (s: String)
    ensures
        s@ == header_text(strategy@, whole@),
{
    let mut out = String::from_str("\n");
    out.append(rule_string().as_str());
    out.append("\n  CONSENSUS OPINION \u{2014} ");
    out.append(strategy);
    out.append(" Strategy\n  Agreement: ");
    out.append(whole);
    out.append("%\n");
    out.append(rule_string().as_str());
    out.append("\n\n");
    out
}

fn majority_string(content: &str) -> (s: String)
    ensures
        s@ == majority_text(content@),
{
    let mut out = String::from_str("  MAJORITY OPINION\n  \u{2500}\u{2500}\u{2500}\u{2500}\u{2500}\u{2500}\u{2500}\u{2500}\u{2500}\u{2500}\u{2500}\u{2500}\u{2500}\u{2500}\u{2500}\u{2500}\u{2500}\u{2500}\u{2500}\u{2500}\u{2500}\u{2500}\u{2500}\u{2500}\u{2500}\u{2500}\u{2500}\u{2500}\u{2500}\u{2500}\u{2500}\u{2500}\u{2500}\u{2500}\u{2500}\u{2500}\u{2500}\u{2500}\u{2500}\u{2500}\u{2500}\u{2500}\u{2500}\u{2500}\u{2500}\u{2500}\u{2500}\u{2500}\u{2500}\n\n");
    out.append(content);
    out.append("\n\n");
    out
}

fn reasoning_string(reasoning: &Option<String>) -> (s: String)
    ensures
        s@ == reasoning_text(*reasoning),
{
    match reasoning {
        Some(t) => {
            let mut out = section_title_string("REASONING");
            out.append(t.as_str());
            out.append("\n\n");
            out
        },
        None => String::new(),
    }
}

fn summary_string(n: usize, d: usize, tenths: &str) -> (s: String)
    requires
        d <= n,
    ensures
        s@ == summary_text(n as nat, d as nat, tenths@),
{
    let mut out = section_title_string("VOTE SUMMARY");
    out.append("  Total candidates: ");
    out.append(decimal_string(n as u64).as_str());
    out.append("\n  In agreement:     ");
    out.append(decimal_string((n - d) as u64).as_str());
    out.append("\n  Dissenting:       ");
    out.append(decimal_string(d as u64).as_str());
    out.append("\n  Agreement score:  ");
    out.append(tenths);
    out.append("%\n");
    out
}

fn concurrences_string(r: &ConsensusReport) -> (s: String)
    ensures
        s@ == opinions_section("CONCURRENCES"@, concurrences(*r)),
{
    let ghost pred = |c: Candidate| concurs(*r, c);
    let mut blocks: Vec<String> = Vec::new();
    let ghost mut chosen: Seq<Candidate> = Seq::empty();
    let mut i: usize = 0;
    while i < r.candidates.len()
        invariant
            i <= r.candidates@.len(),
            pred == (|c: Candidate| concurs(*r, c)),
            chosen == r.candidates@.take(i as int).filter(pred),
            blocks@.len() == chosen.len(),
            blocks@.len() <= i,
            views(blocks@) == Seq::new(chosen.len(), |k: int| opinion_block(k, chosen[k])),
        decreases r.candidates@.len() - i,
    {
        let c = &r.candidates[i];
        proof {
            assert(r.candidates@.take(i + 1) =~= r.candidates@.take(i as int).push(r.candidates@[i as int]));
            r.candidates@.take(i as int).lemma_filter_push(r.candidates@[i as int], pred);
        }
        let dissenting = has_dissent_content(&r.dissents, &c.content);
        let is_consensus = str_eq(c.content.as_str(), r.content.as_str());
        if !dissenting && !is_consensus {
            let b = opinion_block_string(blocks.len(), c);
            let ghost before = views(blocks@);
            blocks.push(b);
            proof {
                chosen = chosen.push(*c);
                assert(views(blocks@) =~= before.push(b@));
                assert(views(blocks@) =~= Seq::new(chosen.len(), |k: int| opinion_block(k, chosen[k])));
            }
        }
        i = i + 1;
    }
    proof {
        assert(r.candidates@.take(r.candidates@.len() as int) =~= r.candidates@);
        reveal_strlit("CONCURRENCES");
    }
    if blocks.len() > 0 {
        opinions_section_string("CONCURRENCES", &blocks)
    } else {
        String::new()
    }
}

fn dissents_string(r: &ConsensusReport) -> (s: String)
    ensures
        s@ == opinions_section("DISSENTS"@, r.dissents@),
{
    let mut blocks: Vec<String> = Vec::new();
    let mut j: usize = 0;
    while j < r.dissents.len()
        invariant
            j <= r.dissents@.len(),
            views(blocks@) == Seq::new(j as nat, |k: int| opinion_block(k, r.dissents@[k])),
        decreases r.dissents@.len() - j,
    {
        let b = opinion_block_string(j, &r.dissents[j]);
        let ghost before = views(blocks@);
        blocks.push(b);
        proof {
            assert(views(blocks@) =~= before.push(b@));
            assert(views(blocks@) =~= Seq::new((j + 1) as nat, |k: int| opinion_block(k, r.dissents@[k])));
        }
        j = j + 1;
    }
    proof {
        reveal_strlit("DISSENTS");
    }
    if blocks.len() > 0 {
        opinions_section_string("DISSENTS", &blocks)
    } else {
        String::new()
    }
}

/// Renders a report in "Supreme Court" form: a header with the strategy and the agreement, the
/// majority opinion, the reasoning, the concurrences and the dissents (each a preview of at
/// most five lines), and a vote summary. The agreement comes as a whole percentage and with
/// one decimal, already written out.
pub fn render_supreme_court(r: &ConsensusReport, whole: &str, tenths: &str) -> (s: String)
    requires
        r.dissents@.len() <= r.candidates@.len(),
    ensures
        s@ == supreme_court_text(*r, whole@, tenths@),
        ({
            let n = r.candidates@.len();
            let d = r.dissents@.len();
            let tail = "  Total candidates: "@ + decimal(n) + "\n  In agreement:     "@ + decimal((n - d) as nat)
                + "\n  Dissenting:       "@ + decimal(d) + "\n  Agreement score:  "@ + tenths@ + "%\n"@;
            &&& s@.len() >= tail.len()
            &&& s@.skip(s@.len() - tail.len()) == tail
        }),
{
    let mut out = header_string(r.strategy.as_str(), whole);
    out.append(majority_string(r.content.as_str()).as_str());
    out.append(reasoning_string(&r.reasoning).as_str());
    out.append(concurrences_string(r).as_str());
    out.append(dissents_string(r).as_str());
    out.append(summary_string(r.candidates.len(), r.dissents.len(), tenths).as_str());
    proof {
        vote_summary_counts(*r, whole@, tenths@);
    }
    out
}

} // verus!
