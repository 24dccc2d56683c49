use vstd::prelude::*;
use vstd::string::StringExecFns;

use crate::fmt::{decimal, decimal_string, percent0, percent0_string};
use crate::ratio::{Ratio, Threshold};
use crate::text::{bigram_similar, bigram_similarity_reaches};
use crate::types::{contents, Agreement, Candidate, Consensus, ConsensusError};

verus! {

/// The members of each group, as sequences.
pub open spec fn group_views(groups: Seq<Vec<usize>>) -> Seq<Seq<usize>> {
    groups.map_values(|g: Vec<usize>| g@)
}

/// The first group, from position `g` on, whose representative (its first member) is similar
/// enough to `text`.
pub open spec fn first_fit(
    groups: Seq<Seq<usize>>,
    texts: Seq<Seq<char>>,
    text: Seq<char>,
    t: Threshold,
    g: nat,
) -> Option<nat>
    decreases groups.len() - g,
{
    if g >= groups.len() {
        None
    } else if bigram_similar(text, texts[groups[g as int][0] as int], t) {
        Some(g)
    } else {
        first_fit(groups, texts, text, t, g + 1)
    }
}

/// Places candidate `i` in the first group it fits, or in a new group of its own.
pub open spec fn place(groups: Seq<Seq<usize>>, texts: Seq<Seq<char>>, i: nat, t: Threshold) -> Seq<Seq<usize>> {
    match first_fit(groups, texts, texts[i as int], t, 0) {
        Some(g) => groups.update(g as int, groups[g as int].push(i as usize)),
        None => groups.push(seq![i as usize]),
    }
}

/// Greedy grouping of the first `n` texts by bigram similarity to each group's first member.
pub open spec fn grouping(texts: Seq<Seq<char>>, t: Threshold, n: nat) -> Seq<Seq<usize>>
    decreases n,
{
    if n == 0 {
        Seq::empty()
    } else {
        place(grouping(texts, t, (n - 1) as nat), texts, (n - 1) as nat, t)
    }
}

/// Position `i` is a member of some group.
pub open spec fn in_some_group(groups: Seq<Seq<usize>>, i: usize) -> bool {
    exists|g: int| 0 <= g < groups.len() && #[trigger] groups[g].contains(i)
}

/// Every group is non-empty, its members are increasing positions below `n`, and every
/// position below `n` is in exactly one group.
pub open spec fn groups_partition(groups: Seq<Seq<usize>>, n: nat) -> bool {
    &&& forall|g: int| 0 <= g < groups.len() ==> groups[g].len() > 0
    &&& forall|g: int, k: int| 0 <= g < groups.len() && 0 <= k < groups[g].len() ==> groups[g][k] < n
    &&& forall|g: int, k: int, l: int|
        0 <= g < groups.len() && 0 <= k < l < groups[g].len() ==> groups[g][k] < groups[g][l]
    &&& forall|i: usize| i < n ==> #[trigger] in_some_group(groups, i)
    &&& forall|g1: int, g2: int, i: usize|
        0 <= g1 < groups.len() && 0 <= g2 < groups.len() && #[trigger] groups[g1].contains(i)
            && #[trigger] groups[g2].contains(i) ==> g1 == g2
}

proof fn lemma_first_fit_range(groups: Seq<Seq<usize>>, texts: Seq<Seq<char>>, text: Seq<char>, t: Threshold, g: nat)
    ensures
        first_fit(groups, texts, text, t, g) matches Some(j) ==> g <= j < groups.len(),
    decreases groups.len() - g,
{
    if g < groups.len() {
        lemma_first_fit_range(groups, texts, text, t, g + 1);
    }
}

/// The greedy grouping partitions the positions of the texts.
pub proof fn lemma_grouping_partition(texts: Seq<Seq<char>>, t: Threshold, n: nat)
    requires
        n <= texts.len(),
        n <= usize::MAX,
    ensures
        groups_partition(grouping(texts, t, n), n),
    decreases n,
{
    if n > 0 {
        let m = (n - 1) as nat;
        lemma_grouping_partition(texts, t, m);
        let gs = grouping(texts, t, m);
        lemma_first_fit_range(gs, texts, texts[m as int], t, 0);
        let ng = grouping(texts, t, n);
        assert(ng == place(gs, texts, m, t));
        match first_fit(gs, texts, texts[m as int], t, 0) {
            Some(j) => {
                assert forall|i: usize| i < n implies #[trigger] in_some_group(ng, i) by {
                    if i < m {
                        assert(in_some_group(gs, i));
                        let g = choose|g: int| 0 <= g < gs.len() && #[trigger] gs[g].contains(i);
                        if g == j {
                            let k = choose|k: int| 0 <= k < gs[g].len() && gs[g][k] == i;
                            assert(ng[g][k] == i);
                        }
                        assert(ng[g].contains(i));
                    } else {
                        assert(ng[j as int][gs[j as int].len() as int] == m as usize);
                        assert(ng[j as int].contains(i));
                    }
                }
                assert forall|g: int, i: usize| 0 <= g < ng.len() && #[trigger] ng[g].contains(i) implies
                    gs[g].contains(i) || (g == j && i == m as usize) by {
                    let k = choose|k: int| 0 <= k < ng[g].len() && ng[g][k] == i;
                    if g != j {
                        assert(ng[g] == gs[g]);
                    } else if k < gs[g].len() {
                        assert(gs[g][k] == i);
                    }
                }
                assert forall|g1: int, g2: int, i: usize|
                    0 <= g1 < ng.len() && 0 <= g2 < ng.len() && #[trigger] ng[g1].contains(i)
                        && #[trigger] ng[g2].contains(i) implies g1 == g2 by {
                    if gs[g1].contains(i) {
                        let k = choose|k: int| 0 <= k < gs[g1].len() && gs[g1][k] == i;
                        assert(gs[g1][k] < m);
                    }
                    if gs[g2].contains(i) {
                        let k = choose|k: int| 0 <= k < gs[g2].len() && gs[g2][k] == i;
                        assert(gs[g2][k] < m);
                    }
                }
            },
            None => {
                assert forall|i: usize| i < n implies #[trigger] in_some_group(ng, i) by {
                    if i < m {
                        assert(in_some_group(gs, i));
                        let g = choose|g: int| 0 <= g < gs.len() && #[trigger] gs[g].contains(i);
                        assert(ng[g] == gs[g]);
                        assert(ng[g].contains(i));
                    } else {
                        assert(ng[gs.len() as int][0] == m as usize);
                        assert(ng[gs.len() as int].contains(i));
                    }
                }
                assert forall|g1: int, g2: int, i: usize|
                    0 <= g1 < ng.len() && 0 <= g2 < ng.len() && #[trigger] ng[g1].contains(i)
                        && #[trigger] ng[g2].contains(i) implies g1 == g2 by {
                    if g1 < gs.len() && g2 < gs.len() {
                        assert(ng[g1] == gs[g1]);
                        assert(ng[g2] == gs[g2]);
                    } else if g1 < gs.len() {
                        let k = choose|k: int| 0 <= k < ng[g1].len() && ng[g1][k] == i;
                        assert(ng[g1] == gs[g1]);
                        assert(gs[g1][k] < m);
                    } else if g2 < gs.len() {
                        let k = choose|k: int| 0 <= k < ng[g2].len() && ng[g2][k] == i;
                        assert(ng[g2] == gs[g2]);
                        assert(gs[g2][k] < m);
                    }
                }
            },
        }
    }
}

/// Finds the first group whose representative is similar enough to candidate `i`.
fn find_fit(groups: &Vec<Vec<usize>>, candidates: &Vec<Candidate>, i: usize, t: &Threshold) -> (r: Option<usize>)
    requires
        i < candidates@.len(),
        forall|g: int| 0 <= g < groups@.len() ==> groups@[g]@.len() > 0,
        forall|g: int| 0 <= g < groups@.len() ==> groups@[g]@[0] < candidates@.len(),
    ensures
        r matches Some(g) ==> first_fit(group_views(groups@), contents(candidates@), candidates@[i as int].content@, *t, 0) == Some(g as nat),
        r is None ==> first_fit(group_views(groups@), contents(candidates@), candidates@[i as int].content@, *t, 0) is None,
{
    let ghost gv = group_views(groups@);
    let ghost texts = contents(candidates@);
    let mut g: usize = 0;
    while g < groups.len()
        invariant
            g <= groups@.len(),
            gv == group_views(groups@),
            texts == contents(candidates@),
            i < candidates@.len(),
            forall|h: int| 0 <= h < groups@.len() ==> groups@[h]@.len() > 0,
            forall|h: int| 0 <= h < groups@.len() ==> groups@[h]@[0] < candidates@.len(),
            first_fit(gv, texts, texts[i as int], *t, 0) == first_fit(gv, texts, texts[i as int], *t, g as nat),
        decreases groups@.len() - g,
    {
        let rep = groups[g][0];
        proof {
            assert(gv[g as int] == groups@[g as int]@);
            assert(texts[rep as int] == candidates@[rep as int].content@);
        }
        if bigram_similarity_reaches(candidates[i].content.as_str(), candidates[rep].content.as_str(), t) {
            return Some(g);
        }
        g = g + 1;
    }
    None
}

/// Groups candidates greedily: each candidate joins the first group whose first member is
/// similar enough to it by bigram overlap, or starts a new group.
pub fn group_by_similarity(candidates: &Vec<Candidate>, t: &Threshold) -> (groups: Vec<Vec<usize>>)
    ensures
        group_views(groups@) == grouping(contents(candidates@), *t, candidates@.len()),
        groups_partition(group_views(groups@), candidates@.len()),
{
    let ghost texts = contents(candidates@);
    let n = candidates.len();
    let mut groups: Vec<Vec<usize>> = Vec::new();
    let mut i: usize = 0;
    while i < n
        invariant
            i <= n,
            n == candidates@.len(),
            texts == contents(candidates@),
            group_views(groups@) == grouping(texts, *t, i as nat),
        decreases n - i,
    {
        proof {
            lemma_grouping_partition(texts, *t, i as nat);
            assert forall|g: int| 0 <= g < groups@.len() implies groups@[g]@.len() > 0 by {
                assert(group_views(groups@)[g] == groups@[g]@);
            }
            assert forall|g: int| 0 <= g < groups@.len() implies groups@[g]@[0] < candidates@.len() by {
                assert(group_views(groups@)[g] == groups@[g]@);
            }
        }
        let fit = find_fit(&groups, candidates, i, t);
        let ghost before = group_views(groups@);
        proof {
            assert(texts[i as int] == candidates@[i as int].content@);
            assert(grouping(texts, *t, (i + 1) as nat) == place(before, texts, i as nat, *t));
        }
        match fit {
            Some(g) => {
                proof {
                    lemma_first_fit_range(before, texts, texts[i as int], *t, 0);
                }
                let mut grp = groups.remove(g);
                grp.push(i);
                groups.insert(g, grp);
                proof {
                    assert(group_views(groups@) =~= before.update(g as int, before[g as int].push(i)));
                }
            },
            None => {
                let mut grp: Vec<usize> = Vec::new();
                grp.push(i);
                groups.push(grp);
                proof {
                    assert(grp@ =~= seq![i]);
                    assert(group_views(groups@) =~= before.push(seq![i]));
                }
            },
        }
        i = i + 1;
    }
    proof {
        lemma_grouping_partition(texts, *t, n as nat);
    }
    groups
}

/// Group `w` is the first of the largest groups (the stable sort by descending size puts it first).
pub open spec fn is_first_largest(groups: Seq<Seq<usize>>, w: int) -> bool {
    &&& 0 <= w < groups.len()
    &&& forall|j: int| 0 <= j < groups.len() ==> groups[j].len() <= groups[w].len()
    &&& forall|j: int| 0 <= j < w ==> groups[j].len() < groups[w].len()
}

/// The position of the first largest group.
pub open spec fn first_largest(groups: Seq<Seq<usize>>) -> int {
    choose|w: int| is_first_largest(groups, w)
}

/// There is exactly one first largest group among non-empty many groups.
pub proof fn lemma_first_largest(groups: Seq<Seq<usize>>, w: int)
    requires
        is_first_largest(groups, w),
    ensures
        first_largest(groups) == w,
{
    let v = first_largest(groups);
    assert(is_first_largest(groups, v));
    if v < w {
        assert(groups[v].len() < groups[w].len());
    } else if w < v {
        assert(groups[w].len() < groups[v].len());
    }
}

/// Positions below `n` that are not in `group`, in increasing order.
pub open spec fn outside(group: Seq<usize>, n: nat) -> Seq<usize> {
    Seq::new(n, |i: int| i as usize).filter(|i: usize| !group.contains(i))
}

/// Whether `v` holds `x`.
pub fn vec_has(v: &Vec<usize>, x: usize) -> (r: bool)
    ensures
        r == v@.contains(x),
{
    let mut i: usize = 0;
    while i < v.len()
        invariant
            i <= v@.len(),
            forall|k: int| 0 <= k < i ==> v@[k] != x,
        decreases v@.len() - i,
    {
        if v[i] == x {
            return true;
        }
        i = i + 1;
    }
    false
}

/// The positions below `n` that are not in `group`, in increasing order.
pub fn positions_outside(group: &Vec<usize>, n: usize) -> (r: Vec<usize>)
    ensures
        r@ == outside(group@, n as nat),
{
    let ghost pred = |i: usize| !group@.contains(i);
    let mut r: Vec<usize> = Vec::new();
    let mut i: usize = 0;
    while i < n
        invariant
            i <= n,
            pred == (|i: usize| !group@.contains(i)),
            r@ == Seq::new(i as nat, |k: int| k as usize).filter(pred),
        decreases n - i,
    {
        proof {
            let s = Seq::new(i as nat, |k: int| k as usize);
            assert(Seq::new((i + 1) as nat, |k: int| k as usize) =~= s.push(i));
            s.lemma_filter_push(i, pred);
        }
        if !vec_has(group, i) {
            r.push(i);
        }
        i = i + 1;
    }
    r
}

/// Position of the first largest group.
pub fn first_largest_group(groups: &Vec<Vec<usize>>) -> (w: usize)
    requires
        groups@.len() > 0,
    ensures
        is_first_largest(group_views(groups@), w as int),
        first_largest(group_views(groups@)) == w,
{
    let ghost gv = group_views(groups@);
    let mut w: usize = 0;
    let mut j: usize = 1;
    while j < groups.len()
        invariant
            1 <= j <= groups@.len(),
            w < j,
            gv == group_views(groups@),
            forall|k: int| 0 <= k < j ==> gv[k].len() <= gv[w as int].len(),
            forall|k: int| 0 <= k < w ==> gv[k].len() < gv[w as int].len(),
        decreases groups@.len() - j,
    {
        proof {
            assert(gv[j as int] == groups@[j as int]@);
            assert(gv[w as int] == groups@[w as int]@);
        }
        if groups[j].len() > groups[w].len() {
            w = j;
        }
        j = j + 1;
    }
    proof {
        lemma_first_largest(gv, w as int);
    }
    w
}

/// The reasoning text of a majority vote: how many of how many candidates agreed, and the
/// threshold as a whole percentage.
pub open spec fn majority_reasoning(agreeing: nat, total: nat, t: Threshold) -> Seq<char> {
    decimal(agreeing) + " of "@ + decimal(total) + " candidates agreed (threshold: "@
        + percent0(t.num as nat, t.den as nat) + "%)"@
}

/// The consensus a majority vote reaches over non-empty candidates: one candidate is the
/// consensus by itself; otherwise the first member of the first largest group is the
/// consensus, the agreement is the group's share of the candidates, and every candidate
/// outside the group dissents.
pub open spec fn majority_consensus(cs: Seq<Candidate>, t: Threshold, c: Consensus) -> bool {
    &&& c.strategy@ == "majority_vote"@
    &&& cs.len() == 1 ==> {
        &&& c.content@ == cs[0].content@
        &&& c.agreement.is_full()
        &&& c.dissents@.len() == 0
        &&& c.reasoning matches Some(s) && s@ == "Only one candidate provided"@
    }
    &&& cs.len() >= 2 ==> {
        let n = cs.len();
        let gs = grouping(contents(cs), t, n);
        let w = first_largest(gs);
        &&& c.content@ == contents(cs)[gs[w][0] as int]
        &&& c.agreement == Agreement::Exact(Ratio { num: gs[w].len() as u128, den: n as u128 })
        &&& c.dissents@ == outside(gs[w], n)
        &&& c.reasoning matches Some(s) && s@ == majority_reasoning(gs[w].len(), n, t)
    }
}

/// Count-based majority voting with fuzzy string matching: candidates are grouped by
/// bigram similarity and the largest group wins. No LLM is needed.
pub struct MajorityVote {
    /// Candidates whose similarity reaches this threshold are grouped together.
    pub similarity_threshold: Threshold,
}

impl MajorityVote {
    /// A majority vote with the default threshold of nine tenths, which keeps answers that
    /// differ only in their final number (such as "The answer is 42" and "The answer is 7",
    /// similar at 26/29) apart.
    pub fn new() -> (v: MajorityVote)
        ensures
            v.similarity_threshold == (Threshold { num: 9, den: 10 }),
    {
        MajorityVote { similarity_threshold: Threshold { num: 9, den: 10 } }
    }

    pub fn with_threshold(self, threshold: Threshold) -> (v: MajorityVote)
        ensures
            v.similarity_threshold == threshold,
    {
        MajorityVote { similarity_threshold: threshold }
    }

    pub open spec fn spec_name() -> Seq<char> {
        "majority_vote"@
    }

    pub fn name(&self) -> (s: String)
        ensures
            s@ == Self::spec_name(),
    {
        String::from_str("majority_vote")
    }

    /// Resolves consensus by majority: no candidates is an error; one candidate is the
    /// consensus by itself; otherwise the first member of the first largest group is the
    /// consensus, the agreement is the group's share of the candidates, and every candidate
    /// outside the group dissents.
    pub fn resolve(&self, candidates: &Vec<Candidate>) -> (r: Result<Consensus, ConsensusError>)
        requires
            self.similarity_threshold.wf(),
        ensures
            candidates@.len() == 0 <==> r is Err,
            r matches Err(e) ==> e is NoCandidates,
            r matches Ok(c) ==> majority_consensus(candidates@, self.similarity_threshold, c),
    {
        let n = candidates.len();
        if n == 0 {
            return Err(ConsensusError::NoCandidates);
        }
        if n == 1 {
            return Ok(Consensus {
                content: candidates[0].content.clone(),
                strategy: self.name(),
                agreement: Agreement::Exact(Ratio::one()),
                dissents: Vec::new(),
                reasoning: Some(String::from_str("Only one candidate provided")),
            });
        }
        let groups = group_by_similarity(candidates, &self.similarity_threshold);
        let ghost gv = group_views(groups@);
        proof {
            assert(in_some_group(gv, 0usize));
        }
        let w = first_largest_group(&groups);
        proof {
            assert(gv[w as int] == groups@[w as int]@);
        }
        let winning = &groups[w];
        let rep = winning[0];
        let dissents = positions_outside(winning, n);
        let mut reasoning = decimal_string(winning.len() as u64);
        reasoning.append(" of ");
        reasoning.append(decimal_string(n as u64).as_str());
        reasoning.append(" candidates agreed (threshold: ");
        reasoning.append(percent0_string(self.similarity_threshold.num as u128, self.similarity_threshold.den as u128).as_str());
        reasoning.append("%)");
        Ok(Consensus {
            content: candidates[rep].content.clone(),
            strategy: self.name(),
            agreement: Agreement::Exact(Ratio::new(winning.len() as u128, n as u128)),
            dissents,
            reasoning: Some(reasoning),
        })
    }
}

/// The weight a candidate votes with in a weighted vote: its confidence when it has one, else
/// the weight of its model when that model has one, else the default weight.
pub fn weight_for<W: Copy>(confidence: Option<W>, model_weight: Option<W>, default: W) -> (w: W)
    ensures
        w == match confidence {
            Some(c) => c,
            None => match model_weight {
                Some(m) => m,
                None => default,
            },
        },
{
    match confidence {
        Some(c) => c,
        None => match model_weight {
            Some(m) => m,
            None => default,
        },
    }
}

/// The total weight of the candidates at the positions of `group`.
pub open spec fn group_weight(ws: Seq<u64>, group: Seq<usize>) -> nat
    decreases group.len(),
{
    if group.len() == 0 {
        0
    } else {
        group_weight(ws, group.drop_last()) + ws[group.last() as int] as nat
    }
}

/// The total weight of all candidates.
pub open spec fn total_weight(ws: Seq<u64>) -> nat
    decreases ws.len(),
{
    if ws.len() == 0 {
        0
    } else {
        total_weight(ws.drop_last()) + ws.last() as nat
    }
}

/// Group `g` is the first of the heaviest groups (the stable sort by descending weight puts it
/// first).
pub open spec fn is_first_heaviest(groups: Seq<Seq<usize>>, ws: Seq<u64>, g: int) -> bool {
    &&& 0 <= g < groups.len()
    &&& forall|j: int| 0 <= j < groups.len() ==> group_weight(ws, groups[j]) <= group_weight(ws, groups[g])
    &&& forall|j: int| 0 <= j < g ==> group_weight(ws, groups[j]) < group_weight(ws, groups[g])
}

/// Position `k` of `group` holds the last of its heaviest candidates (the one that `max_by`
/// picks).
pub open spec fn is_last_heaviest_member(group: Seq<usize>, ws: Seq<u64>, k: int) -> bool {
    &&& 0 <= k < group.len()
    &&& forall|j: int| 0 <= j < group.len() ==> ws[group[j] as int] <= ws[group[k] as int]
    &&& forall|j: int| k < j < group.len() ==> ws[group[j] as int] < ws[group[k] as int]
}

/// Every position in every group is below `n`.
pub open spec fn positions_below(groups: Seq<Seq<usize>>, n: nat) -> bool {
    forall|i: int, k: int| 0 <= i < groups.len() && 0 <= k < groups[i].len() ==> (#[trigger] groups[i][k]) < n
}

proof fn lemma_group_weight_bound(ws: Seq<u64>, group: Seq<usize>)
    requires
        forall|k: int| 0 <= k < group.len() ==> (#[trigger] group[k]) < ws.len(),
    ensures
        group_weight(ws, group) <= group.len() * (u64::MAX as nat),
    decreases group.len(),
{
    if group.len() > 0 {
        lemma_group_weight_bound(ws, group.drop_last());
        assert(group[group.len() - 1] < ws.len());
    }
}

proof fn lemma_total_weight_bound(ws: Seq<u64>)
    ensures
        total_weight(ws) <= ws.len() * (u64::MAX as nat),
    decreases ws.len(),
{
    if ws.len() > 0 {
        lemma_total_weight_bound(ws.drop_last());
    }
}

/// The total weight of a group.
pub fn group_weight_of(group: &Vec<usize>, ws: &Vec<u64>) -> (r: u128)
    requires
        forall|k: int| 0 <= k < group@.len() ==> (#[trigger] group@[k]) < ws@.len(),
    ensures
        r == group_weight(ws@, group@),
{
    let mut r: u128 = 0;
    let mut i: usize = 0;
    while i < group.len()
        invariant
            i <= group@.len(),
            forall|k: int| 0 <= k < group@.len() ==> (#[trigger] group@[k]) < ws@.len(),
            r == group_weight(ws@, group@.take(i as int)),
        decreases group@.len() - i,
    {
        proof {
            assert(group@.take(i as int + 1).drop_last() =~= group@.take(i as int));
            lemma_group_weight_bound(ws@, group@.take(i as int));
            assert(group@.take(i as int).len() == i);
            assert(i * (u64::MAX as nat) <= 0xffff_ffff_ffff_ffffu128 * 0xffff_ffff_ffff_ffffu128) by (nonlinear_arith)
                requires i <= 0xffff_ffff_ffff_ffffu64;
        }
        r = r + ws[group[i]] as u128;
        i = i + 1;
    }
    proof {
        assert(group@.take(group@.len() as int) =~= group@);
    }
    r
}

/// The total weight of all candidates.
pub fn total_weight_of(ws: &Vec<u64>) -> (r: u128)
    ensures
        r == total_weight(ws@),
{
    let mut r: u128 = 0;
    let mut i: usize = 0;
    while i < ws.len()
        invariant
            i <= ws@.len(),
            r == total_weight(ws@.take(i as int)),
        decreases ws@.len() - i,
    {
        proof {
            assert(ws@.take(i as int + 1).drop_last() =~= ws@.take(i as int));
            lemma_total_weight_bound(ws@.take(i as int));
            assert(i * (u64::MAX as nat) <= 0xffff_ffff_ffff_ffffu128 * 0xffff_ffff_ffff_ffffu128) by (nonlinear_arith)
                requires i <= 0xffff_ffff_ffff_ffffu64;
        }
        r = r + ws[i] as u128;
        i = i + 1;
    }
    proof {
        assert(ws@.take(ws@.len() as int) =~= ws@);
    }
    r
}

/// What a weighted vote picks: the heaviest group, its heaviest candidate, the group's weight
/// and the weight of all candidates.
pub struct WeightedPick {
    pub group: usize,
    pub best: usize,
    pub group_weight: u128,
    pub total_weight: u128,
}

/// The decision of a weighted vote over grouped candidates with the weights `ws` (in a common
/// unit): the first of the heaviest groups wins, and within it the last of its heaviest
/// candidates speaks for it.
pub fn weighted_pick(groups: &Vec<Vec<usize>>, ws: &Vec<u64>) -> (r: WeightedPick)
    requires
        groups@.len() > 0,
        forall|i: int| 0 <= i < groups@.len() ==> (#[trigger] groups@[i])@.len() > 0,
        positions_below(group_views(groups@), ws@.len()),
    ensures
        is_first_heaviest(group_views(groups@), ws@, r.group as int),
        exists|k: int| is_last_heaviest_member(groups@[r.group as int]@, ws@, k) && r.best == groups@[r.group as int]@[k],
        r.group_weight == group_weight(ws@, groups@[r.group as int]@),
        r.total_weight == total_weight(ws@),
{
    let ghost gv = group_views(groups@);
    proof {
        assert(gv[0] == groups@[0]@);
    }
    let mut g: usize = 0;
    let mut best_weight = group_weight_of(&groups[0], ws);
    let mut j: usize = 1;
    while j < groups.len()
        invariant
            1 <= j <= groups@.len(),
            g < j,
            gv == group_views(groups@),
            positions_below(gv, ws@.len()),
            best_weight == group_weight(ws@, gv[g as int]),
            forall|k: int| 0 <= k < j ==> group_weight(ws@, gv[k]) <= group_weight(ws@, gv[g as int]),
            forall|k: int| 0 <= k < g ==> group_weight(ws@, gv[k]) < group_weight(ws@, gv[g as int]),
        decreases groups@.len() - j,
    {
        proof {
            assert(gv[j as int] == groups@[j as int]@);
            assert forall|k: int| 0 <= k < groups@[j as int]@.len() implies (#[trigger] groups@[j as int]@[k]) < ws@.len() by {
                assert(gv[j as int][k] < ws@.len());
            }
        }
        let w = group_weight_of(&groups[j], ws);
        if w > best_weight {
            g = j;
            best_weight = w;
        }
        j = j + 1;
    }
    let group = &groups[g];
    proof {
        assert(gv[g as int] == groups@[g as int]@);
        assert(gv[g as int].len() > 0);
        assert(group@[0] < ws@.len()) by {
            assert(gv[g as int][0] < ws@.len());
        }
    }
    let mut k: usize = 0;
    let mut i: usize = 1;
    while i < group.len()
        invariant
            1 <= i <= group@.len(),
            k < i,
            group@ == gv[g as int],
            positions_below(gv, ws@.len()),
            0 <= g < gv.len(),
            forall|m: int| 0 <= m < i ==> ws@[group@[m] as int] <= ws@[group@[k as int] as int],
            forall|m: int| k < m < i ==> ws@[group@[m] as int] < ws@[group@[k as int] as int],
        decreases group@.len() - i,
    {
        proof {
            assert(gv[g as int][i as int] < ws@.len());
            assert(gv[g as int][k as int] < ws@.len());
        }
        if ws[group[i]] >= ws[group[k]] {
            k = i;
        }
        i = i + 1;
    }
    let total = total_weight_of(ws);
    proof {
        assert(is_last_heaviest_member(groups@[g as int]@, ws@, k as int));
    }
    WeightedPick { group: g, best: group[k], group_weight: best_weight, total_weight: total }
}

/// Identical texts are similar under any threshold of at most one.
pub proof fn lemma_same_text_similar(x: Seq<char>, t: Threshold)
    requires
        t.num <= t.den,
    ensures
        bigram_similar(x, x, t),
{
}

/// Texts that all equal the first are grouped together, in order.
proof fn lemma_grouping_unanimous(texts: Seq<Seq<char>>, t: Threshold, k: nat)
    requires
        t.num <= t.den,
        1 <= k <= texts.len(),
        k <= usize::MAX,
        forall|i: int| 0 <= i < texts.len() ==> #[trigger] texts[i] == texts[0],
    ensures
        grouping(texts, t, k) == seq![Seq::new(k, |i: int| i as usize)],
    decreases k,
{
    if k == 1 {
        assert(grouping(texts, t, 0) == Seq::<Seq<usize>>::empty());
        assert(seq![0usize] =~= Seq::new(1, |i: int| i as usize));
    } else {
        let m = (k - 1) as nat;
        lemma_grouping_unanimous(texts, t, m);
        let gs = grouping(texts, t, m);
        lemma_same_text_similar(texts[0], t);
        assert(gs[0][0] == 0usize);
        assert(first_fit(gs, texts, texts[m as int], t, 0) == Some(0nat));
        assert(gs[0].push(m as usize) =~= Seq::new(k, |i: int| i as usize));
        assert(gs.update(0, gs[0].push(m as usize)) =~= seq![Seq::new(k, |i: int| i as usize)]);
    }
}

/// When every candidate says the same thing, a majority vote under a threshold of at most one
/// is unanimous: the shared text is the consensus, the agreement is full, and nobody dissents.
pub proof fn majority_unanimous(cs: Seq<Candidate>, t: Threshold, c: Consensus)
    requires
        t.num <= t.den,
        1 <= cs.len() <= usize::MAX,
        forall|i: int| 0 <= i < cs.len() ==> #[trigger] cs[i].content@ == cs[0].content@,
        majority_consensus(cs, t, c),
    ensures
        c.content@ == cs[0].content@,
        c.agreement matches Agreement::Exact(r) && r.num == r.den,
        c.dissents@.len() == 0,
{
    if cs.len() >= 2 {
        let n = cs.len();
        let texts = contents(cs);
        assert forall|i: int| 0 <= i < texts.len() implies #[trigger] texts[i] == texts[0] by {
            assert(texts[i] == cs[i].content@);
        }
        lemma_grouping_unanimous(texts, t, n);
        let gs = grouping(texts, t, n);
        let all = Seq::new(n, |i: int| i as usize);
        assert(gs =~= seq![all]);
        lemma_first_largest(gs, 0);
        assert(gs[0][0] == 0usize);
        let out = outside(all, n);
        if out.len() > 0 {
            let p = |i: usize| !all.contains(i);
            assert(out == all.filter(p));
            all.lemma_filter_pred(p, 0);
            assert(out.contains(out[0]));
            all.lemma_filter_contains_rev(p, out[0]);
        }
    }
}

/// Filtering with two predicates that agree on every element gives the same sequence.
proof fn lemma_filter_agree(s: Seq<usize>, p: spec_fn(usize) -> bool, q: spec_fn(usize) -> bool)
    requires
        forall|i: int| 0 <= i < s.len() ==> p(#[trigger] s[i]) == q(s[i]),
    ensures
        s.filter(p) == s.filter(q),
    decreases s.len(),
{
    if s.len() > 0 {
        let init = s.drop_last();
        assert forall|i: int| 0 <= i < init.len() implies p(#[trigger] init[i]) == q(init[i]) by {
            assert(init[i] == s[i]);
        }
        lemma_filter_agree(init, p, q);
        assert(s == init.push(s.last()));
        init.lemma_filter_push(s.last(), p);
        init.lemma_filter_push(s.last(), q);
    } else {
        assert(s.filter(p) =~= Seq::<usize>::empty());
        assert(s.filter(q) =~= Seq::<usize>::empty());
    }
}

/// The positions below `n` outside an increasing group of positions below `n` number `n`
/// minus the group's size.
proof fn lemma_outside_len(g: Seq<usize>, n: nat)
    requires
        n <= usize::MAX,
        forall|k: int| 0 <= k < g.len() ==> #[trigger] g[k] < n,
        forall|k: int, l: int| 0 <= k < l < g.len() ==> g[k] < g[l],
    ensures
        outside(g, n).len() + g.len() == n,
    decreases n,
{
    if n == 0 {
        if g.len() > 0 {
            assert(g[0] < 0);
        }
        assert(Seq::new(0, |i: int| i as usize) =~= Seq::<usize>::empty());
        assert(outside(g, 0) =~= Seq::<usize>::empty());
    } else {
        let m = (n - 1) as nat;
        let ids = Seq::new(m, |i: int| i as usize);
        assert(Seq::new(n, |i: int| i as usize) =~= ids.push(m as usize));
        let pg = |i: usize| !g.contains(i);
        ids.lemma_filter_push(m as usize, pg);
        if g.len() > 0 && g.last() == m as usize {
            let h = g.drop_last();
            let ph = |i: usize| !h.contains(i);
            assert forall|k: int| 0 <= k < h.len() implies #[trigger] h[k] < m by {
                assert(h[k] == g[k]);
                assert(g[k] < g[g.len() - 1]);
            }
            assert forall|i: int| 0 <= i < ids.len() implies pg(#[trigger] ids[i]) == ph(ids[i]) by {
                let x = ids[i];
                if g.contains(x) {
                    let k = choose|k: int| 0 <= k < g.len() && g[k] == x;
                    assert(k != g.len() - 1);
                    assert(h[k] == x);
                }
                if h.contains(x) {
                    let k = choose|k: int| 0 <= k < h.len() && h[k] == x;
                    assert(g[k] == x);
                }
            }
            lemma_filter_agree(ids, pg, ph);
            assert(g.contains(m as usize)) by {
                assert(g[g.len() - 1] == m as usize);
            }
            lemma_outside_len(h, m);
        } else {
            assert forall|k: int| 0 <= k < g.len() implies #[trigger] g[k] < m by {
                if g[k] == m as usize {
                    if k < g.len() - 1 {
                        assert(g[k] < g[g.len() - 1]);
                    }
                }
            }
            assert(!g.contains(m as usize)) by {
                if g.contains(m as usize) {
                    let k = choose|k: int| 0 <= k < g.len() && g[k] == m as usize;
                    assert(g[k] < m);
                }
            }
            lemma_outside_len(g, m);
        }
    }
}

/// Among non-empty groups there is a first largest one.
proof fn lemma_first_largest_exists(groups: Seq<Seq<usize>>)
    requires
        groups.len() > 0,
    ensures
        is_first_largest(groups, first_largest(groups)),
{
    let w = first_largest_witness(groups);
    assert(is_first_largest(groups, w));
}

proof fn first_largest_witness(groups: Seq<Seq<usize>>) -> (w: int)
    requires
        groups.len() > 0,
    ensures
        is_first_largest(groups, w),
    decreases groups.len(),
{
    if groups.len() == 1 {
        0
    } else {
        let init = groups.drop_last();
        let v = first_largest_witness(init);
        let last = groups.len() - 1;
        assert forall|j: int| 0 <= j < init.len() implies #[trigger] groups[j] == init[j] by {}
        if groups[last].len() > groups[v].len() {
            assert(forall|j: int| 0 <= j < init.len() ==> #[trigger] init[j].len() <= init[v].len());
            last
        } else {
            v
        }
    }
}

/// A majority vote over several candidates accounts for every candidate: the members of the
/// winning group agree and all others dissent, so the agreeing count over the total is the
/// agreement, and agreeing plus dissenting is the total.
pub proof fn majority_accounts_for_all(cs: Seq<Candidate>, t: Threshold, c: Consensus)
    requires
        2 <= cs.len() <= usize::MAX,
        majority_consensus(cs, t, c),
    ensures
        c.agreement matches Agreement::Exact(r) && {
            &&& r.den == cs.len()
            &&& 1 <= r.num <= r.den
            &&& r.num + c.dissents@.len() == cs.len()
        },
{
    let n = cs.len();
    let texts = contents(cs);
    lemma_grouping_partition(texts, t, n);
    let gs = grouping(texts, t, n);
    assert(in_some_group(gs, 0usize));
    lemma_first_largest_exists(gs);
    let w = first_largest(gs);
    let g = gs[w];
    assert forall|k: int| 0 <= k < g.len() implies #[trigger] g[k] < n by {}
    lemma_outside_len(g, n);
    assert(g.len() > 0);
}

} // verus!
