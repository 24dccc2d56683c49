use vstd::prelude::*;
use vstd::string::StringExecFns;

use crate::names::{clone_strings, trim, trimmed, NameCandidate};
use crate::score::{score, score_basis, DomainDetail, DomainSummary, NameResult, PackageDetail, PackageSummary, StoreDetail, StoreSummary};
use crate::fmt::{decimal, decimal_string, round_half_even, round_half_even_exec};
use crate::text::{chars_of, join, join_strings, string_of, views};
use crate::types::str_eq;

verus! {

/// What to check: domains under which TLDs, which package registries and which app stores,
/// and how many names to generate.
pub struct Config {
    pub tlds: Vec<String>,
    pub languages: Vec<String>,
    pub all_registries: bool,
    pub registry_ids: Vec<String>,
    pub store_ids: Vec<String>,
    pub max_names: usize,
}

/// The options of the command line that shape the configuration.
pub struct CheckOptions {
    pub all: bool,
    pub tlds: Option<String>,
    pub all_tlds: bool,
    pub registries: Option<String>,
    pub all_registries: bool,
    pub languages: Option<String>,
    pub stores: Option<String>,
    pub max_names: usize,
}

/// The pieces of `s` between the characters that satisfy `sep` (empty pieces included), as
/// `str::split` gives them.
pub open spec fn split_by(s: Seq<char>, sep: spec_fn(char) -> bool) -> Seq<Seq<char>>
    decreases s.len(),
{
    if s.len() == 0 {
        seq![Seq::empty()]
    } else {
        let p = split_by(s.drop_last(), sep);
        if sep(s.last()) {
            p.push(Seq::empty())
        } else {
            p.update(p.len() - 1, p.last().push(s.last()))
        }
    }
}

/// Splitting gives at least one piece.
pub proof fn lemma_split_by_nonempty(s: Seq<char>, sep: spec_fn(char) -> bool)
    ensures
        split_by(s, sep).len() >= 1,
    decreases s.len(),
{
    if s.len() > 0 {
        lemma_split_by_nonempty(s.drop_last(), sep);
    }
}

/// Separator test for a single character.
pub open spec fn is_sep(c: char) -> spec_fn(char) -> bool {
    |x: char| x == c
}

/// Separator test for names on the command line: spaces and commas.
pub open spec fn name_sep() -> spec_fn(char) -> bool {
    |x: char| x == ' ' || x == ','
}

/// Whether `c` occurs in `seps`.
fn char_in(seps: &Vec<char>, c: char) -> (r: bool)
    ensures
        r == seps@.contains(c),
{
    let mut k: usize = 0;
    while k < seps.len()
        invariant
            k <= seps@.len(),
            forall|m: int| 0 <= m < k ==> seps@[m] != c,
        decreases seps@.len() - k,
    {
        if seps[k] == c {
            return true;
        }
        k = k + 1;
    }
    false
}

/// Splits the characters `cs` at the positions that `flags` marks as separators.
pub fn split_where(cs: &Vec<char>, flags: &Vec<bool>, Ghost(sep): Ghost<spec_fn(char) -> bool>) -> (r: Vec<String>)
    requires
        flags@.len() == cs@.len(),
        forall|i: int| 0 <= i < cs@.len() ==> flags@[i] == sep(#[trigger] cs@[i]),
    ensures
        views(r@) == split_by(cs@, sep),
{
    let mut pieces: Vec<String> = Vec::new();
    let mut cur: Vec<char> = Vec::new();
    let mut i: usize = 0;
    proof {
        assert(cs@.take(0) =~= Seq::<char>::empty());
    }
    while i < cs.len()
        invariant
            i <= cs@.len(),
            flags@.len() == cs@.len(),
            forall|i: int| 0 <= i < cs@.len() ==> flags@[i] == sep(#[trigger] cs@[i]),
            views(pieces@).push(cur@) == split_by(cs@.take(i as int), sep),
        decreases cs@.len() - i,
    {
        let c = cs[i];
        proof {
            assert(cs@.take(i + 1).drop_last() =~= cs@.take(i as int));
            assert(cs@.take(i + 1).last() == c);
        }
        let ghost before_pieces = views(pieces@);
        let ghost before_cur = cur@;
        if flags[i] {
            pieces.push(string_of(cur.as_slice()));
            cur = Vec::new();
            proof {
                assert(views(pieces@) =~= before_pieces.push(before_cur));
                assert(views(pieces@).push(cur@) =~= before_pieces.push(before_cur).push(Seq::<char>::empty()));
            }
        } else {
            cur.push(c);
            proof {
                let p = before_pieces.push(before_cur);
                assert(views(pieces@).push(cur@) =~= p.update(p.len() - 1, p.last().push(c)));
            }
        }
        i = i + 1;
    }
    proof {
        assert(cs@.take(cs@.len() as int) =~= cs@);
    }
    let ghost before = views(pieces@);
    pieces.push(string_of(cur.as_slice()));
    proof {
        assert(views(pieces@) =~= before.push(cur@));
    }
    pieces
}

/// Splits `s` at the characters that `seps` holds.
pub fn split_at_chars(s: &str, seps: &Vec<char>, Ghost(sep): Ghost<spec_fn(char) -> bool>) -> (r: Vec<String>)
    requires
        forall|c: char| sep(c) == seps@.contains(c),
    ensures
        views(r@) == split_by(s@, sep),
{
    let cs = chars_of(s);
    let mut flags: Vec<bool> = Vec::new();
    let mut i: usize = 0;
    while i < cs.len()
        invariant
            i <= cs@.len(),
            flags@.len() == i,
            forall|c: char| sep(c) == seps@.contains(c),
            forall|j: int| 0 <= j < i ==> flags@[j] == sep(#[trigger] cs@[j]),
        decreases cs@.len() - i,
    {
        flags.push(char_in(seps, cs[i]));
        i = i + 1;
    }
    split_where(&cs, &flags, Ghost(sep))
}

/// The trimmed pieces of a comma-separated list.
pub open spec fn comma_list(s: Seq<char>) -> Seq<Seq<char>> {
    split_by(s, is_sep(',')).map_values(|p: Seq<char>| trimmed(p))
}

/// Splits a comma-separated option into its trimmed pieces.
pub fn split_comma_list(s: &str) -> (r: Vec<String>)
    ensures
        views(r@) == comma_list(s@),
{
    let mut seps: Vec<char> = Vec::new();
    seps.push(',');
    proof {
        assert forall|c: char| is_sep(',')(c) == seps@.contains(c) by {
            if c == ',' {
                assert(seps@[0] == c);
            }
        }
    }
    let pieces = split_at_chars(s, &seps, Ghost(is_sep(',')));
    trim_all(&pieces)
}

fn trim_all(pieces: &Vec<String>) -> (r: Vec<String>)
    ensures
        views(r@) == views(pieces@).map_values(|p: Seq<char>| trimmed(p)),
{
    let mut r: Vec<String> = Vec::new();
    let mut i: usize = 0;
    while i < pieces.len()
        invariant
            i <= pieces@.len(),
            views(r@) == views(pieces@).take(i as int).map_values(|p: Seq<char>| trimmed(p)),
        decreases pieces@.len() - i,
    {
        let t = trim(pieces[i].as_str());
        let ghost before = r@;
        r.push(t);
        proof {
            assert(views(r@) =~= views(before).push(t@));
            assert(views(pieces@).take(i + 1) =~= views(pieces@).take(i as int).push(pieces@[i as int]@));
            assert(views(r@) =~= views(pieces@).take(i + 1).map_values(|p: Seq<char>| trimmed(p)));
        }
        i = i + 1;
    }
    proof {
        assert(views(pieces@).take(pieces@.len() as int) =~= views(pieces@));
    }
    r
}

/// The names given on the command line: split at spaces and commas, trimmed, empty pieces
/// dropped.
pub open spec fn listed_names(input: Seq<char>) -> Seq<Seq<char>> {
    split_by(input, name_sep()).map_values(|p: Seq<char>| trimmed(p)).filter(|p: Seq<char>| p.len() > 0)
}

pub fn split_names(input: &str) -> (r: Vec<String>)
    ensures
        views(r@) == listed_names(input@),
{
    let mut seps: Vec<char> = Vec::new();
    seps.push(' ');
    seps.push(',');
    proof {
        assert forall|c: char| name_sep()(c) == seps@.contains(c) by {
            if c == ' ' {
                assert(seps@[0] == c);
            }
            if c == ',' {
                assert(seps@[1] == c);
            }
        }
    }
    let pieces = trim_all(&split_at_chars(input, &seps, Ghost(name_sep())));
    let ghost all = views(pieces@);
    let ghost keep = |p: Seq<char>| p.len() > 0;
    let mut r: Vec<String> = Vec::new();
    let mut i: usize = 0;
    while i < pieces.len()
        invariant
            i <= pieces@.len(),
            all == views(pieces@),
            keep == (|p: Seq<char>| p.len() > 0),
            views(r@) == all.take(i as int).filter(keep),
        decreases pieces@.len() - i,
    {
        proof {
            assert(all.take(i + 1) =~= all.take(i as int).push(pieces@[i as int]@));
            all.take(i as int).lemma_filter_push(pieces@[i as int]@, keep);
        }
        if chars_of(pieces[i].as_str()).len() > 0 {
            let ghost before = r@;
            r.push(pieces[i].clone());
            proof {
                assert(views(r@) =~= views(before).push(pieces@[i as int]@));
            }
        }
        i = i + 1;
    }
    proof {
        assert(all.take(pieces@.len() as int) =~= all);
    }
    r
}

/// The TLDs checked when none are chosen.
pub open spec fn default_tlds() -> Seq<Seq<char>> {
    seq!["com"@, "dev"@, "io"@, "app"@]
}

impl Config {
    /// The default configuration: `.com`, `.dev`, `.io` and `.app` domains, the popular
    /// registries, every app store, and twenty names.
    pub fn default() -> (c: Config)
        ensures
            views(c.tlds@) == default_tlds(),
            c.languages@.len() == 0,
            !c.all_registries,
            c.registry_ids@.len() == 0,
            c.store_ids@.len() == 0,
            c.max_names == 20,
    {
        let mut tlds: Vec<String> = Vec::new();
        tlds.push(String::from_str("com"));
        tlds.push(String::from_str("dev"));
        tlds.push(String::from_str("io"));
        tlds.push(String::from_str("app"));
        proof {
            assert(views(tlds@) =~= default_tlds());
        }
        Config {
            tlds,
            languages: Vec::new(),
            all_registries: false,
            registry_ids: Vec::new(),
            store_ids: Vec::new(),
            max_names: 20,
        }
    }
}

/// Builds the configuration from the command-line options; `common_tlds` is the list that
/// `--all` and `--all-tlds` select.
pub fn build_config(cli: &CheckOptions, common_tlds: &Vec<String>) -> (c: Config)
    ensures
        views(c.tlds@) == if cli.all || cli.all_tlds {
            views(common_tlds@)
        } else if cli.tlds is Some {
            comma_list(cli.tlds->Some_0@)
        } else {
            default_tlds()
        },
        views(c.languages@) == if cli.languages is Some { comma_list(cli.languages->Some_0@) } else { Seq::empty() },
        c.all_registries == (cli.languages is None && (cli.all || cli.all_registries)),
        views(c.registry_ids@) == if cli.languages is None && !(cli.all || cli.all_registries) && cli.registries is Some {
            comma_list(cli.registries->Some_0@)
        } else {
            Seq::empty()
        },
        views(c.store_ids@) == if cli.stores is Some { comma_list(cli.stores->Some_0@) } else { Seq::empty() },
        c.max_names == cli.max_names,
{
    let mut config = Config::default();
    if cli.all || cli.all_tlds {
        config.tlds = clone_strings(common_tlds);
    } else if let Some(tlds) = &cli.tlds {
        config.tlds = split_comma_list(tlds.as_str());
    }
    if let Some(langs) = &cli.languages {
        config.languages = split_comma_list(langs.as_str());
    } else if cli.all || cli.all_registries {
        config.all_registries = true;
    } else if let Some(registries) = &cli.registries {
        config.registry_ids = split_comma_list(registries.as_str());
    }
    if let Some(stores) = &cli.stores {
        config.store_ids = split_comma_list(stores.as_str());
    }
    config.max_names = cli.max_names;
    proof {
        assert(views(Seq::<String>::empty()) =~= Seq::<Seq<char>>::empty());
    }
    config
}

/// Which package registries to check.
pub enum RegistryChoice {
    /// The registries of these languages.
    ByLanguages,
    /// Every registry.
    All,
    /// The popular registries.
    Popular,
    /// The registries with these identifiers.
    ByIds,
}

/// Chooses the registries: by language when languages are given, else all when asked, else
/// the popular ones when no identifiers are given, else those identified.
pub fn registry_choice(config: &Config) -> (r: RegistryChoice)
    ensures
        config.languages@.len() > 0 ==> r is ByLanguages,
        config.languages@.len() == 0 && config.all_registries ==> r is All,
        config.languages@.len() == 0 && !config.all_registries && config.registry_ids@.len() == 0 ==> r is Popular,
        config.languages@.len() == 0 && !config.all_registries && config.registry_ids@.len() > 0 ==> r is ByIds,
{
    if config.languages.len() > 0 {
        RegistryChoice::ByLanguages
    } else if config.all_registries {
        RegistryChoice::All
    } else if config.registry_ids.len() == 0 {
        RegistryChoice::Popular
    } else {
        RegistryChoice::ByIds
    }
}

/// Whether every app store is checked (no store identifiers given).
pub fn all_stores(store_ids: &Vec<String>) -> (r: bool)
    ensures
        r == (store_ids@.len() == 0),
{
    store_ids.len() == 0
}

/// The domains to check for a name: the name under each TLD.
pub open spec fn domains_for(name: Seq<char>, tlds: Seq<Seq<char>>) -> Seq<Seq<char>> {
    tlds.map_values(|t: Seq<char>| name + "."@ + t)
}

pub fn domain_names(name: &str, tlds: &Vec<String>) -> (r: Vec<String>)
    ensures
        views(r@) == domains_for(name@, views(tlds@)),
{
    let mut r: Vec<String> = Vec::new();
    let mut i: usize = 0;
    while i < tlds.len()
        invariant
            i <= tlds@.len(),
            views(r@) == domains_for(name@, views(tlds@).take(i as int)),
        decreases tlds@.len() - i,
    {
        let mut d = String::from_str(name);
        d.append(".");
        d.append(tlds[i].as_str());
        let ghost before = r@;
        r.push(d);
        proof {
            assert(views(r@) =~= views(before).push(d@));
            assert(views(tlds@).take(i + 1) =~= views(tlds@).take(i as int).push(tlds@[i as int]@));
            assert(views(r@) =~= domains_for(name@, views(tlds@).take(i + 1)));
        }
        i = i + 1;
    }
    proof {
        assert(views(tlds@).take(tlds@.len() as int) =~= views(tlds@));
    }
    r
}

/// Name candidates for names given directly, suggested by no model.
pub fn candidates_from_names(names: &Vec<String>) -> (r: Vec<NameCandidate>)
    ensures
        r@.len() == names@.len(),
        forall|i: int| 0 <= i < r@.len() ==> #[trigger] r@[i].name@ == names@[i]@ && r@[i].suggested_by@.len() == 0,
{
    let mut r: Vec<NameCandidate> = Vec::new();
    let mut i: usize = 0;
    while i < names.len()
        invariant
            i <= names@.len(),
            r@.len() == i,
            forall|k: int| 0 <= k < i ==> #[trigger] r@[k].name@ == names@[k]@ && r@[k].suggested_by@.len() == 0,
        decreases names@.len() - i,
    {
        r.push(NameCandidate { name: names[i].clone(), suggested_by: Vec::new() });
        i = i + 1;
    }
    r
}

/// How many details have each status.
pub open spec fn count_status(details: Seq<DomainDetail>, status: Seq<char>) -> nat
    decreases details.len(),
{
    if details.len() == 0 {
        0
    } else {
        count_status(details.drop_last(), status) + if details.last().available@ == status { 1nat } else { 0nat }
    }
}

/// The number of details with a status is the number of details whose status is exactly that.
pub proof fn count_status_counts_exact_matches(details: Seq<DomainDetail>, status: Seq<char>)
    ensures
        count_status(details, status) == details.filter(|d: DomainDetail| d.available@ == status).len(),
    decreases details.len(),
{
    let pred = |d: DomainDetail| d.available@ == status;
    if details.len() > 0 {
        count_status_counts_exact_matches(details.drop_last(), status);
        assert(details.drop_last().push(details.last()) =~= details);
        details.drop_last().lemma_filter_push(details.last(), pred);
    } else {
        assert(details.filter(pred) =~= Seq::<DomainDetail>::empty());
    }
}

/// A detail is counted under at most one of the statuses "available", "registered" and
/// "unknown", so together they count no more details than there are.
pub proof fn statuses_count_each_detail_once(details: Seq<DomainDetail>)
    ensures
        count_status(details, "available"@) + count_status(details, "registered"@) + count_status(details, "unknown"@)
            <= details.len(),
    decreases details.len(),
{
    reveal_strlit("available");
    reveal_strlit("registered");
    reveal_strlit("unknown");
    assert("available"@.len() == 9);
    assert("registered"@.len() == 10);
    assert("unknown"@.len() == 7);
    if details.len() > 0 {
        statuses_count_each_detail_once(details.drop_last());
    }
}

/// Summarises domain details: how many are available, registered and unknown, out of all.
pub fn domain_summary(details: Vec<DomainDetail>) -> (r: DomainSummary)
    ensures
        r.available == count_status(details@, "available"@),
        r.registered == count_status(details@, "registered"@),
        r.unknown == count_status(details@, "unknown"@),
        r.total == details@.len(),
        r.details@ == details@,
        r.available == details@.filter(|d: DomainDetail| d.available@ == "available"@).len(),
        r.registered == details@.filter(|d: DomainDetail| d.available@ == "registered"@).len(),
        r.unknown == details@.filter(|d: DomainDetail| d.available@ == "unknown"@).len(),
        r.available + r.registered + r.unknown <= r.total,
{
    let mut available: usize = 0;
    let mut registered: usize = 0;
    let mut unknown: usize = 0;
    let mut i: usize = 0;
    while i < details.len()
        invariant
            i <= details@.len(),
            available == count_status(details@.take(i as int), "available"@),
            registered == count_status(details@.take(i as int), "registered"@),
            unknown == count_status(details@.take(i as int), "unknown"@),
            available <= i,
            registered <= i,
            unknown <= i,
        decreases details@.len() - i,
    {
        proof {
            assert(details@.take(i + 1).drop_last() =~= details@.take(i as int));
        }
        let s = details[i].available.as_str();
        if str_eq(s, "available") {
            available = available + 1;
        }
        if str_eq(s, "registered") {
            registered = registered + 1;
        }
        if str_eq(s, "unknown") {
            unknown = unknown + 1;
        }
        i = i + 1;
    }
    proof {
        assert(details@.take(details@.len() as int) =~= details@);
        count_status_counts_exact_matches(details@, "available"@);
        count_status_counts_exact_matches(details@, "registered"@);
        count_status_counts_exact_matches(details@, "unknown"@);
        let av = "available"@;
        let rg = "registered"@;
        let uk = "unknown"@;
        assert((|d: DomainDetail| d.available@ == av) =~= (|d: DomainDetail| d.available@ == "available"@));
        assert((|d: DomainDetail| d.available@ == rg) =~= (|d: DomainDetail| d.available@ == "registered"@));
        assert((|d: DomainDetail| d.available@ == uk) =~= (|d: DomainDetail| d.available@ == "unknown"@));
        statuses_count_each_detail_once(details@);
    }
    let total = details.len();
    DomainSummary { available, registered, unknown, total, details }
}

/// Inserts `e` after every result that scores at least as much (so equal scores keep their
/// order).
pub open spec fn insert_by_score(sorted: Seq<NameResult>, e: NameResult) -> Seq<NameResult> {
    let p = choose|p: int| 0 <= p <= sorted.len() && (forall|q: int| 0 <= q < p ==> sorted[q].score >= e.score)
        && (p < sorted.len() ==> sorted[p].score < e.score);
    sorted.insert(p, e)
}

/// The stable sort by descending score.
pub open spec fn sorted_by_score(s: Seq<NameResult>) -> Seq<NameResult>
    decreases s.len(),
{
    if s.len() == 0 {
        s
    } else {
        insert_by_score(sorted_by_score(s.drop_last()), s.last())
    }
}

/// Non-increasing scores.
pub open spec fn descending(s: Seq<NameResult>) -> bool {
    forall|i: int, j: int| 0 <= i < j < s.len() ==> #[trigger] s[i].score >= #[trigger] s[j].score
}

/// Sorts results by descending score, keeping the order of equal scores.
#[verifier::spinoff_prover]
#[verifier::rlimit(40)]
pub fn sort_by_score(results: Vec<NameResult>) -> (r: Vec<NameResult>)
    ensures
        r@ == sorted_by_score(results@),
        descending(r@),
{
    let mut rest = results;
    let n = rest.len();
    let ghost all = rest@;
    let mut sorted: Vec<NameResult> = Vec::new();
    let mut i: usize = 0;
    while rest.len() > 0
        invariant
            rest@ == all.skip(i as int),
            i <= all.len(),
            i + rest@.len() == all.len(),
            all.len() == n,
            sorted@ == sorted_by_score(all.take(i as int)),
            descending(sorted@),
        decreases rest@.len(),
    {
        let e = rest.remove(0);
        proof {
            assert(e == all[i as int]);
            assert(all.skip(i + 1) =~= all.skip(i as int).drop_first());
            assert(all.take(i + 1).drop_last() =~= all.take(i as int));
            assert(all.take(i + 1).last() == e);
        }
        let mut p: usize = 0;
        while p < sorted.len() && sorted[p].score >= e.score
            invariant
                p <= sorted@.len(),
                forall|q: int| 0 <= q < p ==> sorted@[q].score >= e.score,
            decreases sorted@.len() - p,
        {
            p = p + 1;
        }
        let ghost before = sorted@;
        proof {
            let w = choose|w: int| 0 <= w <= before.len() && (forall|q: int| 0 <= q < w ==> before[q].score >= e.score)
                && (w < before.len() ==> before[w].score < e.score);
            assert(0 <= p <= before.len() && (forall|q: int| 0 <= q < p ==> before[q].score >= e.score)
                && (p < before.len() ==> before[p as int].score < e.score));
            if w < p {
                assert(before[w].score >= e.score);
            } else if p < w {
                assert(before[p as int].score >= e.score);
            }
        }
        sorted.insert(p, e);
        proof {
            assert forall|a: int, b: int| 0 <= a < b < sorted@.len() implies #[trigger] sorted@[a].score >= #[trigger] sorted@[b].score by {
                if b < p {
                } else if b == p {
                } else if a < p {
                    assert(sorted@[b] == before[b - 1]);
                } else if a == p {
                    assert(sorted@[b] == before[b - 1]);
                    if b - 1 > p {
                        assert(before[p as int].score >= before[b - 1].score);
                    }
                } else {
                    assert(sorted@[a] == before[a - 1]);
                    assert(sorted@[b] == before[b - 1]);
                }
            }
        }
        i = i + 1;
    }
    proof {
        assert(all.take(all.len() as int) =~= all);
    }
    sorted
}

/// The mark for the availability of a name under a TLD: the status of the first domain that
/// ends in `.tld`, with the kind of site for a registered one, or blanks when none does.
pub open spec fn status_mark(details: Seq<DomainDetail>, tld: Seq<char>) -> Seq<char>
    decreases details.len(),
{
    if details.len() == 0 {
        "   "@
    } else if details[0].domain@.len() >= tld.len() + 1
        && details[0].domain@.skip(details[0].domain@.len() - (tld.len() + 1)) == "."@ + tld {
        let d = details[0];
        if d.available@ == "available"@ {
            "[+]"@
        } else if d.available@ == "registered"@ {
            match d.site {
                Some(s) => if s@ == "parked"@ {
                    "[-P]"@
                } else if s@ == "active"@ {
                    "[-A]"@
                } else if s@ == "redirect"@ {
                    "[-R]"@
                } else if s@ == "unreachable"@ {
                    "[-X]"@
                } else {
                    "[-]"@
                },
                None => "[-]"@,
            }
        } else {
            "[?]"@
        }
    } else {
        status_mark(details.drop_first(), tld)
    }
}

/// Whether `s` ends with `suffix`.
pub fn ends_with(s: &str, suffix: &str) -> (r: bool)
    ensures
        r == (s@.len() >= suffix@.len() && s@.skip(s@.len() - suffix@.len()) == suffix@),
{
    let a = chars_of(s);
    let b = chars_of(suffix);
    if a.len() < b.len() {
        return false;
    }
    let off = a.len() - b.len();
    let mut k: usize = 0;
    while k < b.len()
        invariant
            k <= b@.len(),
            a@ == s@,
            b@ == suffix@,
            off == a@.len() - b@.len(),
            a@.len() == off + b@.len(),
            a@.len() <= usize::MAX,
            forall|j: int| 0 <= j < k ==> a@[off + j] == b@[j],
        decreases b@.len() - k,
    {
        if a[off + k] != b[k] {
            proof {
                assert(a@.skip(off as int)[k as int] != b@[k as int]);
            }
            return false;
        }
        k = k + 1;
    }
    proof {
        assert(a@.skip(off as int) =~= b@);
    }
    true
}

fn site_mark(site: &Option<String>) -> (r: String)
    ensures
        r@ == match site {
            Some(s) => if s@ == "parked"@ {
                "[-P]"@
            } else if s@ == "active"@ {
                "[-A]"@
            } else if s@ == "redirect"@ {
                "[-R]"@
            } else if s@ == "unreachable"@ {
                "[-X]"@
            } else {
                "[-]"@
            },
            None => "[-]"@,
        },
{
    match site {
        Some(s) => if str_eq(s.as_str(), "parked") {
            String::from_str("[-P]")
        } else if str_eq(s.as_str(), "active") {
            String::from_str("[-A]")
        } else if str_eq(s.as_str(), "redirect") {
            String::from_str("[-R]")
        } else if str_eq(s.as_str(), "unreachable") {
            String::from_str("[-X]")
        } else {
            String::from_str("[-]")
        },
        None => String::from_str("[-]"),
    }
}

/// The availability mark of a name under a TLD for the summary line.
pub fn domain_status(details: &Vec<DomainDetail>, tld: &str) -> (r: String)
    ensures
        r@ == status_mark(details@, tld@),
{
    let mut suffix = String::from_str(".");
    suffix.append(tld);
    proof {
        reveal_strlit(".");
        assert(details@.skip(0) =~= details@);
    }
    let mut i: usize = 0;
    while i < details.len()
        invariant
            i <= details@.len(),
            suffix@ == "."@ + tld@,
            suffix@.len() == tld@.len() + 1,
            status_mark(details@, tld@) == status_mark(details@.skip(i as int), tld@),
        decreases details@.len() - i,
    {
        proof {
            assert(details@.skip(i as int)[0] == details@[i as int]);
            assert(details@.skip(i as int).drop_first() =~= details@.skip(i + 1));
        }
        let d = &details[i];
        if ends_with(d.domain.as_str(), suffix.as_str()) {
            let a = d.available.as_str();
            if str_eq(a, "available") {
                return String::from_str("[+]");
            } else if str_eq(a, "registered") {
                return site_mark(&d.site);
            } else {
                return String::from_str("[?]");
            }
        }
        i = i + 1;
    }
    String::from_str("   ")
}

/// The mark for one availability status in the detailed listing.
pub open spec fn availability_mark(status: Seq<char>) -> Seq<char> {
    if status == "available"@ {
        "[+]"@
    } else if status == "taken"@ || status == "registered"@ {
        "[-]"@
    } else {
        "[?]"@
    }
}

pub fn availability_symbol(status: &str) -> (r: String)
    ensures
        r@ == availability_mark(status@),
{
    if str_eq(status, "available") {
        String::from_str("[+]")
    } else if str_eq(status, "taken") || str_eq(status, "registered") {
        String::from_str("[-]")
    } else {
        String::from_str("[?]")
    }
}

/// Whether a domain may still be had: its site is parked or unreachable.
pub fn is_maybe(d: &DomainDetail) -> (r: bool)
    ensures
        r == (d.site matches Some(s) && (s@ == "parked"@ || s@ == "unreachable"@)),
{
    match &d.site {
        Some(s) => str_eq(s.as_str(), "parked") || str_eq(s.as_str(), "unreachable"),
        None => false,
    }
}

/// The number of filled cells of a score bar for a score in basis points: the score in
/// tenths, rounded half up.
pub open spec fn filled_cells(basis: nat) -> nat {
    (basis + 500) / 1000
}

/// A bar of ten cells, `#` for the filled ones and `-` for the rest, in brackets.
pub open spec fn bar_text(filled: nat) -> Seq<char> {
    "["@ + Seq::new(filled, |i: int| '#') + Seq::new((10 - filled) as nat, |i: int| '-') + "]"@
}

/// The score bar of a score given in basis points.
pub fn score_bar(basis: u128) -> (s: String)
    requires
        basis < 10500,
    ensures
        s@ == bar_text(filled_cells(basis as nat)),
{
    let filled: usize = ((basis + 500) / 1000) as usize;
    let mut cells: Vec<char> = Vec::new();
    cells.push('[');
    let mut i: usize = 0;
    while i < filled
        invariant
            i <= filled,
            filled <= 10,
            cells@ == seq!['['] + Seq::new(i as nat, |k: int| '#'),
        decreases filled - i,
    {
        cells.push('#');
        proof {
            assert(cells@ =~= seq!['['] + Seq::new((i + 1) as nat, |k: int| '#'));
        }
        i = i + 1;
    }
    let mut j: usize = 0;
    while j < 10 - filled
        invariant
            j <= 10 - filled,
            filled <= 10,
            cells@ == seq!['['] + Seq::new(filled as nat, |k: int| '#') + Seq::new(j as nat, |k: int| '-'),
        decreases 10 - filled - j,
    {
        cells.push('-');
        proof {
            assert(cells@ =~= seq!['['] + Seq::new(filled as nat, |k: int| '#') + Seq::new((j + 1) as nat, |k: int| '-'));
        }
        j = j + 1;
    }
    cells.push(']');
    proof {
        reveal_strlit("[");
        reveal_strlit("]");
        assert(cells@ =~= bar_text(filled_cells(basis as nat)));
    }
    string_of(cells.as_slice())
}

/// Whether a domain is one of the four shown on every summary line.
pub open spec fn key_domain(d: Seq<char>) -> bool {
    ||| has_suffix(d, ".com"@)
    ||| has_suffix(d, ".dev"@)
    ||| has_suffix(d, ".io"@)
    ||| has_suffix(d, ".app"@)
}

/// Whether `s` ends with `suffix`.
pub open spec fn has_suffix(s: Seq<char>, suffix: Seq<char>) -> bool {
    s.len() >= suffix.len() && s.skip(s.len() - suffix.len()) == suffix
}

/// The available domains beyond the four key TLDs, in order.
pub open spec fn extra_available(details: Seq<DomainDetail>) -> Seq<Seq<char>> {
    details.filter(|d: DomainDetail| d.available@ == "available"@ && !key_domain(d.domain@))
        .map_values(|d: DomainDetail| d.domain@)
}

/// The available domains of a result beyond the four key TLDs, for the summary of a wide
/// check.
pub fn extra_available_domains(details: &Vec<DomainDetail>) -> (r: Vec<String>)
    ensures
        views(r@) == extra_available(details@),
{
    let ghost pred = |d: DomainDetail| d.available@ == "available"@ && !key_domain(d.domain@);
    let mut r: Vec<String> = Vec::new();
    let mut i: usize = 0;
    while i < details.len()
        invariant
            i <= details@.len(),
            pred == (|d: DomainDetail| d.available@ == "available"@ && !key_domain(d.domain@)),
            views(r@) == details@.take(i as int).filter(pred).map_values(|d: DomainDetail| d.domain@),
        decreases details@.len() - i,
    {
        proof {
            assert(details@.take(i + 1) =~= details@.take(i as int).push(details@[i as int]));
            details@.take(i as int).lemma_filter_push(details@[i as int], pred);
        }
        let d = &details[i];
        let name = d.domain.as_str();
        let key = ends_with(name, ".com") || ends_with(name, ".dev") || ends_with(name, ".io") || ends_with(name, ".app");
        if str_eq(d.available.as_str(), "available") && !key {
            let ghost before = views(r@);
            r.push(d.domain.clone());
            proof {
                let f = details@.take(i as int).filter(pred);
                assert(f.push(details@[i as int]).map_values(|d: DomainDetail| d.domain@)
                    =~= f.map_values(|d: DomainDetail| d.domain@).push(details@[i as int].domain@));
                assert(views(r@) =~= before.push(d.domain@));
            }
        }
        i = i + 1;
    }
    proof {
        assert(details@.take(details@.len() as int) =~= details@);
    }
    r
}

/// The registries on which a name is taken, in order.
pub open spec fn taken_on(details: Seq<PackageDetail>) -> Seq<Seq<char>> {
    details.filter(|p: PackageDetail| p.available@ == "taken"@).map_values(|p: PackageDetail| p.registry@)
}

/// The registries on which a name is taken, for the summary of a wide check.
pub fn taken_registries(details: &Vec<PackageDetail>) -> (r: Vec<String>)
    ensures
        views(r@) == taken_on(details@),
{
    let ghost pred = |p: PackageDetail| p.available@ == "taken"@;
    let mut r: Vec<String> = Vec::new();
    let mut i: usize = 0;
    while i < details.len()
        invariant
            i <= details@.len(),
            pred == (|p: PackageDetail| p.available@ == "taken"@),
            views(r@) == details@.take(i as int).filter(pred).map_values(|p: PackageDetail| p.registry@),
        decreases details@.len() - i,
    {
        proof {
            assert(details@.take(i + 1) =~= details@.take(i as int).push(details@[i as int]));
            details@.take(i as int).lemma_filter_push(details@[i as int], pred);
        }
        let p = &details[i];
        if str_eq(p.available.as_str(), "taken") {
            let ghost before = views(r@);
            r.push(p.registry.clone());
            proof {
                let f = details@.take(i as int).filter(pred);
                assert(f.push(details@[i as int]).map_values(|p: PackageDetail| p.registry@)
                    =~= f.map_values(|p: PackageDetail| p.registry@).push(details@[i as int].registry@));
                assert(views(r@) =~= before.push(p.registry@));
            }
        }
        i = i + 1;
    }
    proof {
        assert(details@.take(details@.len() as int) =~= details@);
    }
    r
}

/// Whether the detailed listing shows a domain: always, unless only available entries are
/// wanted; then available domains, and parked or unreachable ones when those are wanted too.
pub fn shows_domain(d: &DomainDetail, free: bool, maybe: bool) -> (r: bool)
    ensures
        r == (!free || d.available@ == "available"@
            || (maybe && (d.site matches Some(s) && (s@ == "parked"@ || s@ == "unreachable"@)))),
{
    !free || str_eq(d.available.as_str(), "available") || (maybe && is_maybe(d))
}

/// Whether the detailed listing shows a package registry or app store entry: always, unless
/// only available entries are wanted.
pub fn shows_entry(status: &str, free: bool) -> (r: bool)
    ensures
        r == (!free || status@ == "available"@),
{
    !free || str_eq(status, "available")
}

/// The result for a candidate name from what its domains, package registries and app stores
/// reported, scored.
pub fn name_result(candidate: NameCandidate, domains: DomainSummary, packages: PackageSummary, stores: StoreSummary) -> (r: NameResult)
    ensures
        r.name == candidate.name,
        r.suggested_by == candidate.suggested_by,
        r.domains == domains,
        r.packages == packages,
        r.stores == stores,
        r.score == score_basis(r),
{
    let mut r = NameResult {
        name: candidate.name,
        score: 0,
        suggested_by: candidate.suggested_by,
        domains,
        packages,
        stores,
    };
    r.score = score(&r);
    r
}


/// `s` padded with spaces on the right to `w` characters, as `{:<w}` writes it.
pub open spec fn pad_right(s: Seq<char>, w: nat) -> Seq<char> {
    if s.len() >= w {
        s
    } else {
        s + Seq::new((w - s.len()) as nat, |i: int| ' ')
    }
}

/// `s` padded with spaces on the right to `w` characters.
pub fn pad_right_string(s: &str, w: usize) -> (r: String)
    ensures
        r@ == pad_right(s@, w as nat),
{
    let cs = chars_of(s);
    let mut v: Vec<char> = cs;
    let mut k: usize = v.len();
    while k < w
        invariant
            s@.len() <= k <= w || (k == s@.len() && k >= w),
            v@ == s@ + Seq::new((k - s@.len()) as nat, |i: int| ' '),
        decreases w - k,
    {
        v.push(' ');
        proof {
            assert(v@ =~= s@ + Seq::new((k + 1 - s@.len()) as nat, |i: int| ' '));
        }
        k = k + 1;
    }
    proof {
        if s@.len() >= w {
            assert(v@ =~= s@);
        }
    }
    string_of(v.as_slice())
}

/// A count out of a total, as `a/t`.
pub open spec fn count_pair(a: nat, t: nat) -> Seq<char> {
    decimal(a) + "/"@ + decimal(t)
}

/// The count `a/t` as text.
pub fn count_pair_string(a: usize, t: usize) -> (r: String)
    ensures
        r@ == count_pair(a as nat, t as nat),
{
    let mut r = decimal_string(a as u64);
    r.append("/");
    let tail = decimal_string(t as u64);
    r.append(tail.as_str());
    proof {
        reveal_strlit("/");
    }
    r
}

/// The first line a name gets in the summary: its score bar and percentage, its name padded
/// to twenty characters, the marks of the four key TLDs, the count of available domains where
/// more than six were checked, and the counts of available packages and, where any were
/// checked, stores.
pub open spec fn summary_head(r: NameResult) -> Seq<char> {
    let d = r.domains.details@;
    "  "@ + bar_text(filled_cells(r.score as nat)) + " "@ + decimal(round_half_even(r.score as nat, 100))
        + "%  "@ + pad_right(r.name@, 20) + " .com"@ + status_mark(d, "com"@) + " .dev"@
        + status_mark(d, "dev"@) + " .io"@ + status_mark(d, "io"@) + " .app"@ + status_mark(d, "app"@)
        + (if r.domains.total <= 6 {
        ""@
    } else {
        "  domains: "@ + count_pair(r.domains.available as nat, r.domains.total as nat)
    }) + "  pkg: "@ + count_pair(r.packages.available as nat, r.packages.total as nat) + (if r.stores.total
        > 0 {
        "  stores: "@ + count_pair(r.stores.available as nat, r.stores.total as nat)
    } else {
        ""@
    })
}

/// The lines a name gets in the summary: the first line, and where more than six domains were
/// checked, a line with the other available domains and one with the registries that took the
/// name, each only where it has something to list.
pub open spec fn summary_text(r: NameResult) -> Seq<Seq<char>> {
    let head = seq![summary_head(r)];
    if r.domains.total <= 6 {
        head
    } else {
        let extra = extra_available(r.domains.details@);
        let taken = taken_on(r.packages.details@);
        let with_extra = if extra.len() > 0 {
            head.push("         [+] "@ + join(extra, ", "@))
        } else {
            head
        };
        if taken.len() > 0 {
            with_extra.push("         [-] pkg: "@ + join(taken, ", "@))
        } else {
            with_extra
        }
    }
}

/// The summary lines of a name's result.
pub fn summary_lines(result: &NameResult) -> (r: Vec<String>)
    requires
        result.score < 10500,
    ensures
        views(r@) == summary_text(*result),
{
    let d = &result.domains.details;
    let mut head = String::from_str("  ");
    let bar = score_bar(result.score);
    head.append(bar.as_str());
    head.append(" ");
    let pct = decimal_string(round_half_even_exec(result.score, 100) as u64);
    head.append(pct.as_str());
    head.append("%  ");
    let name = pad_right_string(result.name.as_str(), 20);
    head.append(name.as_str());
    head.append(" .com");
    let com = domain_status(d, "com");
    head.append(com.as_str());
    head.append(" .dev");
    let dev = domain_status(d, "dev");
    head.append(dev.as_str());
    head.append(" .io");
    let io = domain_status(d, "io");
    head.append(io.as_str());
    head.append(" .app");
    let app = domain_status(d, "app");
    head.append(app.as_str());
    let ghost upto_marks = head@;
    if result.domains.total > 6 {
        head.append("  domains: ");
        let c = count_pair_string(result.domains.available, result.domains.total);
        head.append(c.as_str());
    }
    let ghost upto_domains = head@;
    head.append("  pkg: ");
    let p = count_pair_string(result.packages.available, result.packages.total);
    head.append(p.as_str());
    let ghost upto_pkg = head@;
    if result.stores.total > 0 {
        head.append("  stores: ");
        let st = count_pair_string(result.stores.available, result.stores.total);
        head.append(st.as_str());
    }
    proof {
        reveal_strlit("  ");
        reveal_strlit(" ");
        reveal_strlit("%  ");
        reveal_strlit(" .com");
        reveal_strlit(" .dev");
        reveal_strlit(" .io");
        reveal_strlit(" .app");
        reveal_strlit("com");
        reveal_strlit("dev");
        reveal_strlit("io");
        reveal_strlit("app");
        reveal_strlit("  domains: ");
        reveal_strlit("  pkg: ");
        reveal_strlit("  stores: ");
        reveal_strlit("");
        vstd::arithmetic::div_mod::lemma_div_is_ordered_by_denominator(result.score as int, 1, 100);
        assert(head@ =~= summary_head(*result));
    }
    let mut lines: Vec<String> = Vec::new();
    lines.push(head);
    proof {
        assert(views(lines@) =~= seq![summary_head(*result)]);
    }
    if result.domains.total > 6 {
        let extra = extra_available_domains(d);
        if extra.len() > 0 {
            let mut line = String::from_str("         [+] ");
            let joined = join_strings(&extra, ", ");
            line.append(joined.as_str());
            let ghost before = lines@;
            lines.push(line);
            proof {
                reveal_strlit("         [+] ");
                reveal_strlit(", ");
                assert(views(lines@) =~= views(before).push(line@));
            }
        }
        let taken = taken_registries(&result.packages.details);
        if taken.len() > 0 {
            let mut line = String::from_str("         [-] pkg: ");
            let joined = join_strings(&taken, ", ");
            line.append(joined.as_str());
            let ghost before = lines@;
            lines.push(line);
            proof {
                reveal_strlit("         [-] pkg: ");
                reveal_strlit(", ");
                assert(views(lines@) =~= views(before).push(line@));
            }
        }
    }
    lines
}


/// The line of the detailed listing for one entry: its mark, its name padded to 24
/// characters, its status and what follows.
pub open spec fn entry_line(status: Seq<char>, name: Seq<char>, tail: Seq<char>) -> Seq<char> {
    "         "@ + availability_mark(status) + " "@ + pad_right(name, 24) + " "@ + status + tail
}

/// The line of the detailed listing for a domain, with the kind of its site where known.
pub open spec fn domain_line(d: DomainDetail) -> Seq<char> {
    entry_line(d.available@, d.domain@, match d.site {
        Some(s) => " ("@ + s@ + ")"@,
        None => ""@,
    })
}

/// Whether the detailed listing shows a domain (see `shows_domain`).
pub open spec fn domain_shown(d: DomainDetail, free: bool, maybe: bool) -> bool {
    !free || d.available@ == "available"@ || (maybe && (d.site matches Some(s) && (s@ == "parked"@
        || s@ == "unreachable"@)))
}

/// The detailed listing of a result: who suggested the name, then a line for each domain,
/// package registry and app store shown, and a blank line.
pub open spec fn detail_text(r: NameResult, free: bool, maybe: bool) -> Seq<Seq<char>> {
    let suggested = if r.suggested_by@.len() > 0 {
        seq!["         suggested by: "@ + join(views(r.suggested_by@), ", "@)]
    } else {
        Seq::empty()
    };
    let domains = r.domains.details@.filter(|d: DomainDetail| domain_shown(d, free, maybe)).map_values(
        |d: DomainDetail| domain_line(d),
    );
    let packages = r.packages.details@.filter(|p: PackageDetail| !free || p.available@ == "available"@).map_values(
        |p: PackageDetail| entry_line(p.available@, p.registry@, ""@),
    );
    let stores = r.stores.details@.filter(|s: StoreDetail| !free || s.available@ == "available"@).map_values(
        |s: StoreDetail| entry_line(s.available@, s.store@, " ("@ + decimal(s.similar_count as nat) + " similar)"@),
    );
    suggested + domains + packages + stores + seq![Seq::<char>::empty()]
}

/// The line of the detailed listing for an entry.
fn entry_line_string(status: &str, name: &str, tail: &str) -> (r: String)
    ensures
        r@ == entry_line(status@, name@, tail@),
{
    let mut line = String::from_str("         ");
    let mark = availability_symbol(status);
    line.append(mark.as_str());
    line.append(" ");
    let padded = pad_right_string(name, 24);
    line.append(padded.as_str());
    line.append(" ");
    line.append(status);
    line.append(tail);
    proof {
        reveal_strlit("         ");
        reveal_strlit(" ");
    }
    line
}

/// The detailed listing of a result, line by line.
pub fn detail_lines(result: &NameResult, free: bool, maybe: bool) -> (r: Vec<String>)
    ensures
        views(r@) == detail_text(*result, free, maybe),
{
    let mut lines: Vec<String> = Vec::new();
    if result.suggested_by.len() > 0 {
        let mut line = String::from_str("         suggested by: ");
        let joined = join_strings(&result.suggested_by, ", ");
        line.append(joined.as_str());
        lines.push(line);
        proof {
            reveal_strlit("         suggested by: ");
            reveal_strlit(", ");
            assert(views(lines@) =~= seq!["         suggested by: "@ + join(views(result.suggested_by@), ", "@)]);
        }
    } else {
        proof {
            assert(views(lines@) =~= Seq::<Seq<char>>::empty());
        }
    }
    let ghost l0 = views(lines@);
    let ds = &result.domains.details;
    let ghost dpred = |d: DomainDetail| domain_shown(d, free, maybe);
    let ghost dline = |d: DomainDetail| domain_line(d);
    let mut i: usize = 0;
    while i < ds.len()
        invariant
            i <= ds@.len(),
            dpred == (|d: DomainDetail| domain_shown(d, free, maybe)),
            dline == (|d: DomainDetail| domain_line(d)),
            views(lines@) == l0 + ds@.take(i as int).filter(dpred).map_values(dline),
        decreases ds@.len() - i,
    {
        proof {
            assert(ds@.take(i + 1) =~= ds@.take(i as int).push(ds@[i as int]));
            ds@.take(i as int).lemma_filter_push(ds@[i as int], dpred);
        }
        let d = &ds[i];
        if shows_domain(d, free, maybe) {
            let tail = match &d.site {
                Some(site) => {
                    let mut t = String::from_str(" (");
                    t.append(site.as_str());
                    t.append(")");
                    proof {
                        reveal_strlit(" (");
                        reveal_strlit(")");
                    }
                    t
                },
                None => {
                    proof {
                        reveal_strlit("");
                    }
                    String::from_str("")
                },
            };
            let line = entry_line_string(d.available.as_str(), d.domain.as_str(), tail.as_str());
            let ghost before = views(lines@);
            lines.push(line);
            proof {
                reveal_strlit("");
                assert(line@ == domain_line(*d));
                assert(views(lines@) =~= before.push(line@));
                let f = ds@.take(i as int).filter(dpred);
                assert(f.push(ds@[i as int]).map_values(dline) =~= f.map_values(dline).push(dline(ds@[i as int])));
                assert(views(lines@) =~= l0 + ds@.take(i + 1).filter(dpred).map_values(dline));
            }
        }
        i = i + 1;
    }
    proof {
        assert(ds@.take(ds@.len() as int) =~= ds@);
    }
    let ghost l1 = views(lines@);
    let ps = &result.packages.details;
    let ghost ppred = |p: PackageDetail| !free || p.available@ == "available"@;
    let ghost pline = |p: PackageDetail| entry_line(p.available@, p.registry@, ""@);
    let mut j: usize = 0;
    while j < ps.len()
        invariant
            j <= ps@.len(),
            ppred == (|p: PackageDetail| !free || p.available@ == "available"@),
            pline == (|p: PackageDetail| entry_line(p.available@, p.registry@, ""@)),
            views(lines@) == l1 + ps@.take(j as int).filter(ppred).map_values(pline),
        decreases ps@.len() - j,
    {
        proof {
            assert(ps@.take(j + 1) =~= ps@.take(j as int).push(ps@[j as int]));
            ps@.take(j as int).lemma_filter_push(ps@[j as int], ppred);
        }
        let p = &ps[j];
        if shows_entry(p.available.as_str(), free) {
            let line = entry_line_string(p.available.as_str(), p.registry.as_str(), "");
            let ghost before = views(lines@);
            lines.push(line);
            proof {
                reveal_strlit("");
                assert(views(lines@) =~= before.push(line@));
                let f = ps@.take(j as int).filter(ppred);
                assert(f.push(ps@[j as int]).map_values(pline) =~= f.map_values(pline).push(pline(ps@[j as int])));
                assert(views(lines@) =~= l1 + ps@.take(j + 1).filter(ppred).map_values(pline));
            }
        }
        j = j + 1;
    }
    proof {
        assert(ps@.take(ps@.len() as int) =~= ps@);
    }
    let ghost l2 = views(lines@);
    let ss = &result.stores.details;
    let ghost spred = |s: StoreDetail| !free || s.available@ == "available"@;
    let ghost sline = |s: StoreDetail| entry_line(s.available@, s.store@, " ("@ + decimal(s.similar_count as nat) + " similar)"@);
    let mut k: usize = 0;
    while k < ss.len()
        invariant
            k <= ss@.len(),
            spred == (|s: StoreDetail| !free || s.available@ == "available"@),
            sline == (|s: StoreDetail| entry_line(s.available@, s.store@, " ("@ + decimal(s.similar_count as nat) + " similar)"@)),
            views(lines@) == l2 + ss@.take(k as int).filter(spred).map_values(sline),
        decreases ss@.len() - k,
    {
        proof {
            assert(ss@.take(k + 1) =~= ss@.take(k as int).push(ss@[k as int]));
            ss@.take(k as int).lemma_filter_push(ss@[k as int], spred);
        }
        let st = &ss[k];
        if shows_entry(st.available.as_str(), free) {
            let mut tail = String::from_str(" (");
            let count = decimal_string(st.similar_count as u64);
            tail.append(count.as_str());
            tail.append(" similar)");
            let line = entry_line_string(st.available.as_str(), st.store.as_str(), tail.as_str());
            let ghost before = views(lines@);
            lines.push(line);
            proof {
                reveal_strlit(" (");
                reveal_strlit(" similar)");
                assert(views(lines@) =~= before.push(line@));
                let f = ss@.take(k as int).filter(spred);
                assert(f.push(ss@[k as int]).map_values(sline) =~= f.map_values(sline).push(sline(ss@[k as int])));
                assert(views(lines@) =~= l2 + ss@.take(k + 1).filter(spred).map_values(sline));
            }
        }
        k = k + 1;
    }
    proof {
        assert(ss@.take(ss@.len() as int) =~= ss@);
    }
    let ghost l3 = views(lines@);
    lines.push(String::new());
    proof {
        assert(views(lines@) =~= l3.push(Seq::<char>::empty()));
        assert(views(lines@) =~= detail_text(*result, free, maybe));
    }
    lines
}

} // verus!
