use vstd::prelude::*;

use vstd::string::StringExecFns;

use crate::fmt::{decimal, decimal_string};
use crate::check::{is_sep, lemma_split_by_nonempty, split_by, split_where};
use crate::text::{is_white_space, white_space, chars_of, contains_string, lowercase_of, string_of, to_lowercase, views};
use crate::types::str_eq;

verus! {

/// A text without its leading and trailing white space.
pub open spec fn trimmed(s: Seq<char>) -> Seq<char> {
    strip_around(s, |c: char| white_space(c))
}

/// A line without the carriage return it ends with, if it ends with one.
pub open spec fn without_cr(l: Seq<char>) -> Seq<char> {
    if l.len() > 0 && l.last() == '\r' {
        l.drop_last()
    } else {
        l
    }
}

/// The lines of a text: the pieces between line feeds, each without a carriage return that
/// ends it before its line feed; a final piece is a line only where it is not empty.
pub open spec fn text_lines(s: Seq<char>) -> Seq<Seq<char>> {
    let ps = split_by(s, is_sep('\n'));
    let n = ps.len() - 1;
    let ended = ps.take(n).map_values(|l: Seq<char>| without_cr(l));
    if n >= 0 && ps[n].len() > 0 {
        ended.push(ps[n])
    } else {
        ended
    }
}

/// A text without its leading and trailing white space, as `str::trim` leaves it.
pub fn trim(s: &str) -> (r: String)
    ensures
        r@ == trimmed(s@),
{
    let cs = chars_of(s);
    let ghost p = |c: char| white_space(c);
    let n = cs.len();
    let mut i: usize = 0;
    while i < n && is_white_space(cs[i])
        invariant
            i <= n,
            n == cs@.len(),
            forall|k: int| 0 <= k < i ==> white_space(#[trigger] cs@[k]),
        decreases n - i,
    {
        i = i + 1;
    }
    proof {
        lemma_leading_count_unique(cs@, p, i as int);
    }
    let ghost rest = cs@.skip(i as int);
    let mut e: usize = n;
    while e > i && is_white_space(cs[e - 1])
        invariant
            i <= e <= n,
            n == cs@.len(),
            forall|k: int| e <= k < n ==> white_space(#[trigger] cs@[k]),
        decreases e,
    {
        e = e - 1;
    }
    proof {
        assert(rest.len() == n - i);
        assert forall|k: int| rest.len() - (n - e) <= k < rest.len() implies p(#[trigger] rest[k]) by {
            assert(rest[k] == cs@[k + i]);
        }
        if n - e < rest.len() {
            assert(rest[rest.len() - 1 - (n - e)] == cs@[e - 1]);
        }
        lemma_trailing_count_unique(rest, p, (n - e) as int);
    }
    let mut r: Vec<char> = Vec::new();
    let mut j: usize = i;
    while j < e
        invariant
            i <= j <= e,
            e <= n,
            n == cs@.len(),
            r@ == cs@.subrange(i as int, j as int),
        decreases e - j,
    {
        r.push(cs[j]);
        j = j + 1;
    }
    proof {
        assert(r@ =~= rest.take(rest.len() - (n - e)));
        assert(cs@ == s@);
    }
    string_of(r.as_slice())
}

/// A line without the carriage return it ends with, if it ends with one.
fn drop_cr(l: &String) -> (r: String)
    ensures
        r@ == without_cr(l@),
{
    let mut cs = chars_of(l.as_str());
    if cs.len() > 0 && cs[cs.len() - 1] == '\r' {
        cs.pop();
        proof {
            assert(cs@ =~= l@.drop_last());
        }
    }
    string_of(cs.as_slice())
}

/// The lines of a text, as `str::lines` gives them.
pub fn lines(s: &str) -> (r: Vec<String>)
    ensures
        views(r@) == text_lines(s@),
{
    let cs = chars_of(s);
    let ghost sep = is_sep('\n');
    let mut flags: Vec<bool> = Vec::new();
    let mut i: usize = 0;
    while i < cs.len()
        invariant
            i <= cs@.len(),
            flags@.len() == i,
            sep == is_sep('\n'),
            forall|j: int| 0 <= j < i ==> flags@[j] == sep(#[trigger] cs@[j]),
        decreases cs@.len() - i,
    {
        flags.push(cs[i] == '\n');
        i = i + 1;
    }
    let pieces = split_where(&cs, &flags, Ghost(sep));
    let ghost ps = views(pieces@);
    proof {
        assert(cs@ == s@);
        lemma_split_by_nonempty(cs@, sep);
    }
    let last = pieces.len() - 1;
    let mut r: Vec<String> = Vec::new();
    let mut k: usize = 0;
    while k < last
        invariant
            k <= last,
            last == ps.len() - 1,
            ps == views(pieces@),
            views(r@) == ps.take(k as int).map_values(|l: Seq<char>| without_cr(l)),
        decreases last - k,
    {
        let line = drop_cr(&pieces[k]);
        let ghost before = views(r@);
        r.push(line);
        proof {
            assert(ps[k as int] == pieces@[k as int]@);
            assert(views(r@) =~= before.push(line@));
            assert(views(r@) =~= ps.take(k + 1).map_values(|l: Seq<char>| without_cr(l)));
        }
        k = k + 1;
    }
    if !pieces[last].as_str().is_empty() {
        let ghost before = views(r@);
        r.push(pieces[last].clone());
        proof {
            assert(views(r@) =~= before.push(ps[last as int]));
        }
    }
    r
}

/// Characters a name may hold: lowercase ASCII letters, digits and hyphens.
pub open spec fn name_char(c: char) -> bool {
    ('a' <= c <= 'z') || ('0' <= c <= '9') || c == '-'
}

/// A valid project name: two to forty characters, lowercase letters, digits and hyphens,
/// neither starting nor ending with a hyphen.
pub open spec fn valid_name(s: Seq<char>) -> bool {
    &&& 2 <= s.len() <= 40
    &&& s[0] != '-'
    &&& s.last() != '-'
    &&& forall|i: int| 0 <= i < s.len() ==> name_char(#[trigger] s[i])
}

/// Validates a name: lowercase alphanumeric and hyphens, 2 to 40 characters, no leading or
/// trailing hyphen.
pub fn validate_name(name: &str) -> (r: bool)
    ensures
        r == valid_name(name@),
{
    let cs = chars_of(name);
    let n = cs.len();
    if n < 2 || n > 40 {
        return false;
    }
    if cs[0] == '-' || cs[n - 1] == '-' {
        return false;
    }
    let mut i: usize = 0;
    while i < n
        invariant
            i <= n,
            n == cs@.len(),
            cs@ == name@,
            forall|k: int| 0 <= k < i ==> name_char(#[trigger] cs@[k]),
        decreases n - i,
    {
        let c = cs[i];
        if !(('a' <= c && c <= 'z') || ('0' <= c && c <= '9') || c == '-') {
            return false;
        }
        i = i + 1;
    }
    true
}

/// Characters stripped from the front of a listed name: digits and list punctuation.
pub open spec fn list_marker(c: char) -> bool {
    ('0' <= c <= '9') || c == '.' || c == ')' || c == '-' || c == '*'
}

/// The number of leading characters of `s` that satisfy `p`.
pub open spec fn leading_count(s: Seq<char>, p: spec_fn(char) -> bool) -> nat
    decreases s.len(),
{
    if s.len() > 0 && p(s[0]) {
        1 + leading_count(s.drop_first(), p)
    } else {
        0
    }
}

/// The number of trailing characters of `s` that satisfy `p`.
pub open spec fn trailing_count(s: Seq<char>, p: spec_fn(char) -> bool) -> nat
    decreases s.len(),
{
    if s.len() > 0 && p(s.last()) {
        1 + trailing_count(s.drop_last(), p)
    } else {
        0
    }
}

/// `s` without the leading characters that satisfy `p`, as `str::trim_start_matches` leaves it.
pub open spec fn strip_leading(s: Seq<char>, p: spec_fn(char) -> bool) -> Seq<char> {
    s.skip(leading_count(s, p) as int)
}

/// The test for one character.
pub open spec fn char_is(c: char) -> spec_fn(char) -> bool {
    |x: char| x == c
}

/// `s` without the leading and the trailing characters that satisfy `p`.
pub open spec fn strip_around(s: Seq<char>, p: spec_fn(char) -> bool) -> Seq<char> {
    let rest = strip_leading(s, p);
    rest.take(rest.len() - trailing_count(rest, p))
}

/// `s` without the leading and the trailing characters equal to `c`, as `str::trim_matches`
/// leaves it.
pub open spec fn strip_both(s: Seq<char>, c: char) -> Seq<char> {
    strip_around(s, char_is(c))
}

proof fn lemma_leading_count(s: Seq<char>, p: spec_fn(char) -> bool)
    ensures
        leading_count(s, p) <= s.len(),
        forall|k: int| 0 <= k < leading_count(s, p) ==> p(#[trigger] s[k]),
        leading_count(s, p) < s.len() ==> !p(s[leading_count(s, p) as int]),
    decreases s.len(),
{
    if s.len() > 0 && p(s[0]) {
        lemma_leading_count(s.drop_first(), p);
        assert forall|k: int| 0 <= k < leading_count(s, p) implies p(#[trigger] s[k]) by {
            if k > 0 {
                assert(s[k] == s.drop_first()[k - 1]);
            }
        }
    }
}

proof fn lemma_leading_count_unique(s: Seq<char>, p: spec_fn(char) -> bool, m: int)
    requires
        0 <= m <= s.len(),
        forall|k: int| 0 <= k < m ==> p(#[trigger] s[k]),
        m < s.len() ==> !p(s[m]),
    ensures
        leading_count(s, p) == m,
    decreases s.len(),
{
    if m > 0 {
        assert forall|k: int| 0 <= k < m - 1 implies p(#[trigger] s.drop_first()[k]) by {
            assert(s.drop_first()[k] == s[k + 1]);
        }
        lemma_leading_count_unique(s.drop_first(), p, m - 1);
    }
}

proof fn lemma_trailing_count_unique(s: Seq<char>, p: spec_fn(char) -> bool, m: int)
    requires
        0 <= m <= s.len(),
        forall|k: int| s.len() - m <= k < s.len() ==> p(#[trigger] s[k]),
        m < s.len() ==> !p(s[s.len() - 1 - m]),
    ensures
        trailing_count(s, p) == m,
    decreases s.len(),
{
    if m > 0 {
        assert forall|k: int| s.drop_last().len() - (m - 1) <= k < s.drop_last().len() implies p(#[trigger] s.drop_last()[k]) by {
            assert(s.drop_last()[k] == s[k]);
        }
        lemma_trailing_count_unique(s.drop_last(), p, m - 1);
    }
}

/// Drops the leading list markers (digits, '.', ')', '-', '*').
pub fn strip_list_marker(s: &Vec<char>) -> (r: Vec<char>)
    ensures
        r@ == strip_leading(s@, |c: char| list_marker(c)),
{
    let ghost p = |c: char| list_marker(c);
    let n = s.len();
    let mut i: usize = 0;
    while i < n && (('0' <= s[i] && s[i] <= '9') || s[i] == '.' || s[i] == ')' || s[i] == '-' || s[i] == '*')
        invariant
            i <= n,
            n == s@.len(),
            forall|k: int| 0 <= k < i ==> list_marker(#[trigger] s@[k]),
        decreases n - i,
    {
        i = i + 1;
    }
    proof {
        lemma_leading_count_unique(s@, p, i as int);
    }
    let mut r: Vec<char> = Vec::new();
    let mut j: usize = i;
    while j < n
        invariant
            i <= j <= n,
            n == s@.len(),
            r@ == s@.subrange(i as int, j as int),
        decreases n - j,
    {
        r.push(s[j]);
        j = j + 1;
    }
    proof {
        assert(r@ =~= s@.skip(i as int));
    }
    r
}

/// Drops the leading and trailing occurrences of `c`.
pub fn strip_char(s: &Vec<char>, c: char) -> (r: Vec<char>)
    ensures
        r@ == strip_both(s@, c),
{
    let ghost p = char_is(c);
    let n = s.len();
    let mut i: usize = 0;
    while i < n && s[i] == c
        invariant
            i <= n,
            n == s@.len(),
            forall|k: int| 0 <= k < i ==> #[trigger] s@[k] == c,
        decreases n - i,
    {
        i = i + 1;
    }
    proof {
        lemma_leading_count_unique(s@, p, i as int);
    }
    let ghost rest = s@.skip(i as int);
    let mut e: usize = n;
    while e > i && s[e - 1] == c
        invariant
            i <= e <= n,
            n == s@.len(),
            forall|k: int| e <= k < n ==> #[trigger] s@[k] == c,
        decreases e,
    {
        e = e - 1;
    }
    proof {
        assert(rest.len() == n - i);
        assert forall|k: int| rest.len() - (n - e) <= k < rest.len() implies p(#[trigger] rest[k]) by {
            assert(rest[k] == s@[k + i]);
        }
        if n - e < rest.len() {
            assert(rest[rest.len() - 1 - (n - e)] == s@[e - 1]);
        }
        lemma_trailing_count_unique(rest, p, (n - e) as int);
    }
    let mut r: Vec<char> = Vec::new();
    let mut j: usize = i;
    while j < e
        invariant
            i <= j <= e,
            e <= n,
            n == s@.len(),
            r@ == s@.subrange(i as int, j as int),
        decreases e - j,
    {
        r.push(s[j]);
        j = j + 1;
    }
    proof {
        assert(r@ =~= rest.take(rest.len() - (n - e)));
    }
    r
}

/// How a line of a model's answer is cleaned into a name candidate: trimmed, stripped of list
/// markers, trimmed, stripped of backticks and of asterisks, trimmed, and lowercased.
pub open spec fn clean_line(line: Seq<char>) -> Seq<char> {
    lowercase_of(
        trimmed(strip_both(strip_both(trimmed(strip_leading(trimmed(line), |c: char| list_marker(c))), '`'), '*')),
    )
}

/// The valid names of an answer, one per line, cleaned, in order.
pub open spec fn parsed_names(response: Seq<char>) -> Seq<Seq<char>> {
    text_lines(response).map_values(|l: Seq<char>| clean_line(l)).filter(|n: Seq<char>| valid_name(n))
}

/// Cleans one line of an answer into a name candidate.
pub fn clean_name_line(line: &str) -> (r: String)
    ensures
        r@ == clean_line(line@),
{
    let a = trim(line);
    let b = strip_list_marker(&chars_of(a.as_str()));
    let c = trim(string_of(b.as_slice()).as_str());
    let d = strip_char(&chars_of(c.as_str()), '`');
    let e = strip_char(&d, '*');
    let f = trim(string_of(e.as_slice()).as_str());
    to_lowercase(f.as_str())
}

/// Parses a model's answer into a clean list of names: each line is cleaned and kept if it
/// is a valid name.
pub fn parse_names(response: &str) -> (r: Vec<String>)
    ensures
        views(r@) == parsed_names(response@),
{
    let ls = lines(response);
    let ghost cleaned = text_lines(response@).map_values(|l: Seq<char>| clean_line(l));
    let ghost pred = |n: Seq<char>| valid_name(n);
    let mut r: Vec<String> = Vec::new();
    let mut i: usize = 0;
    while i < ls.len()
        invariant
            i <= ls@.len(),
            views(ls@) == text_lines(response@),
            cleaned == text_lines(response@).map_values(|l: Seq<char>| clean_line(l)),
            pred == (|n: Seq<char>| valid_name(n)),
            views(r@) == cleaned.take(i as int).filter(pred),
        decreases ls@.len() - i,
    {
        let name = clean_name_line(ls[i].as_str());
        proof {
            assert(views(ls@)[i as int] == ls@[i as int]@);
            assert(cleaned[i as int] == name@);
            assert(cleaned.take(i + 1) =~= cleaned.take(i as int).push(name@));
            cleaned.take(i as int).lemma_filter_push(name@, pred);
        }
        if validate_name(name.as_str()) {
            let ghost before = r@;
            r.push(name);
            proof {
                assert(views(r@) =~= views(before).push(r@.last()@));
            }
        }
        i = i + 1;
    }
    proof {
        assert(cleaned.take(ls@.len() as int) =~= cleaned);
    }
    r
}

/// The system prompt that asks a model for `count` project names.
pub open spec fn system_prompt_text(count: nat) -> Seq<char> {
    "You are a creative project naming assistant. Generate exactly "@ + decimal(count)
        + " unique, memorable project names based on the user's description. Output ONLY a numbered list (1-"@
        + decimal(count)
        + "), one name per line, no commentary. Names should be lowercase, use only letters, numbers, and hyphens, and be 2-40 characters long. Prefer short, catchy, easy-to-spell names that work well as package names and domain names."@
}

pub fn system_prompt(count: usize) -> (s: String)
    ensures
        s@ == system_prompt_text(count as nat),
{
    let n = decimal_string(count as u64);
    let mut s = String::from_str("You are a creative project naming assistant. Generate exactly ");
    s.append(n.as_str());
    s.append(" unique, memorable project names based on the user's description. Output ONLY a numbered list (1-");
    s.append(n.as_str());
    s.append("), one name per line, no commentary. Names should be lowercase, use only letters, numbers, and hyphens, and be 2-40 characters long. Prefer short, catchy, easy-to-spell names that work well as package names and domain names.");
    s
}

/// A model's answer to the naming prompt: the text, or the message of the error it failed with.
pub struct ModelAnswer {
    pub model: String,
    pub answer: Result<String, String>,
}

/// A proposed name and the models that suggested it, once per suggestion.
pub struct NameCandidate {
    pub name: String,
    pub suggested_by: Vec<String>,
}

/// A model whose answer failed.
pub struct GenerationError {
    pub model: String,
    pub error: String,
}

/// Every suggestion of the answers, in order: a (name, model) pair for each valid name of
/// each successful answer.
pub open spec fn suggestions(answers: Seq<ModelAnswer>) -> Seq<(Seq<char>, Seq<char>)>
    decreases answers.len(),
{
    if answers.len() == 0 {
        Seq::empty()
    } else {
        let last = answers.last();
        suggestions(answers.drop_last()) + match last.answer {
            Ok(text) => parsed_names(text@).map_values(|n: Seq<char>| (n, last.model@)),
            Err(_) => Seq::empty(),
        }
    }
}

/// The models that suggested `name`, once per suggestion, in order.
pub open spec fn suggesters(pairs: Seq<(Seq<char>, Seq<char>)>, name: Seq<char>) -> Seq<Seq<char>> {
    pairs.filter(has_name(name)).map_values(second_of())
}

/// Whether a suggestion is of `name`.
pub open spec fn has_name(n: Seq<char>) -> spec_fn((Seq<char>, Seq<char>)) -> bool {
    |p: (Seq<char>, Seq<char>)| p.0 == n
}

/// The model of a suggestion.
pub open spec fn second_of() -> spec_fn((Seq<char>, Seq<char>)) -> Seq<char> {
    |p: (Seq<char>, Seq<char>)| p.1
}

/// The name of a suggestion.
pub open spec fn first_of() -> spec_fn((Seq<char>, Seq<char>)) -> Seq<char> {
    |p: (Seq<char>, Seq<char>)| p.0
}

/// The set of suggested names.
pub open spec fn suggested_names(pairs: Seq<(Seq<char>, Seq<char>)>) -> Set<Seq<char>> {
    pairs.map_values(first_of()).to_set()
}

/// Strict lexicographic order on texts, by character code.
pub open spec fn lex_lt(a: Seq<char>, b: Seq<char>) -> bool
    decreases a.len(),
{
    if a.len() == 0 {
        b.len() > 0
    } else if b.len() == 0 {
        false
    } else if a[0] != b[0] {
        a[0] < b[0]
    } else {
        lex_lt(a.drop_first(), b.drop_first())
    }
}

/// Lexicographic order is decided at the first position where two texts differ: the text with
/// the smaller character there comes first, and a proper prefix comes before the longer text.
pub proof fn lex_lt_at_first_difference(a: Seq<char>, b: Seq<char>, k: int)
    requires
        0 <= k <= a.len(),
        k <= b.len(),
        a.take(k) == b.take(k),
    ensures
        k < a.len() && k < b.len() && a[k] != b[k] ==> (lex_lt(a, b) <==> a[k] < b[k]),
        k == a.len() && k < b.len() ==> lex_lt(a, b),
        k == b.len() ==> !lex_lt(a, b),
    decreases k,
{
    if k > 0 {
        assert(a[0] == a.take(k)[0]);
        assert(b[0] == b.take(k)[0]);
        assert(a.drop_first().take(k - 1) =~= a.take(k).drop_first());
        assert(b.drop_first().take(k - 1) =~= b.take(k).drop_first());
        lex_lt_at_first_difference(a.drop_first(), b.drop_first(), k - 1);
    }
}

pub proof fn lemma_lex_irreflexive(a: Seq<char>)
    ensures
        !lex_lt(a, a),
    decreases a.len(),
{
    if a.len() > 0 {
        lemma_lex_irreflexive(a.drop_first());
    }
}

pub proof fn lemma_lex_total(a: Seq<char>, b: Seq<char>)
    requires
        a != b,
    ensures
        lex_lt(a, b) || lex_lt(b, a),
    decreases a.len(),
{
    if a.len() > 0 && b.len() > 0 && a[0] == b[0] {
        if a.drop_first() == b.drop_first() {
            assert(a =~= seq![a[0]] + a.drop_first());
            assert(b =~= seq![b[0]] + b.drop_first());
        }
        lemma_lex_total(a.drop_first(), b.drop_first());
    } else if a.len() == 0 && b.len() == 0 {
        assert(a =~= b);
    }
}

pub proof fn lemma_lex_asymmetric(a: Seq<char>, b: Seq<char>)
    ensures
        lex_lt(a, b) ==> !lex_lt(b, a),
    decreases a.len(),
{
    if a.len() > 0 && b.len() > 0 && a[0] == b[0] {
        lemma_lex_asymmetric(a.drop_first(), b.drop_first());
    }
}

pub proof fn lemma_lex_transitive(a: Seq<char>, b: Seq<char>, c: Seq<char>)
    requires
        lex_lt(a, b),
        lex_lt(b, c),
    ensures
        lex_lt(a, c),
    decreases a.len(),
{
    if a.len() > 0 && b.len() > 0 && c.len() > 0 && a[0] == b[0] && b[0] == c[0] {
        lemma_lex_transitive(a.drop_first(), b.drop_first(), c.drop_first());
    }
}

/// Name candidates are ranked by the number of suggestions, most first, then by name.
pub open spec fn ranks_before(a: (nat, Seq<char>), b: (nat, Seq<char>)) -> bool {
    a.0 > b.0 || (a.0 == b.0 && lex_lt(a.1, b.1))
}

/// The rank key of a name candidate.
pub open spec fn rank_key(c: NameCandidate) -> (nat, Seq<char>) {
    (c.suggested_by@.len(), c.name@)
}

proof fn lemma_rank_total(a: (nat, Seq<char>), b: (nat, Seq<char>))
    requires
        a.1 != b.1,
    ensures
        ranks_before(a, b) || ranks_before(b, a),
        !(ranks_before(a, b) && ranks_before(b, a)),
{
    lemma_lex_total(a.1, b.1);
    lemma_lex_asymmetric(a.1, b.1);
}

proof fn lemma_rank_transitive(a: (nat, Seq<char>), b: (nat, Seq<char>), c: (nat, Seq<char>))
    requires
        ranks_before(a, b),
        ranks_before(b, c),
    ensures
        ranks_before(a, c),
{
    if a.0 == b.0 && b.0 == c.0 {
        lemma_lex_transitive(a.1, b.1, c.1);
    }
}

/// Whether `a` is lexicographically before `b`.
pub fn lex_less(a: &str, b: &str) -> (r: bool)
    ensures
        r == lex_lt(a@, b@),
{
    let x = chars_of(a);
    let y = chars_of(b);
    proof {
        assert(x@.skip(0) =~= x@);
        assert(y@.skip(0) =~= y@);
    }
    let mut i: usize = 0;
    while i < x.len() && i < y.len() && x[i] == y[i]
        invariant
            i <= x@.len(),
            i <= y@.len(),
            x@ == a@,
            y@ == b@,
            lex_lt(x@, y@) == lex_lt(x@.skip(i as int), y@.skip(i as int)),
        decreases x@.len() - i,
    {
        proof {
            assert(x@.skip(i as int).drop_first() =~= x@.skip(i + 1));
            assert(y@.skip(i as int).drop_first() =~= y@.skip(i + 1));
        }
        i = i + 1;
    }
    if i == x.len() {
        i < y.len()
    } else if i == y.len() {
        false
    } else {
        x[i] < y[i]
    }
}

/// Whether candidate `a` ranks before candidate `b`.
fn rank_less(a: &NameCandidate, b: &NameCandidate) -> (r: bool)
    ensures
        r == ranks_before(rank_key(*a), rank_key(*b)),
{
    if a.suggested_by.len() != b.suggested_by.len() {
        a.suggested_by.len() > b.suggested_by.len()
    } else {
        lex_less(a.name.as_str(), b.name.as_str())
    }
}

/// The names of a list of candidates.
pub open spec fn candidate_names(c: Seq<NameCandidate>) -> Seq<Seq<char>> {
    c.map_values(|x: NameCandidate| x.name@)
}

/// Strictly ranked: every candidate ranks before every later one.
pub open spec fn strictly_ranked(c: Seq<NameCandidate>) -> bool {
    forall|i: int, j: int| 0 <= i < j < c.len() ==> ranks_before(rank_key(#[trigger] c[i]), rank_key(#[trigger] c[j]))
}

/// The views of a (name, model) pair.
pub open spec fn pair_views(s: Seq<(String, String)>) -> Seq<(Seq<char>, Seq<char>)> {
    s.map_values(|p: (String, String)| (p.0@, p.1@))
}

/// The suggestions of one model's names.
pub open spec fn tagged(names: Seq<Seq<char>>, model: Seq<char>) -> Seq<(Seq<char>, Seq<char>)> {
    names.map_values(|n: Seq<char>| (n, model))
}

/// The (name, model) pairs of all suggestions, in order.
fn suggestion_pairs(answers: &Vec<ModelAnswer>) -> (r: Vec<(String, String)>)
    ensures
        pair_views(r@) == suggestions(answers@),
{
    let mut r: Vec<(String, String)> = Vec::new();
    let mut i: usize = 0;
    while i < answers.len()
        invariant
            i <= answers@.len(),
            pair_views(r@) == suggestions(answers@.take(i as int)),
        decreases answers@.len() - i,
    {
        proof {
            assert(answers@.take(i + 1).drop_last() =~= answers@.take(i as int));
            assert(answers@.take(i + 1).last() == answers@[i as int]);
        }
        let model = answers[i].model.clone();
        match &answers[i].answer {
            Ok(text) => {
                let names = parse_names(text.as_str());
                let ghost base = pair_views(r@);
                let mut k: usize = 0;
                while k < names.len()
                    invariant
                        k <= names@.len(),
                        views(names@) == parsed_names(text@),
                        pair_views(r@) == base + tagged(parsed_names(text@).take(k as int), model@),
                    decreases names@.len() - k,
                {
                    let ghost old_r = r@;
                    r.push((names[k].clone(), model.clone()));
                    proof {
                        assert(views(names@)[k as int] == names@[k as int]@);
                        assert(parsed_names(text@).take(k + 1) =~= parsed_names(text@).take(k as int).push(names@[k as int]@));
                        assert(pair_views(r@) =~= pair_views(old_r).push((names@[k as int]@, model@)));
                        assert(tagged(parsed_names(text@).take(k + 1), model@) =~=
                            tagged(parsed_names(text@).take(k as int), model@).push((names@[k as int]@, model@)));
                        assert(pair_views(r@) =~= base + tagged(parsed_names(text@).take(k + 1), model@));
                    }
                    k = k + 1;
                }
                proof {
                    assert(parsed_names(text@).take(names@.len() as int) =~= parsed_names(text@));
                    assert(tagged(parsed_names(text@), model@) =~= parsed_names(text@).map_values(|n: Seq<char>| (n, answers@[i as int].model@)));
                }
            },
            Err(_) => {
                proof {
                    assert(pair_views(r@) =~= suggestions(answers@.take(i + 1)));
                }
            },
        }
        i = i + 1;
    }
    proof {
        assert(answers@.take(answers@.len() as int) =~= answers@);
    }
    r
}

/// A copy of a list of strings.
pub fn clone_strings(v: &Vec<String>) -> (r: Vec<String>)
    ensures
        r@ == v@,
{
    let mut r: Vec<String> = Vec::new();
    let mut i: usize = 0;
    while i < v.len()
        invariant
            i <= v@.len(),
            r@ == v@.take(i as int),
        decreases v@.len() - i,
    {
        r.push(v[i].clone());
        proof {
            assert(v@.take(i + 1) =~= v@.take(i as int).push(v@[i as int]));
        }
        i = i + 1;
    }
    proof {
        assert(v@.take(v@.len() as int) =~= v@);
    }
    r
}

/// The position of the candidate named `name`, if any.
fn find_candidate(entries: &Vec<NameCandidate>, name: &String) -> (r: Option<usize>)
    ensures
        r matches Some(j) ==> j < entries@.len() && entries@[j as int].name@ == name@,
        r is None ==> !candidate_names(entries@).contains(name@),
{
    let mut j: usize = 0;
    while j < entries.len()
        invariant
            j <= entries@.len(),
            forall|k: int| 0 <= k < j ==> entries@[k].name@ != name@,
        decreases entries@.len() - j,
    {
        if str_eq(entries[j].name.as_str(), name.as_str()) {
            return Some(j);
        }
        j = j + 1;
    }
    proof {
        if candidate_names(entries@).contains(name@) {
            let k = choose|k: int| 0 <= k < candidate_names(entries@).len() && candidate_names(entries@)[k] == name@;
            assert(entries@[k].name@ == name@);
        }
    }
    None
}

proof fn lemma_suggesters_push(pv: Seq<(Seq<char>, Seq<char>)>, p: (Seq<char>, Seq<char>), n: Seq<char>)
    ensures
        suggesters(pv.push(p), n) == if p.0 == n { suggesters(pv, n).push(p.1) } else { suggesters(pv, n) },
{
    let f = has_name(n);
    pv.lemma_filter_push(p, f);
    if p.0 == n {
        assert(pv.filter(f).push(p).map_values(second_of()) =~= pv.filter(f).map_values(second_of()).push(p.1));
    }
}

proof fn lemma_suggested_names_push(pv: Seq<(Seq<char>, Seq<char>)>, p: (Seq<char>, Seq<char>))
    ensures
        suggested_names(pv.push(p)) == suggested_names(pv).insert(p.0),
{
    let f = first_of();
    assert(pv.push(p).map_values(f) =~= pv.map_values(f).push(p.0));
    pv.map_values(f).lemma_push_to_set_commute(p.0);
}

/// Gathers the suggestions by name: one candidate per distinct name, with the models that
/// suggested it.
fn gather(pairs: &Vec<(String, String)>) -> (entries: Vec<NameCandidate>)
    ensures
        candidate_names(entries@).no_duplicates(),
        candidate_names(entries@).to_set() == suggested_names(pair_views(pairs@)),
        forall|j: int| 0 <= j < entries@.len() ==>
            views(#[trigger] entries@[j].suggested_by@) == suggesters(pair_views(pairs@), entries@[j].name@),
{
    let ghost pv = pair_views(pairs@);
    let mut entries: Vec<NameCandidate> = Vec::new();
    let mut k: usize = 0;
    proof {
        assert(candidate_names(entries@).to_set() =~= suggested_names(pv.take(0)));
    }
    while k < pairs.len()
        invariant
            k <= pairs@.len(),
            pv == pair_views(pairs@),
            candidate_names(entries@).no_duplicates(),
            candidate_names(entries@).to_set() == suggested_names(pv.take(k as int)),
            forall|j: int| 0 <= j < entries@.len() ==>
                views(#[trigger] entries@[j].suggested_by@) == suggesters(pv.take(k as int), entries@[j].name@),
        decreases pairs@.len() - k,
    {
        let ghost p = pv[k as int];
        let ghost before = entries@;
        proof {
            assert(pv.take(k + 1) =~= pv.take(k as int).push(p));
            assert(p == (pairs@[k as int].0@, pairs@[k as int].1@));
            lemma_suggested_names_push(pv.take(k as int), p);
            assert forall|n: Seq<char>| #![trigger suggesters(pv.take(k + 1), n)]
                suggesters(pv.take(k + 1), n) == if p.0 == n { suggesters(pv.take(k as int), n).push(p.1) } else { suggesters(pv.take(k as int), n) } by {
                lemma_suggesters_push(pv.take(k as int), p, n);
            }
        }
        let name = &pairs[k].0;
        let model = &pairs[k].1;
        match find_candidate(&entries, name) {
            Some(j) => {
                let mut c = entries.remove(j);
                c.suggested_by.push(model.clone());
                entries.insert(j, c);
                proof {
                    assert(entries@ =~= before.update(j as int, entries@[j as int]));
                    assert(candidate_names(entries@) =~= candidate_names(before));
                    assert(candidate_names(before).contains(p.0)) by {
                        assert(candidate_names(before)[j as int] == p.0);
                    }
                    assert(candidate_names(entries@).to_set() =~= candidate_names(before).to_set().insert(p.0));
                    assert forall|i: int| 0 <= i < entries@.len() implies
                        views(#[trigger] entries@[i].suggested_by@) == suggesters(pv.take(k + 1), entries@[i].name@) by {
                        assert(suggesters(pv.take(k + 1), entries@[i].name@) == suggesters(pv.take(k + 1), entries@[i].name@));
                        if i == j {
                            assert(views(entries@[i].suggested_by@) =~= views(before[i].suggested_by@).push(p.1));
                        } else {
                            assert(entries@[i] == before[i]);
                            assert(before[i].name@ != p.0) by {
                                assert(candidate_names(before)[i] == before[i].name@);
                                assert(candidate_names(before)[j as int] == before[j as int].name@);
                            }
                        }
                    }
                }
            },
            None => {
                let mut by: Vec<String> = Vec::new();
                by.push(model.clone());
                entries.push(NameCandidate { name: name.clone(), suggested_by: by });
                proof {
                    assert(candidate_names(entries@) =~= candidate_names(before).push(p.0));
                    candidate_names(before).lemma_push_to_set_commute(p.0);
                    assert forall|i: int| 0 <= i < entries@.len() implies
                        views(#[trigger] entries@[i].suggested_by@) == suggesters(pv.take(k + 1), entries@[i].name@) by {
                        assert(suggesters(pv.take(k + 1), entries@[i].name@) == suggesters(pv.take(k + 1), entries@[i].name@));
                        if i == before.len() {
                            assert(!suggested_names(pv.take(k as int)).contains(p.0));
                            if suggesters(pv.take(k as int), p.0).len() > 0 {
                                let q = pv.take(k as int).filter(has_name(p.0))[0];
                                pv.take(k as int).lemma_filter_contains_rev(has_name(p.0), q);
                                let m = choose|m: int| 0 <= m < pv.take(k as int).len() && pv.take(k as int)[m] == q;
                                assert(pv.take(k as int).map_values(first_of())[m] == p.0);
                            }
                            assert(views(entries@[i].suggested_by@) =~= seq![p.1]);
                            assert(suggesters(pv.take(k as int), p.0) =~= Seq::<Seq<char>>::empty());
                        } else {
                            assert(entries@[i] == before[i]);
                            assert(before[i].name@ != p.0) by {
                                assert(candidate_names(before)[i] == before[i].name@);
                            }
                        }
                    }
                }
            },
        }
        k = k + 1;
    }
    proof {
        assert(pv.take(pairs@.len() as int) =~= pv);
    }
    entries
}

/// Every candidate of `c` carries the models that suggested its name.
pub open spec fn carries_suggesters(c: Seq<NameCandidate>, pv: Seq<(Seq<char>, Seq<char>)>) -> bool {
    forall|j: int| 0 <= j < c.len() ==> views(#[trigger] c[j].suggested_by@) == suggesters(pv, c[j].name@)
}

/// Sorts the candidates by rank: most suggestions first, then by name.
fn rank_sort(entries: Vec<NameCandidate>, Ghost(pv): Ghost<Seq<(Seq<char>, Seq<char>)>>) -> (r: Vec<NameCandidate>)
    requires
        candidate_names(entries@).no_duplicates(),
        carries_suggesters(entries@, pv),
    ensures
        strictly_ranked(r@),
        r@.len() == entries@.len(),
        candidate_names(r@).to_set() == candidate_names(entries@).to_set(),
        carries_suggesters(r@, pv),
{
    let n = entries.len();
    let mut ranked: Vec<NameCandidate> = Vec::new();
    let mut i: usize = 0;
    while i < n
        invariant
            i <= n,
            n == entries@.len(),
            candidate_names(entries@).no_duplicates(),
            carries_suggesters(entries@, pv),
            strictly_ranked(ranked@),
            ranked@.len() == i,
            candidate_names(ranked@).to_set() == candidate_names(entries@.take(i as int)).to_set(),
            carries_suggesters(ranked@, pv),
        decreases n - i,
    {
        let e = NameCandidate { name: entries[i].name.clone(), suggested_by: clone_strings(&entries[i].suggested_by) };
        let ghost ek = rank_key(e);
        proof {
            assert(candidate_names(entries@)[i as int] == e.name@);
            assert(!candidate_names(ranked@).contains(e.name@)) by {
                if candidate_names(ranked@).contains(e.name@) {
                    assert(candidate_names(ranked@).to_set().contains(e.name@));
                    assert(candidate_names(entries@.take(i as int)).contains(e.name@));
                    let m = choose|m: int| 0 <= m < i && candidate_names(entries@.take(i as int))[m] == e.name@;
                    assert(candidate_names(entries@)[m] == e.name@);
                }
            }
        }
        let mut p: usize = 0;
        while p < ranked.len() && !rank_less(&e, &ranked[p])
            invariant
                p <= ranked@.len(),
                ek == rank_key(e),
                !candidate_names(ranked@).contains(e.name@),
                forall|q: int| 0 <= q < p ==> ranks_before(rank_key(#[trigger] ranked@[q]), ek),
            decreases ranked@.len() - p,
        {
            proof {
                assert(candidate_names(ranked@)[p as int] == ranked@[p as int].name@);
                lemma_rank_total(rank_key(ranked@[p as int]), ek);
            }
            p = p + 1;
        }
        let ghost before = ranked@;
        ranked.insert(p, e);
        proof {
            assert(ranked@ == before.insert(p as int, e));
            if p < before.len() {
                assert(ranks_before(ek, rank_key(before[p as int])));
            }
            assert forall|a: int, b: int| 0 <= a < b < ranked@.len() implies
                ranks_before(rank_key(#[trigger] ranked@[a]), rank_key(#[trigger] ranked@[b])) by {
                if b < p {
                } else if b == p {
                } else if a < p {
                    assert(ranked@[b] == before[b - 1]);
                    assert(ranks_before(rank_key(before[a]), ek));
                    if b - 1 == p {
                        lemma_rank_transitive(rank_key(before[a]), ek, rank_key(before[b - 1]));
                    } else {
                        assert(ranks_before(rank_key(before[p as int]), rank_key(before[b - 1])));
                        lemma_rank_transitive(ek, rank_key(before[p as int]), rank_key(before[b - 1]));
                        lemma_rank_transitive(rank_key(before[a]), ek, rank_key(before[b - 1]));
                    }
                } else if a == p {
                    assert(ranked@[b] == before[b - 1]);
                    if b - 1 > p {
                        assert(ranks_before(rank_key(before[p as int]), rank_key(before[b - 1])));
                        lemma_rank_transitive(ek, rank_key(before[p as int]), rank_key(before[b - 1]));
                    }
                } else {
                    assert(ranked@[a] == before[a - 1]);
                    assert(ranked@[b] == before[b - 1]);
                }
            }
            assert(candidate_names(ranked@) =~= candidate_names(before).insert(p as int, e.name@));
            assert(entries@.take(i + 1) =~= entries@.take(i as int).push(entries@[i as int]));
            assert(candidate_names(entries@.take(i + 1)) =~= candidate_names(entries@.take(i as int)).push(e.name@));
            candidate_names(entries@.take(i as int)).lemma_push_to_set_commute(e.name@);
            assert(candidate_names(ranked@).to_set() =~= candidate_names(before).to_set().insert(e.name@)) by {
                assert forall|x: Seq<char>| candidate_names(ranked@).contains(x) implies candidate_names(before).to_set().insert(e.name@).contains(x) by {
                    let m = choose|m: int| 0 <= m < candidate_names(ranked@).len() && candidate_names(ranked@)[m] == x;
                    if m < p {
                        assert(candidate_names(before)[m] == x);
                    } else if m > p {
                        assert(candidate_names(before)[m - 1] == x);
                    }
                }
                assert forall|x: Seq<char>| candidate_names(before).to_set().insert(e.name@).contains(x) implies candidate_names(ranked@).contains(x) by {
                    if x == e.name@ {
                        assert(candidate_names(ranked@)[p as int] == x);
                    } else {
                        let m = choose|m: int| 0 <= m < candidate_names(before).len() && candidate_names(before)[m] == x;
                        if m < p {
                            assert(candidate_names(ranked@)[m] == x);
                        } else {
                            assert(candidate_names(ranked@)[m + 1] == x);
                        }
                    }
                }
            }
            assert(views(e.suggested_by@) == suggesters(pv, e.name@)) by {
                assert(views(entries@[i as int].suggested_by@) == suggesters(pv, entries@[i as int].name@));
            }
            assert forall|j: int| 0 <= j < ranked@.len() implies
                views(#[trigger] ranked@[j].suggested_by@) == suggesters(pv, ranked@[j].name@) by {
                if j < p {
                    assert(ranked@[j] == before[j]);
                } else if j > p {
                    assert(ranked@[j] == before[j - 1]);
                }
            }
        }
        i = i + 1;
    }
    proof {
        assert(entries@.take(n as int) =~= entries@);
    }
    ranked
}

/// The failed answers, in order: (model, error message).
pub open spec fn failures(answers: Seq<ModelAnswer>) -> Seq<(Seq<char>, Seq<char>)>
    decreases answers.len(),
{
    if answers.len() == 0 {
        Seq::empty()
    } else {
        failures(answers.drop_last()) + match answers.last().answer {
            Ok(_) => Seq::empty(),
            Err(e) => seq![(answers.last().model@, e@)],
        }
    }
}

/// The views of a list of generation errors.
pub open spec fn error_views(e: Seq<GenerationError>) -> Seq<(Seq<char>, Seq<char>)> {
    e.map_values(|x: GenerationError| (x.model@, x.error@))
}

fn collect_failures(answers: &Vec<ModelAnswer>) -> (r: Vec<GenerationError>)
    ensures
        error_views(r@) == failures(answers@),
{
    let mut r: Vec<GenerationError> = Vec::new();
    let mut i: usize = 0;
    while i < answers.len()
        invariant
            i <= answers@.len(),
            error_views(r@) == failures(answers@.take(i as int)),
        decreases answers@.len() - i,
    {
        proof {
            assert(answers@.take(i + 1).drop_last() =~= answers@.take(i as int));
            assert(answers@.take(i + 1).last() == answers@[i as int]);
        }
        let ghost before = r@;
        match &answers[i].answer {
            Ok(_) => {
                proof {
                    assert(failures(answers@.take(i + 1)) =~= failures(answers@.take(i as int)));
                }
            },
            Err(e) => {
                r.push(GenerationError { model: answers[i].model.clone(), error: e.clone() });
                proof {
                    assert(error_views(r@) =~= error_views(before).push((answers@[i as int].model@, e@)));
                }
            },
        }
        i = i + 1;
    }
    proof {
        assert(answers@.take(answers@.len() as int) =~= answers@);
    }
    r
}

/// Turns the models' answers into ranked name candidates and a list of failures: each
/// distinct valid name becomes one candidate carrying the models that suggested it; the
/// candidates are ranked by number of suggestions (most first) and then by name, and only the
/// first `max_names` are kept.
pub fn rank_name_candidates(answers: &Vec<ModelAnswer>, max_names: usize) -> (r: (Vec<NameCandidate>, Vec<GenerationError>))
    ensures
        ({
            let pv = suggestions(answers@);
            let names = suggested_names(pv);
            let kept = r.0@;
            &&& strictly_ranked(kept)
            &&& candidate_names(kept).no_duplicates()
            &&& kept.len() == if max_names < names.len() { max_names as nat } else { names.len() }
            &&& forall|j: int| 0 <= j < kept.len() ==> names.contains(#[trigger] kept[j].name@)
            &&& carries_suggesters(kept, pv)
            &&& forall|n: Seq<char>, j: int|
                #![trigger names.contains(n), kept[j]]
                names.contains(n) && !candidate_names(kept).contains(n) && 0 <= j < kept.len()
                    ==> ranks_before(rank_key(kept[j]), (suggesters(pv, n).len(), n))
            &&& forall|i: int, j: int|
                0 <= i < j < kept.len() ==> (#[trigger] kept[i]).suggested_by@.len() >= (#[trigger] kept[j]).suggested_by@.len()
            &&& forall|i: int, j: int|
                0 <= i < j < kept.len() && (#[trigger] kept[i]).suggested_by@.len() == (#[trigger] kept[j]).suggested_by@.len()
                    ==> lex_lt(kept[i].name@, kept[j].name@)
            &&& forall|n: Seq<char>, j: int|
                #![trigger names.contains(n), kept[j]]
                names.contains(n) && !candidate_names(kept).contains(n) && 0 <= j < kept.len()
                    ==> kept[j].suggested_by@.len() >= suggesters(pv, n).len()
        }),
        error_views(r.1@) == failures(answers@),
{
    let pairs = suggestion_pairs(answers);
    let ghost pv = pair_views(pairs@);
    let entries = gather(&pairs);
    let mut ranked = rank_sort(entries, Ghost(pv));
    let ghost full = ranked@;
    proof {
        candidate_names(entries@).unique_seq_to_set();
        assert(candidate_names(full).len() == full.len());
        assert(candidate_names(full).to_set().len() == full.len());
        candidate_names(full).lemma_no_dup_set_cardinality();
        assert(suggested_names(pv).len() == full.len());
    }
    ranked.truncate(max_names);
    proof {
        let kept = ranked@;
        assert(kept =~= if max_names < full.len() { full.take(max_names as int) } else { full });
        assert(candidate_names(kept) =~= if max_names < full.len() { candidate_names(full).take(max_names as int) } else { candidate_names(full) });
        assert forall|a: int, b: int| 0 <= a < b < kept.len() implies candidate_names(kept)[a] != candidate_names(kept)[b] by {
            assert(candidate_names(kept)[a] == candidate_names(full)[a]);
            assert(candidate_names(kept)[b] == candidate_names(full)[b]);
        }
        assert forall|j: int| 0 <= j < kept.len() implies suggested_names(pv).contains(#[trigger] kept[j].name@) by {
            assert(kept[j] == full[j]);
            assert(candidate_names(full)[j] == full[j].name@);
            assert(candidate_names(full).to_set().contains(full[j].name@));
        }
        assert forall|n: Seq<char>, j: int|
            #![trigger suggested_names(pv).contains(n), kept[j]]
            suggested_names(pv).contains(n) && !candidate_names(kept).contains(n) && 0 <= j < kept.len()
                implies ranks_before(rank_key(kept[j]), (suggesters(pv, n).len(), n)) by {
            assert(candidate_names(full).to_set().contains(n));
            let m = choose|m: int| 0 <= m < candidate_names(full).len() && candidate_names(full)[m] == n;
            assert(full[m].name@ == n);
            assert(views(full[m].suggested_by@) == suggesters(pv, n));
            assert(rank_key(full[m]) == (suggesters(pv, n).len(), n));
            if m < kept.len() {
                assert(candidate_names(kept)[m] == n);
            }
            assert(kept[j] == full[j]);
        }
        assert forall|j: int| 0 <= j < kept.len() implies views(#[trigger] kept[j].suggested_by@) == suggesters(pv, kept[j].name@) by {
            assert(kept[j] == full[j]);
        }
        assert forall|a: int, b: int| 0 <= a < b < kept.len() implies
            ranks_before(rank_key(#[trigger] kept[a]), rank_key(#[trigger] kept[b])) by {
            assert(kept[a] == full[a]);
            assert(kept[b] == full[b]);
        }
        ranked_by_suggestion_count(kept);
        assert forall|n: Seq<char>, j: int|
            #![trigger suggested_names(pv).contains(n), kept[j]]
            suggested_names(pv).contains(n) && !candidate_names(kept).contains(n) && 0 <= j < kept.len()
                implies kept[j].suggested_by@.len() >= suggesters(pv, n).len() by {
            assert(ranks_before(rank_key(kept[j]), (suggesters(pv, n).len(), n)));
        }
    }
    let errors = collect_failures(answers);
    (ranked, errors)
}

/// Along a strictly ranked list of candidates the number of models that suggested a name never
/// grows, and candidates suggested by equally many models come in name order.
pub proof fn ranked_by_suggestion_count(c: Seq<NameCandidate>)
    requires
        strictly_ranked(c),
    ensures
        forall|i: int, j: int|
            0 <= i < j < c.len() ==> (#[trigger] c[i]).suggested_by@.len() >= (#[trigger] c[j]).suggested_by@.len(),
        forall|i: int, j: int|
            0 <= i < j < c.len() && (#[trigger] c[i]).suggested_by@.len() == (#[trigger] c[j]).suggested_by@.len()
                ==> lex_lt(c[i].name@, c[j].name@),
{
    assert forall|i: int, j: int| 0 <= i < j < c.len() implies (#[trigger] c[i]).suggested_by@.len()
        >= (#[trigger] c[j]).suggested_by@.len() by {
        assert(ranks_before(rank_key(c[i]), rank_key(c[j])));
    }
    assert forall|i: int, j: int|
        0 <= i < j < c.len() && (#[trigger] c[i]).suggested_by@.len() == (#[trigger] c[j]).suggested_by@.len()
            implies lex_lt(c[i].name@, c[j].name@) by {
        assert(ranks_before(rank_key(c[i]), rank_key(c[j])));
    }
}

/// Every name parsed from an answer is a valid name.
pub proof fn parsed_names_are_valid(response: Seq<char>)
    ensures
        forall|i: int| 0 <= i < parsed_names(response).len() ==> valid_name(#[trigger] parsed_names(response)[i]),
{
    let cleaned = text_lines(response).map_values(|l: Seq<char>| clean_line(l));
    let pred = |n: Seq<char>| valid_name(n);
    assert forall|i: int| 0 <= i < parsed_names(response).len() implies valid_name(#[trigger] parsed_names(response)[i]) by {
        cleaned.lemma_filter_pred(pred, i);
    }
}

} // verus!
