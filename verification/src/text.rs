use vstd::prelude::*;

use vstd::std_specs::iter::IteratorSpec;
use vstd::string::StringExecFns;

use crate::check::{split_by, split_where};
use crate::ratio::{Ratio, Threshold};

verus! {

/// The view of each string of a sequence.
pub open spec fn views(v: Seq<String>) -> Seq<Seq<char>> {
    v.map_values(|w: String| w@)
}

/// What `str::to_lowercase` gives back for a text.
pub uninterp spec fn lowercase_of(s: Seq<char>) -> Seq<char>;

/// The characters with the Unicode property White_Space.
pub open spec fn white_space(c: char) -> bool {
    ('\u{9}' <= c <= '\u{d}') || c == ' ' || c == '\u{85}' || c == '\u{a0}' || c == '\u{1680}'
        || ('\u{2000}' <= c <= '\u{200a}') || c == '\u{2028}' || c == '\u{2029}' || c == '\u{202f}'
        || c == '\u{205f}' || c == '\u{3000}'
}

/// The words of a text, in order: the non-empty pieces between its white-space characters.
pub open spec fn whitespace_words(s: Seq<char>) -> Seq<Seq<char>> {
    split_by(s, |c: char| white_space(c)).filter(|w: Seq<char>| w.len() > 0)
}

/// Calls `str::to_lowercase`; the contract only names the result `lowercase_of` of the text.
#[verifier::external_body]
pub(crate) fn to_lowercase(s: &str) -> (r: String)
    ensures
        r@ == lowercase_of(s@),
{
    s.to_lowercase()
}

/// Whether `c` has the Unicode property White_Space.
pub fn is_white_space(c: char) -> (r: bool)
    ensures
        r == white_space(c),
{
    ('\u{9}' <= c && c <= '\u{d}') || c == ' ' || c == '\u{85}' || c == '\u{a0}' || c == '\u{1680}'
        || ('\u{2000}' <= c && c <= '\u{200a}') || c == '\u{2028}' || c == '\u{2029}' || c == '\u{202f}'
        || c == '\u{205f}' || c == '\u{3000}'
}

/// The words of a text, in order, as `str::split_whitespace` gives them.
pub fn split_whitespace(s: &str) -> (r: Vec<String>)
    ensures
        views(r@) == whitespace_words(s@),
{
    let cs = chars_of(s);
    let ghost sep = |c: char| white_space(c);
    let mut flags: Vec<bool> = Vec::new();
    let mut i: usize = 0;
    while i < cs.len()
        invariant
            i <= cs@.len(),
            flags@.len() == i,
            sep == (|c: char| white_space(c)),
            forall|j: int| 0 <= j < i ==> flags@[j] == sep(#[trigger] cs@[j]),
        decreases cs@.len() - i,
    {
        flags.push(is_white_space(cs[i]));
        i = i + 1;
    }
    let pieces = split_where(&cs, &flags, Ghost(sep));
    let ghost pred = |w: Seq<char>| w.len() > 0;
    let mut r: Vec<String> = Vec::new();
    let mut k: usize = 0;
    while k < pieces.len()
        invariant
            k <= pieces@.len(),
            pred == (|w: Seq<char>| w.len() > 0),
            views(r@) == views(pieces@).take(k as int).filter(pred),
        decreases pieces@.len() - k,
    {
        proof {
            assert(views(pieces@).take(k + 1) =~= views(pieces@).take(k as int).push(pieces@[k as int]@));
            views(pieces@).take(k as int).lemma_filter_push(pieces@[k as int]@, pred);
        }
        if !pieces[k].as_str().is_empty() {
            let ghost before = views(r@);
            r.push(pieces[k].clone());
            proof {
                assert(views(r@) =~= before.push(pieces@[k as int]@));
            }
        }
        k = k + 1;
    }
    proof {
        assert(views(pieces@).take(pieces@.len() as int) =~= views(pieces@));
        assert(cs@ == s@);
    }
    r
}

/// The characters of a text, in order.
pub fn chars_of(s: &str) -> (r: Vec<char>)
    ensures
        r@ == s@,
{
    broadcast use vstd::string::axiom_spec_iter, vstd::string::next_postcondition;
    let mut it = s.chars();
    let mut r: Vec<char> = Vec::new();
    loop
        invariant
            r@ + it.remaining() == s@,
            it.obeys_prophetic_iter_laws(),
        ensures
            r@ == s@,
        decreases s@.len() - r@.len(),
    {
        match it.next() {
            Some(c) => {
                r.push(c);
                proof {
                    assert(r@ + it.remaining() =~= s@);
                }
            },
            None => {
                proof {
                    assert(r@ =~= s@);
                }
                break;
            },
        }
    }
    r
}

/// Collects characters into a `String` whose view is those characters.
#[verifier::external_body]
pub(crate) fn string_of(v: &[char]) -> (r: String)
    ensures
        r@ == v@,
{
    v.iter().collect()
}

/// Consecutive character pairs of a text.
pub open spec fn bigrams(s: Seq<char>) -> Seq<(char, char)> {
    if s.len() < 2 {
        Seq::empty()
    } else {
        Seq::new((s.len() - 1) as nat, |i: int| (s[i], s[i + 1]))
    }
}

/// How many bigrams of `a`, counted with repetition, occur somewhere among the bigrams of `b`.
pub open spec fn bigram_overlap(a: Seq<char>, b: Seq<char>) -> nat {
    bigrams(a).filter(|x: (char, char)| bigrams(b).contains(x)).len()
}

/// Bigram (Dice) similarity of two already lowercased texts as a fraction `(numerator,
/// denominator)`: one for equal texts, zero when either is shorter than two characters, and
/// otherwise twice the bigrams of `a` found in `b` over the total number of bigrams, taken as
/// one where it would exceed one (the similarity is normalized to the range zero to one).
pub open spec fn bigram_fraction(a: Seq<char>, b: Seq<char>) -> (int, int) {
    if a == b {
        (1, 1)
    } else if a.len() < 2 || b.len() < 2 {
        (0, 1)
    } else {
        let num = 2 * bigram_overlap(a, b) as int;
        let den = (a.len() - 1) + (b.len() - 1);
        (if num <= den { num } else { den }, den)
    }
}

/// Whether two texts, compared case-insensitively by bigram overlap, reach the threshold.
pub open spec fn bigram_similar(a: Seq<char>, b: Seq<char>, t: Threshold) -> bool {
    let f = bigram_fraction(lowercase_of(a), lowercase_of(b));
    t.admits(f.0, f.1)
}

/// The bigram similarity of lowercased texts is a fraction from zero to one with a positive
/// denominator.
pub proof fn bigram_similarity_bounded(a: Seq<char>, b: Seq<char>)
    ensures
        0 <= bigram_fraction(a, b).0 <= bigram_fraction(a, b).1,
        bigram_fraction(a, b).1 > 0,
{
}

/// The bigrams of a text.
pub fn bigrams_of(v: &Vec<char>) -> (r: Vec<(char, char)>)
    ensures
        r@ == bigrams(v@),
{
    let n = v.len();
    let mut r: Vec<(char, char)> = Vec::new();
    if n < 2 {
        proof {
            assert(r@ =~= bigrams(v@));
        }
        return r;
    }
    let mut j: usize = 0;
    while j + 1 < n
        invariant
            n == v@.len(),
            n >= 2,
            j + 1 <= n,
            r@ == bigrams(v@).take(j as int),
        decreases n - j,
    {
        r.push((v[j], v[j + 1]));
        proof {
            assert(r@ =~= bigrams(v@).take(j + 1));
        }
        j = j + 1;
    }
    proof {
        assert(bigrams(v@).take(j as int) =~= bigrams(v@));
    }
    r
}

/// Whether `x` occurs in `ys`.
pub fn contains_pair(ys: &Vec<(char, char)>, x: (char, char)) -> (r: bool)
    ensures
        r == ys@.contains(x),
{
    let mut j: usize = 0;
    while j < ys.len()
        invariant
            j <= ys@.len(),
            forall|k: int| 0 <= k < j ==> ys@[k] != x,
        decreases ys@.len() - j,
    {
        if ys[j].0 == x.0 && ys[j].1 == x.1 {
            return true;
        }
        j = j + 1;
    }
    false
}

/// How many bigrams of `a`, counted with repetition, occur among the bigrams of `b`.
pub fn bigram_overlap_of(a: &Vec<char>, b: &Vec<char>) -> (m: u64)
    ensures
        m == bigram_overlap(a@, b@),
{
    let pa = bigrams_of(a);
    let pb = bigrams_of(b);
    let ghost pred = |x: (char, char)| bigrams(b@).contains(x);
    let mut m: u64 = 0;
    let mut i: usize = 0;
    while i < pa.len()
        invariant
            i <= pa@.len(),
            pa@ == bigrams(a@),
            pb@ == bigrams(b@),
            pred == (|x: (char, char)| bigrams(b@).contains(x)),
            m == pa@.take(i as int).filter(pred).len(),
            m <= i,
        decreases pa@.len() - i,
    {
        proof {
            assert(pa@.take(i + 1) =~= pa@.take(i as int).push(pa@[i as int]));
            pa@.take(i as int).lemma_filter_push(pa@[i as int], pred);
        }
        if contains_pair(&pb, pa[i]) {
            m = m + 1;
        }
        i = i + 1;
    }
    proof {
        assert(pa@.take(i as int) =~= pa@);
    }
    m
}

/// Whether two character sequences are equal.
fn same_chars(a: &Vec<char>, b: &Vec<char>) -> (r: bool)
    ensures
        r == (a@ == b@),
{
    if a.len() != b.len() {
        return false;
    }
    let mut k: usize = 0;
    while k < a.len()
        invariant
            k <= a@.len(),
            a@.len() == b@.len(),
            forall|j: int| 0 <= j < k ==> a@[j] == b@[j],
        decreases a@.len() - k,
    {
        if a[k] != b[k] {
            return false;
        }
        k = k + 1;
    }
    proof {
        assert(a@ =~= b@);
    }
    true
}

/// The bigram similarity of two (already lowercased) texts as an exact fraction.
pub fn bigram_fraction_of(a: &Vec<char>, b: &Vec<char>) -> (r: (u128, u128))
    ensures
        r.0 as int == bigram_fraction(a@, b@).0,
        r.1 as int == bigram_fraction(a@, b@).1,
        r.0 <= r.1,
        r.1 <= 0x4_0000_0000_0000_0000u128,
{
    if same_chars(a, b) {
        return (1, 1);
    }
    if a.len() < 2 || b.len() < 2 {
        return (0, 1);
    }
    let m = bigram_overlap_of(a, b);
    let num: u128 = 2 * (m as u128);
    let den: u128 = (a.len() as u128 - 1) + (b.len() as u128 - 1);
    if num <= den {
        (num, den)
    } else {
        (den, den)
    }
}

/// The similarity test of vote grouping: whether `a` and `b`, lowercased, have bigram
/// similarity at least `t`.
pub fn bigram_similarity_reaches(a: &str, b: &str, t: &Threshold) -> (r: bool)
    ensures
        r == bigram_similar(a@, b@, *t),
{
    let la = to_lowercase(a);
    let lb = to_lowercase(b);
    let ca = chars_of(la.as_str());
    let cb = chars_of(lb.as_str());
    let (num, den) = bigram_fraction_of(&ca, &cb);
    t.admits_exec(num, den)
}

/// The distinct words of a text, as a set.
pub open spec fn word_set(s: Seq<char>) -> Set<Seq<char>> {
    whitespace_words(s).to_set()
}

/// Word-set (Jaccard) similarity of two texts, compared case-insensitively, as a fraction:
/// one for equal texts or two texts without words, otherwise the size of the intersection of
/// their word sets over the size of the union.
pub open spec fn text_fraction(a: Seq<char>, b: Seq<char>) -> (int, int) {
    let la = lowercase_of(a);
    let lb = lowercase_of(b);
    if la == lb {
        (1, 1)
    } else {
        word_fraction(word_set(la), word_set(lb))
    }
}

/// Jaccard similarity of two word sets as a fraction: one where both are empty, otherwise the
/// size of their intersection over the size of their union.
pub open spec fn word_fraction(sa: Set<Seq<char>>, sb: Set<Seq<char>>) -> (int, int) {
    if sa.len() == 0 && sb.len() == 0 {
        (1, 1)
    } else {
        (sa.intersect(sb).len() as int, sa.union(sb).len() as int)
    }
}

/// Whether `s` occurs in `v`.
pub fn contains_string(v: &Vec<String>, s: &String) -> (r: bool)
    ensures
        r == views(v@).contains(s@),
{
    let mut i: usize = 0;
    while i < v.len()
        invariant
            i <= v@.len(),
            forall|k: int| 0 <= k < i ==> views(v@)[k] != s@,
        decreases v@.len() - i,
    {
        if v[i] == *s {
            assert(views(v@)[i as int] == s@);
            return true;
        }
        i = i + 1;
    }
    false
}

/// The distinct strings of `v`, in order of first occurrence.
pub fn distinct_strings(v: &Vec<String>) -> (u: Vec<String>)
    ensures
        views(u@).no_duplicates(),
        views(u@).to_set() == views(v@).to_set(),
        u@.len() <= v@.len(),
{
    let mut u: Vec<String> = Vec::new();
    let mut i: usize = 0;
    while i < v.len()
        invariant
            i <= v@.len(),
            views(u@).no_duplicates(),
            views(u@).to_set() == views(v@.take(i as int)).to_set(),
            u@.len() <= i,
        decreases v@.len() - i,
    {
        proof {
            assert(v@.take(i as int + 1) =~= v@.take(i as int).push(v@[i as int]));
            assert(views(v@.take(i as int + 1)) =~= views(v@.take(i as int)).push(v@[i as int]@));
            views(v@.take(i as int)).lemma_push_to_set_commute(v@[i as int]@);
        }
        if !contains_string(&u, &v[i]) {
            let ghost old_u = u@;
            u.push(v[i].clone());
            proof {
                assert(views(u@) =~= views(old_u).push(v@[i as int]@));
                views(old_u).lemma_push_to_set_commute(v@[i as int]@);
            }
        } else {
            proof {
                assert(views(u@).to_set().contains(v@[i as int]@));
                assert(views(u@).to_set().insert(v@[i as int]@) =~= views(u@).to_set());
            }
        }
        i = i + 1;
    }
    proof {
        assert(v@.take(v@.len() as int) =~= v@);
    }
    u
}

/// The Jaccard similarity of the word sets of two word lists, as an exact fraction.
pub fn word_fraction_of(wa: &Vec<String>, wb: &Vec<String>) -> (r: (u128, u128))
    ensures
        r.0 as int == word_fraction(views(wa@).to_set(), views(wb@).to_set()).0,
        r.1 as int == word_fraction(views(wa@).to_set(), views(wb@).to_set()).1,
        0 < r.1,
        r.0 <= r.1 <= 0x4_0000_0000_0000_0000u128,
{
    let ua = distinct_strings(&wa);
    let ub = distinct_strings(&wb);
    let ghost sa = views(wa@).to_set();
    let ghost sb = views(wb@).to_set();
    proof {
        views(ua@).unique_seq_to_set();
        views(ub@).unique_seq_to_set();
    }
    if ua.len() == 0 && ub.len() == 0 {
        return (1, 1);
    }
    // words of `ua` that also occur in `ub`
    let mut common: usize = 0;
    let ghost mut shared: Seq<Seq<char>> = Seq::empty();
    let mut i: usize = 0;
    while i < ua.len()
        invariant
            i <= ua@.len(),
            views(ua@).no_duplicates(),
            views(ub@).to_set() == sb,
            shared.no_duplicates(),
            shared.len() == common,
            common <= i,
            shared.to_set() == views(ua@.take(i as int)).to_set().intersect(sb),
        decreases ua@.len() - i,
    {
        let ghost w = ua@[i as int]@;
        proof {
            assert(ua@.take(i as int + 1) =~= ua@.take(i as int).push(ua@[i as int]));
            assert(views(ua@.take(i as int + 1)) =~= views(ua@.take(i as int)).push(w));
            views(ua@.take(i as int)).lemma_push_to_set_commute(w);
            assert(!views(ua@.take(i as int)).contains(w)) by {
                if views(ua@.take(i as int)).contains(w) {
                    let k = choose|k: int| 0 <= k < i && views(ua@.take(i as int))[k] == w;
                    assert(views(ua@)[k] == views(ua@)[i as int]);
                }
            }
        }
        if contains_string(&ub, &ua[i]) {
            proof {
                assert(shared.contains(w) ==> shared.to_set().contains(w));
                assert(!shared.contains(w));
                shared.lemma_push_to_set_commute(w);
                shared = shared.push(w);
            }
            common = common + 1;
        } else {
            proof {
                assert(!sb.contains(w));
            }
        }
        proof {
            assert(shared.to_set() =~= views(ua@.take(i as int + 1)).to_set().intersect(sb));
        }
        i = i + 1;
    }
    proof {
        assert(ua@.take(ua@.len() as int) =~= ua@);
        assert(views(ua@).len() == ua@.len());
        assert(views(ub@).len() == ub@.len());
        assert(views(ua@).to_set() == sa);
        assert(sa.finite() && sb.finite());
        shared.unique_seq_to_set();
        assert(shared.to_set() == sa.intersect(sb));
        vstd::set_lib::lemma_len_subset(sa.intersect(sb), sb);
        assert(common <= ub@.len());
        vstd::set_lib::lemma_set_intersect_union_lens(sa, sb);
        assert(sa.union(sb) == sa + sb);
    }
    let union: u128 = (ua.len() as u128 - common as u128) + ub.len() as u128;
    (common as u128, union)
}

/// Word-set similarity used for debate convergence and dissent detection.
pub fn text_similarity(a: &str, b: &str) -> (r: Ratio)
    ensures
        r.num == text_fraction(a@, b@).0,
        r.den == text_fraction(a@, b@).1,
        r.wf(),
        r.num <= r.den <= 0x4_0000_0000_0000_0000u128,
{
    let la = to_lowercase(a);
    let lb = to_lowercase(b);
    if la == lb {
        return Ratio::one();
    }
    let wa = split_whitespace(la.as_str());
    let wb = split_whitespace(lb.as_str());
    proof {
        assert(views(wa@) == whitespace_words(la@));
        assert(views(wb@) == whitespace_words(lb@));
    }
    let (num, den) = word_fraction_of(&wa, &wb);
    Ratio::new(num, den)
}

/// `s` with every non-overlapping occurrence of `pat`, found left to right, replaced by
/// `rep`, as `str::replace` does for a non-empty pattern.
pub open spec fn replace_all(s: Seq<char>, pat: Seq<char>, rep: Seq<char>) -> Seq<char>
    recommends
        pat.len() > 0,
    decreases s.len(),
{
    if pat.len() == 0 || s.len() < pat.len() {
        s
    } else if s.take(pat.len() as int) == pat {
        rep + replace_all(s.skip(pat.len() as int), pat, rep)
    } else {
        seq![s[0]] + replace_all(s.skip(1), pat, rep)
    }
}

/// Whether `pat` occurs in `s` at position `i`.
fn occurs_at(s: &Vec<char>, pat: &Vec<char>, i: usize) -> (r: bool)
    requires
        i + pat@.len() <= s@.len(),
    ensures
        r == (s@.skip(i as int).take(pat@.len() as int) == pat@),
{
    let _ = s.len();
    let mut k: usize = 0;
    while k < pat.len()
        invariant
            k <= pat@.len(),
            i + pat@.len() <= s@.len(),
            s@.len() <= usize::MAX,
            forall|j: int| 0 <= j < k ==> s@[i + j] == pat@[j],
        decreases pat@.len() - k,
    {
        if s[i + k] != pat[k] {
            proof {
                assert(s@.skip(i as int).take(pat@.len() as int)[k as int] != pat@[k as int]);
            }
            return false;
        }
        k = k + 1;
    }
    proof {
        assert(s@.skip(i as int).take(pat@.len() as int) =~= pat@);
    }
    true
}

/// Replaces every occurrence of `pat` in `s` by `rep`, as `str::replace` does.
pub fn replace(s: &str, pat: &str, rep: &str) -> (r: String)
    requires
        pat@.len() > 0,
    ensures
        r@ == replace_all(s@, pat@, rep@),
{
    let cs = chars_of(s);
    let cp = chars_of(pat);
    let cr = chars_of(rep);
    let n = cs.len();
    let m = cp.len();
    let mut out: Vec<char> = Vec::new();
    let mut i: usize = 0;
    proof {
        assert(cs@.skip(0) =~= cs@);
    }
    while i < n
        invariant
            i <= n,
            n == cs@.len(),
            m == cp@.len(),
            m > 0,
            cs@ == s@,
            cp@ == pat@,
            cr@ == rep@,
            out@ + replace_all(cs@.skip(i as int), cp@, cr@) == replace_all(s@, pat@, rep@),
        decreases n - i,
    {
        let ghost rest = cs@.skip(i as int);
        if n - i >= m && occurs_at(&cs, &cp, i) {
            let ghost before = out@;
            let mut k: usize = 0;
            while k < cr.len()
                invariant
                    k <= cr@.len(),
                    out@ == before + cr@.take(k as int),
                decreases cr@.len() - k,
            {
                out.push(cr[k]);
                proof {
                    assert(cr@.take(k + 1) =~= cr@.take(k as int).push(cr@[k as int]));
                }
                k = k + 1;
            }
            proof {
                assert(cr@.take(cr@.len() as int) =~= cr@);
                assert(rest.skip(m as int) =~= cs@.skip(i + m));
                assert(replace_all(rest, cp@, cr@) == cr@ + replace_all(rest.skip(m as int), cp@, cr@));
                assert(out@ + replace_all(cs@.skip(i + m), cp@, cr@) =~= before + replace_all(rest, cp@, cr@));
            }
            i = i + m;
        } else {
            let ghost before = out@;
            out.push(cs[i]);
            proof {
                assert(rest.skip(1) =~= cs@.skip(i + 1));
                assert(rest[0] == cs@[i as int]);
                assert(replace_all(rest, cp@, cr@) == seq![rest[0]] + replace_all(rest.skip(1), cp@, cr@));
                assert(out@ + replace_all(cs@.skip(i + 1), cp@, cr@) =~= before + replace_all(rest, cp@, cr@));
            }
            i = i + 1;
        }
    }
    proof {
        assert(cs@.skip(n as int) =~= Seq::<char>::empty());
        assert(out@ =~= out@ + replace_all(cs@.skip(n as int), cp@, cr@));
    }
    string_of(out.as_slice())
}

/// The parts joined with `sep` between each two, as `join` on a slice of strings does.
pub open spec fn join(parts: Seq<Seq<char>>, sep: Seq<char>) -> Seq<char>
    decreases parts.len(),
{
    if parts.len() == 0 {
        Seq::empty()
    } else if parts.len() == 1 {
        parts[0]
    } else {
        join(parts.drop_last(), sep) + sep + parts.last()
    }
}

/// Joins strings with a separator.
pub fn join_strings(parts: &Vec<String>, sep: &str) -> (r: String)
    ensures
        r@ == join(views(parts@), sep@),
{
    let mut r = String::new();
    let mut i: usize = 0;
    while i < parts.len()
        invariant
            i <= parts@.len(),
            r@ == join(views(parts@).take(i as int), sep@),
        decreases parts@.len() - i,
    {
        proof {
            assert(views(parts@).take(i + 1).drop_last() =~= views(parts@).take(i as int));
            assert(views(parts@).take(i + 1).last() == parts@[i as int]@);
        }
        if i > 0 {
            r.append(sep);
        } else {
            proof {
                assert(views(parts@).take(1) =~= seq![parts@[0]@]);
            }
        }
        r.append(parts[i].as_str());
        i = i + 1;
    }
    proof {
        assert(views(parts@).take(parts@.len() as int) =~= views(parts@));
    }
    r
}

/// Whether `s` starts with `prefix`.
pub fn starts_with(s: &str, prefix: &str) -> (r: bool)
    ensures
        r == (s@.len() >= prefix@.len() && s@.take(prefix@.len() as int) == prefix@),
{
    let a = chars_of(s);
    let b = chars_of(prefix);
    if a.len() < b.len() {
        return false;
    }
    proof {
        assert(a@.skip(0) =~= a@);
    }
    let r = occurs_at(&a, &b, 0);
    r
}

/// Word-set similarity is symmetric.
pub proof fn text_similarity_symmetric(a: Seq<char>, b: Seq<char>)
    ensures
        text_fraction(a, b) == text_fraction(b, a),
{
    let sa = word_set(lowercase_of(a));
    let sb = word_set(lowercase_of(b));
    assert(sa.intersect(sb) =~= sb.intersect(sa));
    assert(sa.union(sb) =~= sb.union(sa));
}

/// A text is fully similar to itself.
pub proof fn text_similarity_reflexive(a: Seq<char>)
    ensures
        text_fraction(a, a) == (1int, 1int),
{
}

/// Word-set similarity is a fraction from zero to one with a positive denominator.
pub proof fn text_similarity_bounded(a: Seq<char>, b: Seq<char>)
    ensures
        0 <= text_fraction(a, b).0 <= text_fraction(a, b).1,
        text_fraction(a, b).1 > 0,
{
    let sa = word_set(lowercase_of(a));
    let sb = word_set(lowercase_of(b));
    vstd::seq_lib::seq_to_set_is_finite(whitespace_words(lowercase_of(a)));
    vstd::seq_lib::seq_to_set_is_finite(whitespace_words(lowercase_of(b)));
    if !(lowercase_of(a) == lowercase_of(b)) && !(sa.len() == 0 && sb.len() == 0) {
        vstd::set_lib::lemma_len_subset(sa.intersect(sb), sa.union(sb));
        if sa.len() > 0 {
            vstd::set_lib::lemma_len_subset(sa, sa.union(sb));
        } else {
            vstd::set_lib::lemma_len_subset(sb, sa.union(sb));
        }
    }
}

} // verus!
