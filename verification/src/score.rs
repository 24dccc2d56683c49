use vstd::prelude::*;

use crate::text::chars_of;
use crate::types::str_eq;
use crate::wide::{ge, mul3, wide_sum, Wide};

verus! {

/// Availability of one domain.
pub struct DomainDetail {
    pub domain: String,
    /// "available", "registered" or "unknown".
    pub available: String,
    /// How the site of a registered domain looks ("parked", "active", ...), if known.
    pub site: Option<String>,
}

pub struct DomainSummary {
    pub available: usize,
    pub registered: usize,
    pub unknown: usize,
    pub total: usize,
    pub details: Vec<DomainDetail>,
}

/// Availability of the name on one package registry.
pub struct PackageDetail {
    pub registry: String,
    /// "available", "taken" or "unknown".
    pub available: String,
}

pub struct PackageSummary {
    pub available: usize,
    pub taken: usize,
    pub unknown: usize,
    pub total: usize,
    pub details: Vec<PackageDetail>,
}

/// Availability of the name on one app store.
pub struct StoreDetail {
    pub store: String,
    pub available: String,
    pub similar_count: usize,
}

pub struct StoreSummary {
    pub available: usize,
    pub taken: usize,
    pub unknown: usize,
    pub total: usize,
    pub details: Vec<StoreDetail>,
}

/// Availability of one name everywhere it was checked, and its score.
pub struct NameResult {
    pub name: String,
    /// The score in basis points (ten thousandths): `10000` is fully available.
    pub score: u128,
    pub suggested_by: Vec<String>,
    pub domains: DomainSummary,
    pub packages: PackageSummary,
    pub stores: StoreSummary,
}

/// The last label of a domain: what follows its last dot, or the whole text without a dot.
pub open spec fn tld_of(d: Seq<char>) -> Seq<char>
    decreases d.len(),
{
    if d.len() == 0 {
        d
    } else if d.last() == '.' {
        Seq::empty()
    } else {
        tld_of(d.drop_last()).push(d.last())
    }
}

proof fn lemma_tld_of_split(d: Seq<char>, i: int)
    requires
        0 <= i <= d.len(),
        i > 0 ==> d[i - 1] == '.',
        forall|k: int| i <= k < d.len() ==> d[k] != '.',
    ensures
        tld_of(d) == d.skip(i),
    decreases d.len(),
{
    if d.len() > i {
        assert forall|k: int| i <= k < d.drop_last().len() implies d.drop_last()[k] != '.' by {
            assert(d.drop_last()[k] == d[k]);
        }
        if i > 0 {
            assert(d.drop_last()[i - 1] == d[i - 1]);
        }
        lemma_tld_of_split(d.drop_last(), i);
        assert(d.skip(i) =~= d.drop_last().skip(i).push(d.last()));
    } else if i > 0 {
        assert(d.last() == '.');
        assert(d.skip(i) =~= Seq::<char>::empty());
    } else {
        assert(d.skip(0) =~= d);
    }
}

/// The last label of a domain, as `domain.rsplit('.').next()` gives it.
pub fn domain_tld(domain: &str) -> (r: String)
    ensures
        r@ == tld_of(domain@),
{
    let cs = chars_of(domain);
    let mut i: usize = cs.len();
    while i > 0 && cs[i - 1] != '.'
        invariant
            i <= cs@.len(),
            forall|k: int| i <= k < cs@.len() ==> cs@[k] != '.',
        decreases i,
    {
        i = i - 1;
    }
    proof {
        lemma_tld_of_split(cs@, i as int);
    }
    let mut v: Vec<char> = Vec::new();
    let mut j: usize = i;
    while j < cs.len()
        invariant
            i <= j <= cs@.len(),
            v@ == cs@.subrange(i as int, j as int),
        decreases cs@.len() - j,
    {
        v.push(cs[j]);
        j = j + 1;
    }
    proof {
        assert(v@ =~= cs@.skip(i as int));
    }
    crate::text::string_of(v.as_slice())
}

/// Credit for an availability status, in halves: available counts fully, unknown half, and
/// anything else (taken, registered) nothing.
pub open spec fn halves(status: Seq<char>) -> nat {
    if status == "available"@ {
        2
    } else if status == "unknown"@ {
        1
    } else {
        0
    }
}

pub fn availability_halves(status: &str) -> (r: u8)
    ensures
        r == halves(status@),
{
    if str_eq(status, "available") {
        2
    } else if str_eq(status, "unknown") {
        1
    } else {
        0
    }
}

/// Whether a domain is a `.com` domain.
pub open spec fn is_com(d: Seq<char>) -> bool {
    tld_of(d) == "com"@
}

/// Summed credit, in halves, of the `.com` domains (`com`) or of the other domains.
pub open spec fn domain_halves(details: Seq<DomainDetail>, com: bool) -> nat
    decreases details.len(),
{
    if details.len() == 0 {
        0
    } else {
        domain_halves(details.drop_last(), com) + if is_com(details.last().domain@) == com {
            halves(details.last().available@)
        } else {
            0
        }
    }
}

pub open spec fn package_halves(details: Seq<PackageDetail>) -> nat
    decreases details.len(),
{
    if details.len() == 0 {
        0
    } else {
        package_halves(details.drop_last()) + halves(details.last().available@)
    }
}

pub open spec fn store_halves(details: Seq<StoreDetail>) -> nat
    decreases details.len(),
{
    if details.len() == 0 {
        0
    } else {
        store_halves(details.drop_last()) + halves(details.last().available@)
    }
}

/// The score of a name in basis points, rounded half up from its exact value. Domains weigh
/// one half (two fifths when app stores were checked), `.com` domains taking half of that
/// and the other (non-`.com`) domains sharing the rest evenly among themselves; package registries share one half (two
/// fifths) evenly; app stores share one fifth evenly. Available counts fully, unknown half.
pub open spec fn score_basis(r: NameResult) -> int {
    let has_stores = r.stores.total > 0;
    let nd = r.domains.details@.len();
    let no: int = nd - com_count(r.domains.details@);
    let oc: int = if no >= 1 { no } else { 1 };
    let x: int = if nd == 0 {
        0
    } else {
        (if has_stores { 1000int } else { 1250int }) * (oc * domain_halves(r.domains.details@, true)
            + domain_halves(r.domains.details@, false))
    };
    let np_raw = r.packages.details@.len();
    let np: int = if np_raw == 0 { 1 } else { np_raw as int };
    let y: int = (if has_stores { 2000int } else { 2500int }) * package_halves(r.packages.details@) as int;
    let ns_raw = r.stores.details@.len();
    let ns: int = if ns_raw == 0 { 1 } else { ns_raw as int };
    let z: int = 1000 * store_halves(r.stores.details@) as int;
    let d = oc * np * ns;
    (2 * x * np * ns + 2 * y * oc * ns + 2 * z * oc * np + d) / (2 * d)
}

fn sum_domain_halves(details: &Vec<DomainDetail>) -> (r: (u128, u128, usize))
    ensures
        r.0 == domain_halves(details@, true),
        r.1 == domain_halves(details@, false),
        r.0 + r.1 <= 2 * details@.len(),
        r.2 == com_count(details@),
        r.2 <= details@.len(),
{
    let mut com: u128 = 0;
    let mut other: u128 = 0;
    let mut coms: usize = 0;
    let mut i: usize = 0;
    while i < details.len()
        invariant
            i <= details@.len(),
            com == domain_halves(details@.take(i as int), true),
            other == domain_halves(details@.take(i as int), false),
            coms == com_count(details@.take(i as int)),
            coms <= i,
            com + other <= 2 * i,
        decreases details@.len() - i,
    {
        proof {
            assert(details@.take(i + 1).drop_last() =~= details@.take(i as int));
        }
        let h = availability_halves(details[i].available.as_str());
        let tld = domain_tld(details[i].domain.as_str());
        if str_eq(tld.as_str(), "com") {
            com = com + h as u128;
            coms = coms + 1;
        } else {
            other = other + h as u128;
        }
        i = i + 1;
    }
    proof {
        assert(details@.take(details@.len() as int) =~= details@);
    }
    (com, other, coms)
}

fn sum_package_halves(details: &Vec<PackageDetail>) -> (r: u128)
    ensures
        r == package_halves(details@),
        r <= 2 * details@.len(),
{
    let mut s: u128 = 0;
    let mut i: usize = 0;
    while i < details.len()
        invariant
            i <= details@.len(),
            s == package_halves(details@.take(i as int)),
            s <= 2 * i,
        decreases details@.len() - i,
    {
        proof {
            assert(details@.take(i + 1).drop_last() =~= details@.take(i as int));
        }
        s = s + availability_halves(details[i].available.as_str()) as u128;
        i = i + 1;
    }
    proof {
        assert(details@.take(details@.len() as int) =~= details@);
    }
    s
}

fn sum_store_halves(details: &Vec<StoreDetail>) -> (r: u128)
    ensures
        r == store_halves(details@),
        r <= 2 * details@.len(),
{
    let mut s: u128 = 0;
    let mut i: usize = 0;
    while i < details.len()
        invariant
            i <= details@.len(),
            s == store_halves(details@.take(i as int)),
            s <= 2 * i,
        decreases details@.len() - i,
    {
        proof {
            assert(details@.take(i + 1).drop_last() =~= details@.take(i as int));
        }
        s = s + availability_halves(details[i].available.as_str()) as u128;
        i = i + 1;
    }
    proof {
        assert(details@.take(details@.len() as int) =~= details@);
    }
    s
}

/// A part `v = q * m + r`, scaled by `2 * a * b`, is `2 * q` times `d = m * a * b` plus the
/// scaled remainder.
proof fn lemma_split_part(v: int, q: int, m: int, r: int, a: int, b: int, d: int)
    requires
        v == q * m + r,
        d == m * a * b,
    ensures
        2 * v * a * b == 2 * q * d + 2 * (r * a * b),
{
    assert(v * a == q * m * a + r * a) by (nonlinear_arith)
        requires
            v == q * m + r,
    ;
    assert(v * a * b == q * m * a * b + r * a * b) by (nonlinear_arith)
        requires
            v * a == q * m * a + r * a,
    ;
    assert(q * m * a * b == q * d) by (nonlinear_arith)
        requires
            d == m * a * b,
    ;
    assert(2 * v * a * b == 2 * (v * a * b)) by (nonlinear_arith);
    assert(2 * q * d == 2 * (q * d)) by (nonlinear_arith);
}

/// Splitting a part `x / m` into its quotient and remainder leaves the rounding unchanged.
proof fn lemma_score_split(
    x: int, y: int, z: int, oc: int, np: int, ns: int,
    qx: int, rx: int, qy: int, ry: int, qz: int, rz: int, k: int,
)
    requires
        oc > 0,
        np > 0,
        ns > 0,
        x == qx * oc + rx,
        0 <= rx < oc,
        y == qy * np + ry,
        0 <= ry < np,
        z == qz * ns + rz,
        0 <= rz < ns,
        ({
            let f = 2 * (rx * np * ns + ry * oc * ns + rz * oc * np);
            let d = oc * np * ns;
            ||| (k == 0 && f < d)
            ||| (k == 1 && d <= f < 3 * d)
            ||| (k == 2 && 3 * d <= f < 5 * d)
            ||| (k == 3 && 5 * d <= f < 7 * d)
        }),
    ensures
        (2 * x * np * ns + 2 * y * oc * ns + 2 * z * oc * np + oc * np * ns) / (2 * (oc * np * ns))
            == qx + qy + qz + k,
{
    let d = oc * np * ns;
    let f = 2 * (rx * np * ns + ry * oc * ns + rz * oc * np);
    let n = 2 * x * np * ns + 2 * y * oc * ns + 2 * z * oc * np + d;
    assert(d > 0) by (nonlinear_arith)
        requires
            oc > 0,
            np > 0,
            ns > 0,
            d == oc * np * ns,
    ;
    lemma_split_part(x, qx, oc, rx, np, ns, d);
    assert(d == np * oc * ns) by (nonlinear_arith)
        requires
            d == oc * np * ns,
    ;
    lemma_split_part(y, qy, np, ry, oc, ns, d);
    assert(d == ns * oc * np) by (nonlinear_arith)
        requires
            d == oc * np * ns,
    ;
    lemma_split_part(z, qz, ns, rz, oc, np, d);
    let q = qx + qy + qz + k;
    assert(q * (2 * d) == 2 * qx * d + 2 * qy * d + 2 * qz * d + 2 * k * d) by (nonlinear_arith)
        requires
            q == qx + qy + qz + k,
    ;
    assert(n == q * (2 * d) + (f + d - 2 * k * d));
    assert(2 * k * d == k * (2 * d)) by (nonlinear_arith);
    if k == 0 {
        assert(k * (2 * d) == 0) by (nonlinear_arith) requires k == 0;
    } else if k == 1 {
        assert(k * (2 * d) == 2 * d) by (nonlinear_arith) requires k == 1;
    } else if k == 2 {
        assert(k * (2 * d) == 4 * d) by (nonlinear_arith) requires k == 2;
    } else {
        assert(k * (2 * d) == 6 * d) by (nonlinear_arith) requires k == 3;
    }
    vstd::arithmetic::div_mod::lemma_fundamental_div_mod_converse(n, 2 * d, q, f + d - 2 * k * d);
}

/// The weighted remainders, three products of numbers below `2^64`, compared with `h * d`.
fn fraction_reaches(rx: u64, ry: u64, rz: u64, oc: u64, np: u64, ns: u64, h: u64) -> (r: bool)
    requires
        h <= 7,
    ensures
        r == (2 * (rx as int * np as int * ns as int + ry as int * oc as int * ns as int
            + rz as int * oc as int * np as int) >= h as int * (oc as int * np as int * ns as int)),
{
    let a = mul3(rx, np, ns);
    let b = mul3(ry, oc, ns);
    let c = mul3(rz, oc, np);
    let d = mul3(oc, np, ns);
    proof {
        assert(a.hi < 0x1_0000_0000_0000_0000u128) by {
            assert(a.value() < 0x1_0000_0000_0000_0000int * 0x1_0000_0000_0000_0000int * 0x1_0000_0000_0000_0000int) by (nonlinear_arith)
                requires a.value() == rx as int * np as int * ns as int, rx < 0x1_0000_0000_0000_0000int,
                    np < 0x1_0000_0000_0000_0000int, ns < 0x1_0000_0000_0000_0000int, rx >= 0, np >= 0, ns >= 0;
        }
        assert(b.hi < 0x1_0000_0000_0000_0000u128) by {
            assert(b.value() < 0x1_0000_0000_0000_0000int * 0x1_0000_0000_0000_0000int * 0x1_0000_0000_0000_0000int) by (nonlinear_arith)
                requires b.value() == ry as int * oc as int * ns as int, ry < 0x1_0000_0000_0000_0000int,
                    oc < 0x1_0000_0000_0000_0000int, ns < 0x1_0000_0000_0000_0000int, ry >= 0, oc >= 0, ns >= 0;
        }
        assert(c.hi < 0x1_0000_0000_0000_0000u128) by {
            assert(c.value() < 0x1_0000_0000_0000_0000int * 0x1_0000_0000_0000_0000int * 0x1_0000_0000_0000_0000int) by (nonlinear_arith)
                requires c.value() == rz as int * oc as int * np as int, rz < 0x1_0000_0000_0000_0000int,
                    oc < 0x1_0000_0000_0000_0000int, np < 0x1_0000_0000_0000_0000int, rz >= 0, oc >= 0, np >= 0;
        }
        assert(d.hi < 0x1_0000_0000_0000_0000u128) by {
            assert(d.value() < 0x1_0000_0000_0000_0000int * 0x1_0000_0000_0000_0000int * 0x1_0000_0000_0000_0000int) by (nonlinear_arith)
                requires d.value() == oc as int * np as int * ns as int, oc < 0x1_0000_0000_0000_0000int,
                    np < 0x1_0000_0000_0000_0000int, ns < 0x1_0000_0000_0000_0000int, oc >= 0, np >= 0, ns >= 0;
        }
    }
    let ab = wide_sum(&a, &b);
    let abc = wide_sum(&ab, &c);
    let twice = wide_sum(&abc, &abc);
    let mut hd = Wide { hi: 0, lo: 0 };
    let mut j: u64 = 0;
    while j < h
        invariant
            j <= h,
            h <= 7,
            d.hi < 0x1_0000_0000_0000_0000u128,
            hd.value() == j as int * d.value(),
            hd.hi <= j as int * 0x1_0000_0000_0000_0000int,
        decreases h - j,
    {
        proof {
            assert((j + 1) as int * d.value() == j as int * d.value() + d.value()) by (nonlinear_arith);
        }
        hd = wide_sum(&hd, &d);
        j = j + 1;
    }
    ge(&twice, &hd)
}

proof fn lemma_score_parts(
    nd: int, cd: int, cp: int, com: int, other: int, ap: int, a_s: int,
    oc: int, np: int, ns: int, qx: int, rx: int, qy: int, ry: int, qz: int, rz: int, k: int,
)
    requires
        oc > 0,
        np > 0,
        ns > 0,
        cd >= 0,
        other >= 0,
        cp * ap >= 0,
        1000 * a_s >= 0,
        nd == 0 ==> qx == 0 && rx == 0,
        nd != 0 ==> qx == cd * com + (cd * other) / oc && rx == (cd * other) % oc,
        qy == (cp * ap) / np,
        ry == (cp * ap) % np,
        qz == (1000 * a_s) / ns,
        rz == (1000 * a_s) % ns,
        0 <= k <= 3,
        ({
            let f = 2 * (rx * np * ns + ry * oc * ns + rz * oc * np);
            let d = oc * np * ns;
            &&& (k >= 1 <==> f >= 1 * d)
            &&& (k >= 2 <==> f >= 3 * d)
            &&& (k >= 3 <==> f >= 5 * d)
        }),
    ensures
        ({
            let x: int = if nd == 0 { 0 } else { cd * (oc * com + other) };
            let y: int = cp * ap;
            let z: int = 1000 * a_s;
            let d = oc * np * ns;
            (2 * x * np * ns + 2 * y * oc * ns + 2 * z * oc * np + d) / (2 * d) == qx + qy + qz + k
        }),
{
    let x: int = if nd == 0 { 0 } else { cd * (oc * com + other) };
    let y: int = cp * ap;
    let z: int = 1000 * a_s;
    if nd != 0 {
        vstd::arithmetic::div_mod::lemma_fundamental_div_mod(cd * other, oc);
        assert(x == qx * oc + rx) by (nonlinear_arith)
            requires
                x == cd * (oc * com + other),
                qx == cd * com + (cd * other) / oc,
                rx == (cd * other) % oc,
                cd * other == oc * ((cd * other) / oc) + (cd * other) % oc,
        ;
        vstd::arithmetic::div_mod::lemma_mod_bound(cd * other, oc);
    }
    vstd::arithmetic::div_mod::lemma_fundamental_div_mod(y, np);
    vstd::arithmetic::div_mod::lemma_fundamental_div_mod(z, ns);
    vstd::arithmetic::div_mod::lemma_mod_bound(y, np);
    vstd::arithmetic::div_mod::lemma_mod_bound(z, ns);
    let f = 2 * (rx * np * ns + ry * oc * ns + rz * oc * np);
    let d = oc * np * ns;
    assert(f < 6 * d) by (nonlinear_arith)
        requires
            0 <= rx < oc,
            0 <= ry < np,
            0 <= rz < ns,
            f == 2 * (rx * np * ns + ry * oc * ns + rz * oc * np),
            d == oc * np * ns,
    ;
    assert(f >= 0) by (nonlinear_arith)
        requires
            0 <= rx,
            0 <= ry,
            0 <= rz,
            oc > 0, np > 0, ns > 0,
            f == 2 * (rx * np * ns + ry * oc * ns + rz * oc * np),
    ;
    assert(d > 0) by (nonlinear_arith)
        requires
            oc > 0,
            np > 0,
            ns > 0,
            d == oc * np * ns,
    ;
    lemma_score_split(x, y, z, oc, np, ns, qx, rx, qy, ry, qz, rz, k);
}

/// Scores a name result in basis points (see `score_basis`).
#[verifier::rlimit(40)]
pub fn score(result: &NameResult) -> (r: u128)
    ensures
        r == score_basis(*result),
{
    let has_stores = result.stores.total > 0;
    let (com, other, coms) = sum_domain_halves(&result.domains.details);
    let ap = sum_package_halves(&result.packages.details);
    let a_s = sum_store_halves(&result.stores.details);
    let nd = result.domains.details.len();
    let oc: u64 = if nd - coms >= 1 { (nd - coms) as u64 } else { 1 };
    let npr = result.packages.details.len();
    let np: u64 = if npr == 0 { 1 } else { npr as u64 };
    let nsr = result.stores.details.len();
    let ns: u64 = if nsr == 0 { 1 } else { nsr as u64 };
    let cd: u128 = if has_stores { 1000 } else { 1250 };
    let cp: u128 = if has_stores { 2000 } else { 2500 };
    // domains: x = cd * (oc * com + other) = oc * (cd * com + cd * other / oc) + cd * other % oc
    proof {
        assert(com + other <= 2 * nd);
        assert(nd <= usize::MAX);
        assert(cd * com <= 1250 * (2 * 0xffff_ffff_ffff_ffffu128)) by (nonlinear_arith)
            requires
                cd <= 1250,
                com <= 2 * 0xffff_ffff_ffff_ffffu128,
        ;
        assert(cd * other <= 1250 * (2 * 0xffff_ffff_ffff_ffffu128)) by (nonlinear_arith)
            requires
                cd <= 1250,
                other <= 2 * 0xffff_ffff_ffff_ffffu128,
        ;
    }
    let cdc: u128 = cd * com;
    let cdo: u128 = cd * other;
    let (qx, rx): (u128, u128) = if nd == 0 {
        (0, 0)
    } else {
        (cdc + cdo / (oc as u128), cdo % (oc as u128))
    };
    let qy: u128 = (cp * ap) / (np as u128);
    let ry: u128 = (cp * ap) % (np as u128);
    let qz: u128 = (1000 * a_s) / (ns as u128);
    let rz: u128 = (1000 * a_s) % (ns as u128);
    let mut k: u128 = 0;
    if fraction_reaches(rx as u64, ry as u64, rz as u64, oc, np, ns, 1) {
        k = 1;
        if fraction_reaches(rx as u64, ry as u64, rz as u64, oc, np, ns, 3) {
            k = 2;
            if fraction_reaches(rx as u64, ry as u64, rz as u64, oc, np, ns, 5) {
                k = 3;
            }
        }
    }
    proof {
        lemma_score_parts(nd as int, cd as int, cp as int, com as int, other as int, ap as int, a_s as int,
            oc as int, np as int, ns as int, qx as int, rx as int, qy as int, ry as int, qz as int, rz as int, k as int);
    }
    qx + qy + qz + k
}

/// How many of the domains are `.com` domains.
pub open spec fn com_count(details: Seq<DomainDetail>) -> nat
    decreases details.len(),
{
    if details.len() == 0 {
        0
    } else {
        com_count(details.drop_last()) + if is_com(details.last().domain@) { 1nat } else { 0nat }
    }
}

proof fn lemma_domain_halves_uniform(details: Seq<DomainDetail>, h: nat)
    requires
        forall|i: int| 0 <= i < details.len() ==> halves(#[trigger] details[i].available@) == h,
    ensures
        domain_halves(details, true) == h * com_count(details),
        domain_halves(details, false) == h * (details.len() - com_count(details)),
        com_count(details) <= details.len(),
    decreases details.len(),
{
    if details.len() > 0 {
        let init = details.drop_last();
        assert forall|i: int| 0 <= i < init.len() implies halves(#[trigger] init[i].available@) == h by {
            assert(init[i] == details[i]);
        }
        lemma_domain_halves_uniform(init, h);
        assert(halves(details[details.len() - 1].available@) == h);
        assert(domain_halves(details, true) == domain_halves(init, true) + if is_com(details.last().domain@) { h } else { 0 });
        assert(domain_halves(details, false) == domain_halves(init, false) + if is_com(details.last().domain@) { 0 } else { h });
        assert(h * com_count(details) == h * com_count(init) + if is_com(details.last().domain@) { h } else { 0 }) by (nonlinear_arith)
            requires
                com_count(details) == com_count(init) + if is_com(details.last().domain@) { 1nat } else { 0nat },
        ;
        assert(h * (details.len() - com_count(details)) == h * (init.len() - com_count(init))
            + if is_com(details.last().domain@) { 0 } else { h }) by (nonlinear_arith)
            requires
                com_count(details) == com_count(init) + if is_com(details.last().domain@) { 1nat } else { 0nat },
                details.len() == init.len() + 1,
        ;
    } else {
        assert(h * com_count(details) == 0) by (nonlinear_arith)
            requires
                com_count(details) == 0,
        ;
        assert(h * (details.len() - com_count(details)) == 0) by (nonlinear_arith)
            requires
                com_count(details) == 0,
                details.len() == 0,
        ;
    }
}

proof fn lemma_package_halves_uniform(details: Seq<PackageDetail>, h: nat)
    requires
        forall|i: int| 0 <= i < details.len() ==> halves(#[trigger] details[i].available@) == h,
    ensures
        package_halves(details) == h * details.len(),
    decreases details.len(),
{
    if details.len() > 0 {
        let init = details.drop_last();
        assert forall|i: int| 0 <= i < init.len() implies halves(#[trigger] init[i].available@) == h by {
            assert(init[i] == details[i]);
        }
        lemma_package_halves_uniform(init, h);
        assert(halves(details[details.len() - 1].available@) == h);
        assert(h * details.len() == h * init.len() + h) by (nonlinear_arith)
            requires
                details.len() == init.len() + 1,
        ;
    } else {
        assert(h * details.len() == 0) by (nonlinear_arith)
            requires
                details.len() == 0,
        ;
    }
}

proof fn lemma_store_halves_uniform(details: Seq<StoreDetail>, h: nat)
    requires
        forall|i: int| 0 <= i < details.len() ==> halves(#[trigger] details[i].available@) == h,
    ensures
        store_halves(details) == h * details.len(),
    decreases details.len(),
{
    if details.len() > 0 {
        let init = details.drop_last();
        assert forall|i: int| 0 <= i < init.len() implies halves(#[trigger] init[i].available@) == h by {
            assert(init[i] == details[i]);
        }
        lemma_store_halves_uniform(init, h);
        assert(halves(details[details.len() - 1].available@) == h);
        assert(h * details.len() == h * init.len() + h) by (nonlinear_arith)
            requires
                details.len() == init.len() + 1,
        ;
    } else {
        assert(h * details.len() == 0) by (nonlinear_arith)
            requires
                details.len() == 0,
        ;
    }
}

/// When everything checked for a name reports the same availability, the score is that
/// availability's credit: `10000` when everything is available, `5000` when everything is
/// unknown, and `0` when everything is taken or registered. This holds for a check of at least
/// two domains, exactly one of them a `.com` domain, and at least one package registry, with
/// the store summary counting its details.
pub proof fn score_of_uniform_availability(r: NameResult, h: nat)
    requires
        forall|i: int| 0 <= i < r.domains.details@.len() ==> halves(#[trigger] r.domains.details@[i].available@) == h,
        forall|i: int| 0 <= i < r.packages.details@.len() ==> halves(#[trigger] r.packages.details@[i].available@) == h,
        forall|i: int| 0 <= i < r.stores.details@.len() ==> halves(#[trigger] r.stores.details@[i].available@) == h,
        r.domains.details@.len() >= 2,
        com_count(r.domains.details@) == 1,
        r.packages.details@.len() >= 1,
        r.stores.total == r.stores.details@.len(),
    ensures
        score_basis(r) == 5000 * h,
{
    let dd = r.domains.details@;
    let nd = dd.len();
    lemma_domain_halves_uniform(dd, h);
    lemma_package_halves_uniform(r.packages.details@, h);
    lemma_store_halves_uniform(r.stores.details@, h);
    let has_stores = r.stores.total > 0;
    let oc: int = nd - 1;
    let np: int = r.packages.details@.len() as int;
    let ns_raw = r.stores.details@.len();
    let ns: int = if ns_raw == 0 { 1 } else { ns_raw as int };
    let c: int = if has_stores { 1000 } else { 1250 };
    let cp: int = if has_stores { 2000 } else { 2500 };
    let x: int = c * (oc * (h * 1) + h * (nd - 1));
    let y: int = cp * (h * np);
    let z: int = 1000 * (h * ns_raw) as int;
    let d = oc * np * ns;
    assert(x == 2 * c * h * oc) by (nonlinear_arith)
        requires
            x == c * (oc * (h * 1) + h * (nd - 1)),
            oc == nd - 1,
    ;
    assert(y == cp * h * np) by (nonlinear_arith)
        requires
            y == cp * (h * np),
    ;
    let zs: int = if has_stores { 1000 * h as int } else { 0 };
    assert(z * oc * np == zs * d) by (nonlinear_arith)
        requires
            z == 1000 * (h * ns_raw) as int,
            d == oc * np * ns,
            zs == if ns_raw > 0 { 1000 * h as int } else { 0 },
            ns == if ns_raw == 0 { 1 } else { ns_raw as int },
    ;
    assert(2 * c * h + cp * h + zs == 5000 * h);
    let pa: int = 2 * c * h;
    let pb: int = cp * h;
    assert(x * np * ns == pa * d) by (nonlinear_arith)
        requires
            x == 2 * c * h * oc,
            pa == 2 * c * h,
            d == oc * np * ns,
    ;
    assert(y * oc * ns == pb * d) by (nonlinear_arith)
        requires
            y == cp * h * np,
            pb == cp * h,
            d == oc * np * ns,
    ;
    assert(2 * x * np * ns == 2 * (x * np * ns)) by (nonlinear_arith);
    assert(2 * y * oc * ns == 2 * (y * oc * ns)) by (nonlinear_arith);
    assert(2 * z * oc * np == 2 * (z * oc * np)) by (nonlinear_arith);
    assert(pa * d + pb * d + zs * d == (pa + pb + zs) * d) by (nonlinear_arith);
    assert(2 * x * np * ns + 2 * y * oc * ns + 2 * z * oc * np + d == (2 * (5000 * h) + 1) * d) by (nonlinear_arith)
        requires
            2 * x * np * ns == 2 * (pa * d),
            2 * y * oc * ns == 2 * (pb * d),
            2 * z * oc * np == 2 * (zs * d),
            pa * d + pb * d + zs * d == (pa + pb + zs) * d,
            pa + pb + zs == 5000 * h,
    ;
    assert(d > 0) by (nonlinear_arith)
        requires
            oc >= 1,
            np >= 1,
            ns >= 1,
            d == oc * np * ns,
    ;
    assert(((2 * (5000 * h) + 1) * d) / (2 * d) == 5000 * h) by (nonlinear_arith)
        requires
            d > 0,
    {
        vstd::arithmetic::div_mod::lemma_fundamental_div_mod_converse(
            (2 * (5000 * h) + 1) * d, 2 * d, 5000 * h as int, d);
    }
}

proof fn lemma_domain_halves_bound(details: Seq<DomainDetail>)
    ensures
        domain_halves(details, true) <= 2 * com_count(details),
        domain_halves(details, false) <= 2 * (details.len() - com_count(details)),
        com_count(details) <= details.len(),
    decreases details.len(),
{
    if details.len() > 0 {
        lemma_domain_halves_bound(details.drop_last());
    }
}

proof fn lemma_package_halves_bound(details: Seq<PackageDetail>)
    ensures
        package_halves(details) <= 2 * details.len(),
    decreases details.len(),
{
    if details.len() > 0 {
        lemma_package_halves_bound(details.drop_last());
    }
}

proof fn lemma_store_halves_bound(details: Seq<StoreDetail>)
    ensures
        store_halves(details) <= 2 * details.len(),
    decreases details.len(),
{
    if details.len() > 0 {
        lemma_store_halves_bound(details.drop_last());
    }
}

/// A name's score is a percentage: from `0` to `10000` basis points, when at most one of its
/// domains is a `.com` domain and the store summary counts its details.
pub proof fn score_is_a_percentage(r: NameResult)
    requires
        com_count(r.domains.details@) <= 1,
        r.stores.total == r.stores.details@.len(),
    ensures
        0 <= score_basis(r) <= 10000,
{
    let dd = r.domains.details@;
    let nd = dd.len();
    lemma_domain_halves_bound(dd);
    lemma_package_halves_bound(r.packages.details@);
    lemma_store_halves_bound(r.stores.details@);
    let cc = com_count(dd);
    let a: int = domain_halves(dd, true) as int;
    let b: int = domain_halves(dd, false) as int;
    let has_stores = r.stores.total > 0;
    let oc: int = if nd - cc >= 1 { nd - cc } else { 1 };
    let c: int = if has_stores { 1000 } else { 1250 };
    let cp: int = if has_stores { 2000 } else { 2500 };
    let x: int = if nd == 0 { 0 } else { c * (oc * a + b) };
    let np_raw = r.packages.details@.len();
    let np: int = if np_raw == 0 { 1 } else { np_raw as int };
    let ph: int = package_halves(r.packages.details@) as int;
    let y: int = cp * ph;
    let ns_raw = r.stores.details@.len();
    let ns: int = if ns_raw == 0 { 1 } else { ns_raw as int };
    let sh: int = store_halves(r.stores.details@) as int;
    let z: int = 1000 * sh;
    let d = oc * np * ns;
    // the domains' part is at most 4c per other-domain share
    if nd >= 1 {
        assert(oc * a + b <= 4 * oc) by (nonlinear_arith)
            requires
                nd >= 1,
                oc == if nd - cc >= 1 { nd - cc } else { 1 },
                0 <= a <= 2 * cc,
                0 <= b <= 2 * (nd - cc),
                0 <= cc <= 1,
                cc <= nd,
        ;
    }
    assert(0 <= x <= 4 * c * oc) by (nonlinear_arith)
        requires
            x == if nd == 0 { 0 } else { c * (oc * a + b) },
            nd >= 1 ==> oc * a + b <= 4 * oc,
            a >= 0,
            b >= 0,
            oc >= 1,
            c > 0,
    ;
    assert(0 <= y <= 2 * cp * np) by (nonlinear_arith)
        requires
            y == cp * ph,
            0 <= ph <= 2 * np_raw,
            np >= np_raw,
            cp > 0,
    ;
    let zs: int = if has_stores { 2000 } else { 0 };
    assert(0 <= z <= zs * ns) by (nonlinear_arith)
        requires
            z == 1000 * sh,
            0 <= sh <= 2 * ns_raw,
            ns == if ns_raw == 0 { 1 } else { ns_raw as int },
            zs == if ns_raw > 0 { 2000int } else { 0 },
    ;
    assert(d > 0) by (nonlinear_arith)
        requires
            oc >= 1,
            np >= 1,
            ns >= 1,
            d == oc * np * ns,
    ;
    assert(0 <= 2 * x * np * ns <= 2 * (4 * c) * d) by (nonlinear_arith)
        requires
            0 <= x <= 4 * c * oc,
            np >= 1,
            ns >= 1,
            d == oc * np * ns,
    ;
    assert(0 <= 2 * y * oc * ns <= 2 * (2 * cp) * d) by (nonlinear_arith)
        requires
            0 <= y <= 2 * cp * np,
            oc >= 1,
            ns >= 1,
            d == oc * np * ns,
    ;
    assert(0 <= 2 * z * oc * np <= 2 * zs * d) by (nonlinear_arith)
        requires
            0 <= z <= zs * ns,
            oc >= 1,
            np >= 1,
            d == oc * np * ns,
    ;
    assert(4 * c + 2 * cp + zs == 10000);
    let num = 2 * x * np * ns + 2 * y * oc * ns + 2 * z * oc * np + d;
    assert(0 <= num <= 20000 * d + d) by (nonlinear_arith)
        requires
            num == 2 * x * np * ns + 2 * y * oc * ns + 2 * z * oc * np + d,
            0 <= 2 * x * np * ns <= 2 * (4 * c) * d,
            0 <= 2 * y * oc * ns <= 2 * (2 * cp) * d,
            0 <= 2 * z * oc * np <= 2 * zs * d,
            4 * c + 2 * cp + zs == 10000,
            d > 0,
    ;
    assert(0 <= num / (2 * d) <= 10000) by (nonlinear_arith)
        requires
            0 <= num <= 20000 * d + d,
            d > 0,
    ;
    assert(score_basis(r) == num / (2 * d));
}

} // verus!
