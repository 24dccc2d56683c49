use caucus::check::{
    domain_status, extra_available_domains, name_result, score_bar, shows_domain, shows_entry,
    sort_by_score, summary_lines, detail_lines, taken_registries,
};
use caucus::names::NameCandidate;
use caucus::score::{
    score, DomainDetail, DomainSummary, NameResult, PackageDetail, PackageSummary, StoreDetail,
    StoreSummary,
};

fn domain(name: &str, available: &str) -> DomainDetail {
    DomainDetail { domain: name.to_string(), available: available.to_string(), site: None }
}

fn package(registry: &str, available: &str) -> PackageDetail {
    PackageDetail { registry: registry.to_string(), available: available.to_string() }
}

fn result_with(domain_status: &str, package_status: &str) -> NameResult {
    let details = vec![
        domain("test.com", domain_status),
        domain("test.dev", domain_status),
        domain("test.io", domain_status),
        domain("test.app", domain_status),
    ];
    let available = details.iter().filter(|d| d.available == "available").count();
    let registered = details.iter().filter(|d| d.available == "registered").count();
    let unknown = details.iter().filter(|d| d.available == "unknown").count();
    let packages = vec![package("npm", package_status), package("crates", package_status)];
    let p_available = packages.iter().filter(|p| p.available == "available").count();
    let p_taken = packages.iter().filter(|p| p.available == "taken").count();
    let p_unknown = packages.iter().filter(|p| p.available == "unknown").count();
    NameResult {
        name: "test".to_string(),
        score: 0,
        suggested_by: vec![],
        domains: DomainSummary { available, registered, unknown, total: 4, details },
        packages: PackageSummary {
            available: p_available,
            taken: p_taken,
            unknown: p_unknown,
            total: 2,
            details: packages,
        },
        stores: StoreSummary { available: 0, taken: 0, unknown: 0, total: 0, details: vec![] },
    }
}

fn as_fraction(basis: u128) -> f64 {
    basis as f64 / 10000.0
}

#[test]
fn test_perfect_score() {
    let result = result_with("available", "available");
    let s = as_fraction(score(&result));
    assert!((s - 1.0).abs() < 0.001);
}

#[test]
fn test_all_unknown_score() {
    let result = result_with("unknown", "unknown");
    assert_eq!(as_fraction(score(&result)), 0.5);
}

#[test]
fn test_zero_score() {
    let result = result_with("registered", "taken");
    let s = as_fraction(score(&result));
    assert!((s - 0.0).abs() < 0.001);
}

#[test]
fn score_exact_basis_points() {
    assert_eq!(score(&result_with("available", "available")), 10000);
    assert_eq!(score(&result_with("unknown", "unknown")), 5000);
    assert_eq!(score(&result_with("registered", "taken")), 0);
    // domains all available (one half), packages all taken
    assert_eq!(score(&result_with("available", "taken")), 5000);
}

#[test]
fn score_with_stores_weighs_a_fifth() {
    let mut result = result_with("available", "available");
    result.stores = StoreSummary {
        available: 0,
        taken: 2,
        unknown: 0,
        total: 2,
        details: vec![
            StoreDetail { store: "App Store".into(), available: "taken".into(), similar_count: 3 },
            StoreDetail { store: "Google Play".into(), available: "taken".into(), similar_count: 0 },
        ],
    };
    // domains and packages are two fifths each; the stores' fifth is taken
    assert_eq!(score(&result), 8000);
}

#[test]
fn score_splits_other_domains_evenly() {
    // .com available (quarter), three other domains share the other quarter: one available
    let mut result = result_with("registered", "taken");
    result.domains.details[0].available = "available".into();
    result.domains.details[1].available = "available".into();
    // 0.25 + 0.25 / 3 = 0.333333 -> 3333 basis points
    assert_eq!(score(&result), 3333);
}

#[test]
fn score_only_com_domain_caps_domains_at_a_quarter() {
    let mut result = result_with("available", "available");
    result.domains.details.truncate(1);
    result.domains.total = 1;
    assert_eq!(score(&result), 7500);
}

#[test]
fn name_result_scores_what_was_found() {
    let template = result_with("unknown", "unknown");
    let candidate = NameCandidate { name: "aurora".into(), suggested_by: vec!["m1".into()] };
    let r = name_result(candidate, template.domains, template.packages, template.stores);
    assert_eq!(r.name, "aurora");
    assert_eq!(r.suggested_by, vec!["m1".to_string()]);
    assert_eq!(r.score, 5000);
}

#[test]
fn results_sort_by_descending_score_stably() {
    let mut a = result_with("available", "available");
    a.name = "a".into();
    a.score = 5000;
    let mut b = result_with("available", "available");
    b.name = "b".into();
    b.score = 9000;
    let mut c = result_with("available", "available");
    c.name = "c".into();
    c.score = 5000;
    let sorted = sort_by_score(vec![a, b, c]);
    let names: Vec<&str> = sorted.iter().map(|r| r.name.as_str()).collect();
    assert_eq!(names, vec!["b", "a", "c"]);
}

#[test]
fn score_bar_rounds_to_tenths() {
    assert_eq!(score_bar(10000), "[##########]");
    assert_eq!(score_bar(0), "[----------]");
    assert_eq!(score_bar(6200), "[######----]");
    assert_eq!(score_bar(7800), "[########--]");
    assert_eq!(score_bar(450), "[----------]");
    assert_eq!(score_bar(500), "[#---------]");
}

#[test]
fn domain_status_marks() {
    let details = vec![
        DomainDetail { domain: "x.com".into(), available: "registered".into(), site: Some("parked".into()) },
        DomainDetail { domain: "x.dev".into(), available: "available".into(), site: None },
        DomainDetail { domain: "x.io".into(), available: "unknown".into(), site: None },
        DomainDetail { domain: "x.app".into(), available: "registered".into(), site: Some("active".into()) },
        DomainDetail { domain: "x.net".into(), available: "registered".into(), site: None },
    ];
    assert_eq!(domain_status(&details, "com"), "[-P]");
    assert_eq!(domain_status(&details, "dev"), "[+]");
    assert_eq!(domain_status(&details, "io"), "[?]");
    assert_eq!(domain_status(&details, "app"), "[-A]");
    assert_eq!(domain_status(&details, "net"), "[-]");
    assert_eq!(domain_status(&details, "org"), "   ");
}

#[test]
fn wide_check_summaries() {
    let details = vec![
        domain("x.com", "available"),
        domain("x.net", "available"),
        domain("x.org", "registered"),
        domain("x.sh", "available"),
    ];
    assert_eq!(extra_available_domains(&details), vec!["x.net".to_string(), "x.sh".to_string()]);
    let packages = vec![package("npm", "taken"), package("crates", "available"), package("pypi", "taken")];
    assert_eq!(taken_registries(&packages), vec!["npm".to_string(), "pypi".to_string()]);
}

#[test]
fn listing_filters() {
    let parked = DomainDetail { domain: "x.com".into(), available: "registered".into(), site: Some("parked".into()) };
    assert!(shows_domain(&parked, false, false));
    assert!(!shows_domain(&parked, true, false));
    assert!(shows_domain(&parked, true, true));
    assert!(shows_entry("taken", false));
    assert!(!shows_entry("taken", true));
    assert!(shows_entry("available", true));
}

fn result_of(details: Vec<DomainDetail>) -> NameResult {
    let total = details.len();
    NameResult {
        name: "x".to_string(),
        score: 0,
        suggested_by: vec![],
        domains: DomainSummary { available: 0, registered: 0, unknown: 0, total, details },
        packages: PackageSummary { available: 0, taken: 0, unknown: 0, total: 0, details: vec![] },
        stores: StoreSummary { available: 0, taken: 0, unknown: 0, total: 0, details: vec![] },
    }
}

#[test]
fn score_without_com_splits_other_share_over_all_domains() {
    // no .com: the two other domains share the other quarter evenly
    let r = result_of(vec![domain("x.dev", "available"), domain("x.io", "available")]);
    assert_eq!(score(&r), 2500);
    assert_eq!(as_fraction(score(&r)), 0.25);
    let half = result_of(vec![domain("x.dev", "available"), domain("x.io", "registered")]);
    assert_eq!(score(&half), 1250);
}

#[test]
fn score_with_com_only() {
    let r = result_of(vec![domain("x.com", "available")]);
    assert_eq!(score(&r), 2500);
    let both = result_of(vec![domain("x.com", "available"), domain("x.dev", "available")]);
    assert_eq!(score(&both), 5000);
}

#[test]
fn summary_line_of_a_short_check() {
    let mut r = result_with("available", "available");
    r.score = 10000;
    assert_eq!(
        summary_lines(&r),
        vec!["  [##########] 100%  test                 .com[+] .dev[+] .io[+] .app[+]  pkg: 2/2".to_string()]
    );
    r.score = 1250;
    r.stores = StoreSummary { available: 1, taken: 1, unknown: 0, total: 2, details: vec![] };
    let lines = summary_lines(&r);
    assert_eq!(lines[0], format!("  [#---------] {:.0}%  test                 .com[+] .dev[+] .io[+] .app[+]  pkg: 2/2  stores: 1/2", 12.5f64));
    assert_eq!(lines.len(), 1);
}

#[test]
fn summary_lines_of_a_wide_check() {
    let details = vec![
        domain("wide.com", "registered"),
        domain("wide.dev", "unknown"),
        domain("wide.io", "available"),
        domain("wide.net", "available"),
        domain("wide.org", "registered"),
        domain("wide.ai", "available"),
        domain("wide.co", "registered"),
    ];
    let mut r = result_of(details);
    r.name = "wide".to_string();
    r.domains.available = 3;
    r.packages = PackageSummary { available: 1, taken: 1, unknown: 0, total: 2, details: vec![package("npm", "taken"), package("crates", "available")] };
    r.score = 4950;
    assert_eq!(
        summary_lines(&r),
        vec![
            "  [#####-----] 50%  wide                 .com[-] .dev[?] .io[+] .app     domains: 3/7  pkg: 1/2".to_string(),
            "         [+] wide.net, wide.ai".to_string(),
            "         [-] pkg: npm".to_string(),
        ]
    );
}

#[test]
fn detail_lines_list_what_is_shown() {
    let mut r = result_of(vec![
        DomainDetail { domain: "x.com".to_string(), available: "registered".to_string(), site: Some("parked".to_string()) },
        domain("x.dev", "available"),
    ]);
    r.suggested_by = vec!["a".to_string(), "b".to_string()];
    r.packages = PackageSummary { available: 0, taken: 1, unknown: 0, total: 1, details: vec![package("npm", "taken")] };
    r.stores = StoreSummary {
        available: 1,
        taken: 0,
        unknown: 0,
        total: 1,
        details: vec![StoreDetail { store: "app-store".to_string(), available: "available".to_string(), similar_count: 3 }],
    };
    assert_eq!(
        detail_lines(&r, false, false),
        vec![
            "         suggested by: a, b".to_string(),
            format!("         [-] {:<24} registered (parked)", "x.com"),
            format!("         [+] {:<24} available", "x.dev"),
            format!("         [-] {:<24} taken", "npm"),
            format!("         [+] {:<24} available (3 similar)", "app-store"),
            String::new(),
        ]
    );
    // only available entries, and parked domains when asked for
    assert_eq!(detail_lines(&r, true, false).len(), 4);
    assert_eq!(detail_lines(&r, true, true).len(), 5);
}
