use caucus::names::{parse_names, strip_char, strip_list_marker, validate_name};

#[test]
fn test_parse_names() {
    let response = "1. aurora\n2. drift\n3. nexus\n4. INVALID NAME WITH SPACES\n5. ok-name";
    let names = parse_names(response);
    assert_eq!(names, vec!["aurora", "drift", "nexus", "ok-name"]);
}

#[test]
fn test_parse_names_with_backticks() {
    let response = "1. `aurora`\n2. **drift**\n- nexus";
    let names = parse_names(response);
    assert_eq!(names, vec!["aurora", "drift", "nexus"]);
}

#[test]
fn test_validate_name() {
    assert!(validate_name("aurora"));
    assert!(validate_name("my-app"));
    assert!(validate_name("app2"));
    assert!(!validate_name("a")); // too short
    assert!(!validate_name("-bad"));
    assert!(!validate_name("bad-"));
    assert!(!validate_name("has spaces"));
    assert!(!validate_name("UPPERCASE"));
}

#[test]
fn parse_names_uppercase_is_lowercased() {
    let names = parse_names("1) Aurora\n2) x\n   * `Big-Sky` *  \n\n");
    assert_eq!(names, vec!["aurora"]);
}

#[test]
fn validate_name_length_limits() {
    assert!(validate_name("ab"));
    assert!(validate_name(&"a".repeat(40)));
    assert!(!validate_name(&"a".repeat(41)));
    assert!(!validate_name("caf\u{e9}"));
    assert!(!validate_name(""));
}

fn chars(s: &str) -> Vec<char> {
    s.chars().collect()
}

#[test]
fn list_markers_and_quotes_are_stripped() {
    assert_eq!(strip_list_marker(&chars("12.) foo")), chars(" foo"));
    assert_eq!(strip_list_marker(&chars("- * bar")), chars(" * bar"));
    assert_eq!(strip_list_marker(&chars("baz1")), chars("baz1"));
    assert_eq!(strip_char(&chars("``code``"), '`'), chars("code"));
    assert_eq!(strip_char(&chars("```"), '`'), chars(""));
    assert_eq!(strip_char(&chars("a`b"), '`'), chars("a`b"));
}
