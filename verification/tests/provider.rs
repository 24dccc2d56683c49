use caucus::provider::{MockProvider, MultiProvider};

#[test]
fn mock_provider_cycles_through_responses() {
    let mut p = MockProvider::new(vec!["one".to_string(), "two".to_string(), "three".to_string()]);
    let got: Vec<String> = (0..7).map(|_| p.complete("prompt", None)).collect();
    assert_eq!(got, vec!["one", "two", "three", "one", "two", "three", "one"]);
}

#[test]
fn fixed_mock_always_answers_the_same() {
    let mut p = MockProvider::fixed("always");
    assert_eq!(p.complete("a", Some("sys")), "always");
    assert_eq!(p.complete("b", None), "always");
}

#[test]
fn multi_provider_finds_first_registration() {
    let providers = MultiProvider::new().add("a", 1u32).add("b", 2u32).add("a", 3u32);
    assert_eq!(providers.get("a"), Some(&1));
    assert_eq!(providers.get("b"), Some(&2));
    assert_eq!(providers.get("c"), None);
    assert_eq!(providers.models(), vec!["a".to_string(), "b".to_string(), "a".to_string()]);
}
