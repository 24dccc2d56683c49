use caucus::check::{build_config, domain_names, registry_choice, split_comma_list, split_names, CheckOptions, Config, RegistryChoice};

fn options() -> CheckOptions {
    CheckOptions {
        all: false,
        tlds: None,
        all_tlds: false,
        registries: None,
        all_registries: false,
        languages: None,
        stores: None,
        max_names: 20,
    }
}

#[test]
fn names_split_at_spaces_and_commas() {
    assert_eq!(split_names("aurora, drift  nexus,,"), vec!["aurora", "drift", "nexus"]);
    assert_eq!(split_comma_list(" com , dev,io "), vec!["com", "dev", "io"]);
}

#[test]
fn default_configuration() {
    let c = Config::default();
    assert_eq!(c.tlds, vec!["com", "dev", "io", "app"]);
    assert_eq!(c.max_names, 20);
    assert!(matches!(registry_choice(&c), RegistryChoice::Popular));
}

#[test]
fn options_shape_the_configuration() {
    let common = vec!["com".to_string(), "net".to_string(), "org".to_string()];
    let mut o = options();
    o.tlds = Some("sh, ai".into());
    o.registries = Some("npm,crates".into());
    o.stores = Some("app_store".into());
    o.max_names = 5;
    let c = build_config(&o, &common);
    assert_eq!(c.tlds, vec!["sh", "ai"]);
    assert_eq!(c.registry_ids, vec!["npm", "crates"]);
    assert_eq!(c.store_ids, vec!["app_store"]);
    assert_eq!(c.max_names, 5);
    assert!(matches!(registry_choice(&c), RegistryChoice::ByIds));

    let mut all = options();
    all.all = true;
    all.tlds = Some("sh".into());
    let c = build_config(&all, &common);
    assert_eq!(c.tlds, common);
    assert!(c.all_registries);
    assert!(matches!(registry_choice(&c), RegistryChoice::All));

    let mut langs = options();
    langs.all = true;
    langs.languages = Some("rust, python".into());
    let c = build_config(&langs, &common);
    assert_eq!(c.languages, vec!["rust", "python"]);
    assert!(!c.all_registries);
    assert!(matches!(registry_choice(&c), RegistryChoice::ByLanguages));
}

#[test]
fn domains_for_a_name() {
    assert_eq!(
        domain_names("aurora", &vec!["com".to_string(), "dev".to_string()]),
        vec!["aurora.com", "aurora.dev"]
    );
}
