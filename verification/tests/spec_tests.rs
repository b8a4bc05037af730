use aldrava::spec::{parse_permission_keyword, CatalogSpec, CommentCommandSpec, DispatchTarget, InputMap, Permission};

#[test]
fn permission_ordering_matches_github_privilege_order() {
    let ascending = [
        Permission::NoAccess,
        Permission::Read,
        Permission::Triage,
        Permission::Write,
        Permission::Maintain,
        Permission::Admin,
    ];
    for pair in ascending.windows(2) {
        assert!(pair[0] < pair[1], "{pair:?} must be strictly ascending");
        assert!(pair[0].level() < pair[1].level());
        assert!(pair[1].at_least(pair[0]));
        assert!(!pair[0].at_least(pair[1]));
    }
}

#[test]
fn from_github_str_unknown_value_is_none() {
    assert_eq!(Permission::from_github_str("bogus"), Permission::NoAccess);
    assert_eq!(Permission::from_github_str(""), Permission::NoAccess);
}

#[test]
fn from_github_str_known_values() {
    assert_eq!(Permission::from_github_str("write"), Permission::Write);
    assert_eq!(Permission::from_github_str("admin"), Permission::Admin);
}

#[test]
fn from_github_str_every_tier_and_case_sensitivity() {
    assert_eq!(Permission::from_github_str("read"), Permission::Read);
    assert_eq!(Permission::from_github_str("triage"), Permission::Triage);
    assert_eq!(Permission::from_github_str("maintain"), Permission::Maintain);
    assert_eq!(Permission::from_github_str("Admin"), Permission::NoAccess);
    assert_eq!(Permission::from_github_str("none"), Permission::NoAccess);
}

#[test]
fn permission_levels_are_exact() {
    assert_eq!(Permission::NoAccess.level(), 0);
    assert_eq!(Permission::Write.level(), 3);
    assert_eq!(Permission::Admin.level(), 5);
    assert!(Permission::Write.at_least(Permission::Write));
}

#[test]
fn catalog_keywords_name_each_tier() {
    assert_eq!(parse_permission_keyword("none"), Some(Permission::NoAccess));
    assert_eq!(parse_permission_keyword("maintain"), Some(Permission::Maintain));
    assert_eq!(parse_permission_keyword("owner"), None);
}

#[test]
fn input_map_insert_get_and_override() {
    let mut m = InputMap::new();
    assert!(m.is_empty());
    assert_eq!(m.insert("a".to_string(), "1".to_string()), None);
    assert_eq!(m.insert("b".to_string(), "2".to_string()), None);
    assert_eq!(m.insert("a".to_string(), "3".to_string()), Some("1".to_string()));
    assert_eq!(m.len(), 2);
    assert_eq!(m.get("a").map(String::as_str), Some("3"));
    assert_eq!(m.get("c"), None);
    let keys: Vec<&str> = m.pairs().iter().map(|(k, _)| k.as_str()).collect();
    assert_eq!(keys, vec!["a", "b"]);
    let copy = m.clone();
    assert_eq!(copy, m);
}

#[test]
fn single_catalog_holds_its_one_command() {
    let cmd = CommentCommandSpec {
        name: "test".to_string(),
        trigger: "/test".to_string(),
        min_permission: Permission::Write,
        trust_pr_author: true,
        allowlist: Vec::new(),
        target: DispatchTarget::Label { name: "ci".to_string() },
    };
    let catalog = CatalogSpec::single(cmd.clone());
    assert_eq!(catalog.commands, vec![cmd]);
    assert!(CatalogSpec::default().commands.is_empty());
}

#[test]
fn input_map_keeps_keys_in_order() {
    let mut inputs = InputMap::new();
    assert_eq!(inputs.insert("zeta".into(), "1".into()), None);
    assert_eq!(inputs.insert("alpha".into(), "2".into()), None);
    assert_eq!(inputs.insert("Mid".into(), "3".into()), None);
    assert_eq!(inputs.insert("alpha".into(), "4".into()), Some("2".to_string()));
    let keys: Vec<&str> = inputs.pairs().iter().map(|(k, _)| k.as_str()).collect();
    assert_eq!(keys, vec!["Mid", "alpha", "zeta"]);
    assert_eq!(inputs.get("alpha").map(String::as_str), Some("4"));
    assert_eq!(inputs.len(), 3);
}
