use cargo_mkdist::cfg::{
    resolve_in_order, resolve_targets, DistConfig, ExtraFields, ExtraValue, ResolveError, ResolvedTarget,
    TargetConfig,
};

fn make_target_config(
    target: Option<&str>,
    format: &str,
    inherit: Option<&str>,
    extra: Vec<(&str, &str)>,
) -> TargetConfig {
    let mut extra_map = ExtraFields::new();
    for (k, v) in extra {
        extra_map.insert(k.to_string(), ExtraValue::Str(v.to_string()));
    }
    TargetConfig {
        target: target.map(String::from),
        format: format.to_string(),
        flags: None,
        inherit: inherit.map(String::from),
        extra: extra_map,
        package: None,
        binaries: None,
        files: None,
    }
}

fn get<'a>(resolved: &'a [ResolvedTarget], name: &str) -> Option<&'a ResolvedTarget> {
    resolved.iter().find(|t| t.name == name)
}

#[test]
fn resolve_no_inheritance() {
    let raw = vec![(
        "test".to_string(),
        make_target_config(Some("x86_64-unknown-linux-gnu"), "deb", None, vec![]),
    )];
    let resolved = resolve_targets(raw).unwrap();
    assert_eq!(resolved.len(), 1);
    let t = get(&resolved, "test").unwrap();
    assert_eq!(t.target, "x86_64-unknown-linux-gnu");
    assert_eq!(t.format, "deb");
}

#[test]
fn resolve_inheritance_simple() {
    let raw = vec![
        (
            "base".to_string(),
            make_target_config(Some("x86_64-unknown-linux-gnu"), "tgz", None, vec![]),
        ),
        (
            "child".to_string(),
            make_target_config(None, "deb", Some("base"), vec![("section", "utils")]),
        ),
    ];
    let resolved = resolve_targets(raw).unwrap();
    let child = get(&resolved, "child").unwrap();
    assert_eq!(child.target, "x86_64-unknown-linux-gnu");
    assert_eq!(child.format, "deb");
    assert_eq!(child.extra.get("section").and_then(|v| v.as_str()), Some("utils"));
}

#[test]
fn resolve_inheritance_override() {
    let raw = vec![
        ("base".to_string(), make_target_config(Some("i686-unknown-linux-gnu"), "pkg", None, vec![])),
        (
            "child".to_string(),
            make_target_config(Some("x86_64-unknown-linux-gnu"), "deb", Some("base"), vec![]),
        ),
    ];
    let resolved = resolve_targets(raw).unwrap();
    let child = get(&resolved, "child").unwrap();
    assert_eq!(child.target, "x86_64-unknown-linux-gnu");
    assert_eq!(child.format, "deb");
}

#[test]
fn resolve_cyclic_error() {
    let raw = vec![
        ("a".to_string(), make_target_config(None, "deb", Some("b"), vec![])),
        ("b".to_string(), make_target_config(None, "deb", Some("a"), vec![])),
    ];
    let err = resolve_targets(raw).unwrap_err();
    assert!(err.to_string().contains("Inheritance loop"));
}

#[test]
fn resolve_missing_parent_error() {
    let raw = vec![("child".to_string(), make_target_config(None, "deb", Some("missing"), vec![]))];
    let err = resolve_targets(raw).unwrap_err();
    assert!(err.to_string().contains("'missing' base target not found"));
}

#[test]
fn resolve_missing_target_error() {
    let raw = vec![("test".to_string(), make_target_config(None, "deb", None, vec![]))];
    let err = resolve_targets(raw).unwrap_err();
    assert!(err.to_string().contains("have not 'target'"));
}

#[test]
fn resolve_self_inheritance_is_a_loop() {
    let raw = vec![("a".to_string(), make_target_config(Some("x86_64-unknown-linux-gnu"), "deb", Some("a"), vec![]))];
    let err = resolve_targets(raw).unwrap_err();
    assert!(matches!(err, ResolveError::InheritanceLoop));
    assert_eq!(err.to_string(), "Inheritance loop detected.");
}

#[test]
fn resolve_error_messages_are_exact() {
    let raw = vec![("child".to_string(), make_target_config(None, "deb", Some("missing"), vec![]))];
    assert_eq!(resolve_targets(raw).unwrap_err().to_string(), "'missing' base target not found.");
    let raw = vec![("test".to_string(), make_target_config(Some(""), "deb", None, vec![]))];
    assert_eq!(
        resolve_targets(raw).unwrap_err().to_string(),
        "'test' target have not 'target' and doesn't inherit it."
    );
}

#[test]
fn resolve_chain_listed_child_first() {
    // The base comes last in the list: resolution must follow inheritance,
    // not list order.
    let mut leaf = make_target_config(None, "deb", Some("mid"), vec![("section", "net")]);
    leaf.flags = None;
    let mut mid = make_target_config(None, "pkg", Some("root"), vec![("license", "MIT")]);
    mid.binaries = Some(vec!["myapp".to_string()]);
    let mut root = make_target_config(
        Some("aarch64-unknown-linux-gnu"),
        "tgz",
        None,
        vec![("section", "utils"), ("priority", "extra")],
    );
    root.flags = Some("--release".to_string());
    root.package = Some("rootpkg".to_string());
    let raw = vec![
        ("leaf".to_string(), leaf),
        ("mid".to_string(), mid),
        ("root".to_string(), root),
    ];
    let resolved = resolve_targets(raw).unwrap();
    assert_eq!(resolved.len(), 3);
    assert_eq!(resolved[0].name, "leaf");
    assert_eq!(resolved[1].name, "mid");
    assert_eq!(resolved[2].name, "root");
    let leaf = &resolved[0];
    assert_eq!(leaf.target, "aarch64-unknown-linux-gnu");
    assert_eq!(leaf.format, "deb");
    assert_eq!(leaf.flags.as_deref(), Some("--release"));
    assert_eq!(leaf.binaries, Some(vec!["myapp".to_string()]));
    // The package is the target's own, not inherited.
    assert_eq!(leaf.package, None);
    assert_eq!(leaf.extra.get_str("section"), Some("net"));
    assert_eq!(leaf.extra.get_str("priority"), Some("extra"));
    assert_eq!(leaf.extra.get_str("license"), Some("MIT"));
    assert_eq!(resolved[2].package.as_deref(), Some("rootpkg"));
}

#[test]
fn resolve_docs_inheritance_example() {
    // `deb` and `arch` inherit target, flags and binaries from `linux-base`.
    let mut base = make_target_config(Some("x86_64-unknown-linux-gnu"), "tgz", None, vec![]);
    base.flags = Some("--release".to_string());
    base.binaries = Some(vec!["myapp".to_string()]);
    let raw = vec![
        ("linux-base".to_string(), base),
        ("deb".to_string(), make_target_config(None, "deb", Some("linux-base"), vec![("section", "utils")])),
        ("arch".to_string(), make_target_config(None, "pkg", Some("linux-base"), vec![("license", "MIT")])),
    ];
    let resolved = resolve_targets(raw).unwrap();
    for name in ["deb", "arch"] {
        let t = get(&resolved, name).unwrap();
        assert_eq!(t.target, "x86_64-unknown-linux-gnu");
        assert_eq!(t.flags.as_deref(), Some("--release"));
        assert_eq!(t.binaries, Some(vec!["myapp".to_string()]));
    }
    assert_eq!(get(&resolved, "deb").unwrap().extra.get_str("license"), None);
}

#[test]
fn extra_fields_insert_replaces() {
    let mut extra = ExtraFields::new();
    extra.insert("pkgrel".to_string(), ExtraValue::Integer(3));
    extra.insert("pkgrel".to_string(), ExtraValue::Integer(4));
    assert_eq!(extra.get_integer("pkgrel"), Some(4));
    assert_eq!(extra.get_str("pkgrel"), None);
    assert!(extra.get("missing").is_none());
}

#[test]
fn extra_fields_over_prefers_own() {
    let mut base = ExtraFields::new();
    base.insert("a".to_string(), ExtraValue::Str("base".to_string()));
    base.insert("b".to_string(), ExtraValue::Str("base".to_string()));
    let mut own = ExtraFields::new();
    own.insert("a".to_string(), ExtraValue::Str("own".to_string()));
    let merged = own.over(&base);
    assert_eq!(merged.get_str("a"), Some("own"));
    assert_eq!(merged.get_str("b"), Some("base"));
}

#[test]
fn find_config_takes_first_existing() {
    assert_eq!(DistConfig::find(&vec![false, true, true]).unwrap(), "dist-targets.toml");
    assert_eq!(DistConfig::find(&vec![true, true, false]).unwrap(), ".distinfo/targets.toml");
    assert_eq!(DistConfig::find(&vec![false, false, true]).unwrap(), ".cargo/dist-targets.toml");
    let err = DistConfig::find(&vec![false, false, false]).unwrap_err();
    assert_eq!(err.to_string(), "`.distinfo/targets.toml` not found.");
}

#[test]
fn resolve_in_order_reports_first_failing_target_in_order() {
    let raw = vec![
        ("a".to_string(), make_target_config(None, "deb", None, vec![])),
        ("b".to_string(), make_target_config(None, "deb", Some("gone"), vec![])),
    ];
    let err = resolve_in_order(&raw, &vec![1, 0]).unwrap_err();
    assert_eq!(err.to_string(), "'gone' base target not found.");
    let err = resolve_in_order(&raw, &vec![0, 1]).unwrap_err();
    assert_eq!(err.to_string(), "'a' target have not 'target' and doesn't inherit it.");
}

#[test]
fn resolve_in_order_resolves_against_base() {
    let raw = vec![
        ("child".to_string(), make_target_config(None, "deb", Some("base"), vec![("a", "child")])),
        (
            "base".to_string(),
            make_target_config(Some("aarch64-unknown-linux-gnu"), "tgz", None, vec![("a", "base"), ("b", "base")]),
        ),
    ];
    let resolved = resolve_in_order(&raw, &vec![1, 0]).unwrap();
    assert_eq!(resolved[0].name, "child");
    assert_eq!(resolved[0].target, "aarch64-unknown-linux-gnu");
    assert_eq!(resolved[0].extra.get("a").and_then(|v| v.as_str()), Some("child"));
    assert_eq!(resolved[0].extra.get("b").and_then(|v| v.as_str()), Some("base"));
    assert_eq!(resolved[1].name, "base");
}
