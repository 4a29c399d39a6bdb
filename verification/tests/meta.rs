use cargo_mkdist::meta::{
    bin_target_names, find_package, get_binary_names, FindPackageError, PackageMeta, TargetMeta,
    WorkspaceMetadata,
};

fn dummy_metadata() -> WorkspaceMetadata {
    let root_id = "root 0.1.0 (path+file:///fake)".to_string();
    let pkg = PackageMeta {
        name: "root".to_string(),
        id: root_id.clone(),
        version: "0.1.0".to_string(),
        authors: vec![],
        description: None,
        targets: vec![
            TargetMeta { name: "mybin".to_string(), is_bin: true },
            TargetMeta { name: "otherbin".to_string(), is_bin: true },
        ],
    };
    WorkspaceMetadata { packages: vec![pkg], root: Some(root_id) }
}

#[test]
fn find_package_by_name() {
    let meta = dummy_metadata();
    let pkg = find_package(&meta, Some("root".to_string())).unwrap();
    assert_eq!(pkg.name, "root");
}

#[test]
fn find_package_root() {
    let meta = dummy_metadata();
    let pkg = find_package(&meta, None).unwrap();
    assert_eq!(pkg.name, "root");
}

#[test]
fn find_package_not_found() {
    let meta = dummy_metadata();
    let err = find_package(&meta, Some("unknown".to_string())).unwrap_err();
    assert!(err.to_string().contains("not found in workspace"));
}

#[test]
fn get_binary_names_works() {
    let meta = dummy_metadata();
    let pkg = find_package(&meta, None).unwrap();
    let bins = bin_target_names(pkg);
    assert_eq!(bins, vec!["mybin".to_string(), "otherbin".to_string()]);
    assert_eq!(get_binary_names(&meta, None).unwrap(), bins);
}

#[test]
fn bin_names_skip_other_targets() {
    let mut meta = dummy_metadata();
    meta.packages[0].targets.insert(1, TargetMeta { name: "mylib".to_string(), is_bin: false });
    assert_eq!(
        get_binary_names(&meta, Some("root".to_string())).unwrap(),
        vec!["mybin".to_string(), "otherbin".to_string()]
    );
}

#[test]
fn find_package_root_errors() {
    let mut meta = dummy_metadata();
    meta.root = None;
    let err = find_package(&meta, None).unwrap_err();
    assert!(matches!(err, FindPackageError::NoRoot));
    assert_eq!(err.to_string(), "Can't detect root pacakge. Are you in workspace subdirectory?");
    meta.root = Some("elsewhere".to_string());
    let err = find_package(&meta, None).unwrap_err();
    assert!(matches!(err, FindPackageError::RootNotFound));
    assert_eq!(err.to_string(), "Package root not found.");
    let err = get_binary_names(&meta, Some("x".to_string())).unwrap_err();
    assert_eq!(err.to_string(), "'x' not found in workspace");
}

#[test]
fn find_package_takes_first_match() {
    let mut meta = dummy_metadata();
    let mut second = PackageMeta {
        name: "root".to_string(),
        id: "other".to_string(),
        version: "9.9.9".to_string(),
        authors: vec![],
        description: None,
        targets: vec![],
    };
    second.description = Some("second".to_string());
    meta.packages.push(second);
    assert_eq!(find_package(&meta, Some("root".to_string())).unwrap().version, "0.1.0");
}
