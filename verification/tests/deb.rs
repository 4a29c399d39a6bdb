use cargo_mkdist::cfg::{ExtraFields, ExtraValue, ResolvedTarget};
use cargo_mkdist::meta::PackageMeta;
use cargo_mkdist::pkg::deb::{
    compute_installed_size, deb_arch_from_triple, existing_scripts, get_scripts, split_deb_field, write_conffiles,
    write_control, ControlArgs, DebPackager,
};

#[test]
fn split_deb_field_empty() {
    let extra = ExtraFields::new();
    assert_eq!(split_deb_field(&extra, "depends"), Vec::<String>::new());
}

#[test]
fn split_deb_field_single() {
    let mut extra = ExtraFields::new();
    extra.insert("depends".to_string(), ExtraValue::Str("libc6".to_string()));
    assert_eq!(split_deb_field(&extra, "depends"), vec!["libc6".to_string()]);
}

#[test]
fn split_deb_field_multiple() {
    let mut extra = ExtraFields::new();
    extra.insert(
        "depends".to_string(),
        ExtraValue::Str("libc6 (>= 2.34), libssl3,  zlib ".to_string()),
    );
    assert_eq!(
        split_deb_field(&extra, "depends"),
        vec!["libc6 (>= 2.34)".to_string(), "libssl3".to_string(), "zlib".to_string()]
    );
}

#[test]
fn split_deb_field_edge_cases() {
    let mut extra = ExtraFields::new();
    extra.insert("a".to_string(), ExtraValue::Str("".to_string()));
    extra.insert("b".to_string(), ExtraValue::Str("x,,\u{a0}y\t,".to_string()));
    extra.insert("c".to_string(), ExtraValue::Integer(5));
    assert_eq!(split_deb_field(&extra, "a"), vec!["".to_string()]);
    assert_eq!(
        split_deb_field(&extra, "b"),
        vec!["x".to_string(), "".to_string(), "y".to_string(), "".to_string()]
    );
    assert_eq!(split_deb_field(&extra, "c"), Vec::<String>::new());
}

#[test]
fn deb_arch_from_triple_known() {
    assert_eq!(deb_arch_from_triple("x86_64-unknown-linux-gnu").unwrap(), "amd64");
    assert_eq!(deb_arch_from_triple("aarch64-unknown-linux-gnu").unwrap(), "arm64");
    assert_eq!(deb_arch_from_triple("armv7-unknown-linux-gnueabihf").unwrap(), "armhf");
    assert_eq!(deb_arch_from_triple("i686-unknown-linux-gnu").unwrap(), "i386");
}

#[test]
fn deb_arch_from_triple_unknown() {
    let err = deb_arch_from_triple("wasm32-unknown-unknown").unwrap_err();
    assert!(err.to_string().contains("Unsupported architecture"));
}

#[test]
fn deb_arch_from_triple_more() {
    assert_eq!(deb_arch_from_triple("arm-unknown-linux-gnueabi").unwrap(), "armel");
    assert_eq!(deb_arch_from_triple("i586").unwrap(), "i386");
    assert_eq!(deb_arch_from_triple("powerpc64le-unknown-linux-gnu").unwrap(), "ppc64el");
    assert_eq!(deb_arch_from_triple("s390x-unknown-linux-gnu").unwrap(), "s390x");
    assert_eq!(deb_arch_from_triple("mips64el-unknown-linux-gnuabi64").unwrap(), "mips64el");
    assert_eq!(deb_arch_from_triple("riscv64gc-unknown-linux-gnu").unwrap_err().to_string(),
        "Unsupported architecture for Debian: riscv64gc");
    assert_eq!(deb_arch_from_triple("").unwrap_err().to_string(),
        "Unsupported architecture for Debian: ");
}

#[test]
fn compute_installed_size_works() {
    // 1 KiB + 0.5 KiB rounds up to 2 KiB.
    assert_eq!(compute_installed_size(&vec![1024, 512]), 2);
    assert_eq!(compute_installed_size(&vec![]), 0);
    assert_eq!(compute_installed_size(&vec![1024, 1024]), 2);
    assert_eq!(compute_installed_size(&vec![1]), 1);
}

#[test]
fn get_scripts_in_order() {
    let mut extra = ExtraFields::new();
    extra.insert("postrm".to_string(), ExtraValue::Str("scripts/postrm.sh".to_string()));
    extra.insert("preinst".to_string(), ExtraValue::Str("scripts/preinst.sh".to_string()));
    extra.insert("prerm".to_string(), ExtraValue::Integer(1));
    assert_eq!(
        get_scripts(&extra),
        vec![
            ("preinst".to_string(), "scripts/preinst.sh".to_string()),
            ("postrm".to_string(), "scripts/postrm.sh".to_string()),
        ]
    );
}

fn control_args() -> ControlArgs {
    ControlArgs {
        package: "myapp".to_string(),
        version: "1.2.3".to_string(),
        arch: "amd64".to_string(),
        section: "utils".to_string(),
        priority: "optional".to_string(),
        maintainer: "Jane <jane@example.com>".to_string(),
        description: "Summary line\nmore detail\r\nlast line\n".to_string(),
        installed_size: 2048,
        depends: vec!["libc6 (>= 2.34)".to_string(), "libssl3".to_string()],
        recommends: vec![],
        suggests: vec![],
        conflicts: vec!["oldapp".to_string()],
        breaks: vec![],
        replaces: vec![],
        provides: vec![],
        enhances: vec![],
        pre_depends: vec!["dpkg".to_string()],
    }
}

#[test]
fn write_control_layout() {
    let text = write_control(&control_args());
    assert_eq!(
        text,
        "Package: myapp\nVersion: 1.2.3\nArchitecture: amd64\nMaintainer: Jane <jane@example.com>\n\
         Installed-Size: 2048\nSection: utils\nPriority: optional\n\
         Depends: libc6 (>= 2.34), libssl3\nPre-Depends: dpkg\nConflicts: oldapp\n\
         Description: Summary line\n more detail\n last line\n"
    );
}

#[test]
fn write_control_empty_description() {
    let mut args = control_args();
    args.description = String::new();
    args.depends = vec![];
    args.pre_depends = vec![];
    args.conflicts = vec![];
    args.installed_size = 0;
    assert_eq!(
        write_control(&args),
        "Package: myapp\nVersion: 1.2.3\nArchitecture: amd64\nMaintainer: Jane <jane@example.com>\n\
         Installed-Size: 0\nSection: utils\nPriority: optional\n"
    );
}

#[test]
fn write_conffiles_one_per_line() {
    assert_eq!(
        write_conffiles(&vec!["/etc/myapp/config.toml".to_string(), "/etc/myapp/b".to_string()]),
        "/etc/myapp/config.toml\n/etc/myapp/b\n"
    );
    assert_eq!(write_conffiles(&vec![]), "");
}

fn resolved(triple: &str, extra: ExtraFields) -> ResolvedTarget {
    ResolvedTarget {
        name: "deb".to_string(),
        target: triple.to_string(),
        format: "deb".to_string(),
        flags: None,
        extra,
        package: None,
        binaries: None,
        files: None,
    }
}

fn package(description: Option<&str>) -> PackageMeta {
    PackageMeta {
        name: "myapp".to_string(),
        id: "myapp 1.2.3".to_string(),
        version: "1.2.3".to_string(),
        authors: vec!["A <a@x>".to_string(), "B".to_string()],
        description: description.map(String::from),
        targets: vec![],
    }
}

#[test]
fn control_args_defaults() {
    let t = resolved("x86_64-unknown-linux-gnu", ExtraFields::new());
    let a = DebPackager.control_args(&t, &package(None), "myapp", "1.2.3", 7).unwrap();
    assert_eq!(a.arch, "amd64");
    assert_eq!(a.section, "utils");
    assert_eq!(a.priority, "optional");
    assert_eq!(a.maintainer, "A <a@x>, B");
    assert_eq!(a.description, "Rust package");
    assert_eq!(a.installed_size, 7);
    assert!(a.depends.is_empty());
    let a = DebPackager.control_args(&t, &package(Some("My app")), "myapp", "1.2.3", 7).unwrap();
    assert_eq!(a.description, "My app");
}

#[test]
fn control_args_from_extra() {
    let mut extra = ExtraFields::new();
    extra.insert("section".to_string(), ExtraValue::Str("net".to_string()));
    extra.insert("priority".to_string(), ExtraValue::Str("required".to_string()));
    extra.insert("maintainer".to_string(), ExtraValue::Str("Jane".to_string()));
    extra.insert("description".to_string(), ExtraValue::Str("Override".to_string()));
    extra.insert("pre-depends".to_string(), ExtraValue::Str("dpkg, tar".to_string()));
    let t = resolved("aarch64-unknown-linux-gnu", extra);
    let a = DebPackager.control_args(&t, &package(Some("Mine")), "myapp", "1.2.3", 1).unwrap();
    assert_eq!(a.arch, "arm64");
    assert_eq!(a.section, "net");
    assert_eq!(a.priority, "required");
    // A string maintainer overrides the authors as it is written.
    assert_eq!(a.maintainer, "Jane");
    assert_eq!(a.description, "Override");
    assert_eq!(a.pre_depends, vec!["dpkg".to_string(), "tar".to_string()]);
}

#[test]
fn control_args_integer_maintainer_rendering() {
    let mut extra = ExtraFields::new();
    extra.insert("maintainer".to_string(), ExtraValue::Integer(-42));
    let t = resolved("x86_64-unknown-linux-gnu", extra);
    let a = DebPackager.control_args(&t, &package(None), "myapp", "1.2.3", 1).unwrap();
    assert_eq!(a.maintainer, "-42");
}

#[test]
fn control_args_unsupported_arch() {
    let t = resolved("wasm32-unknown-unknown", ExtraFields::new());
    let err = DebPackager.control_args(&t, &package(None), "myapp", "1.2.3", 1).unwrap_err();
    assert_eq!(err.to_string(), "Unsupported architecture for Debian: wasm32");
}

#[test]
fn deb_file_name_and_binary() {
    assert_eq!(DebPackager.file_name("myapp", "1.2.3", "amd64"), "myapp_1.2.3_amd64.deb");
    assert_eq!(DebPackager.debian_binary(), "2.0\n");
}

#[test]
fn control_args_maintainer_override_in_control_text() {
    let mut extra = ExtraFields::new();
    extra.insert("maintainer".to_string(), ExtraValue::Str("Jane Doe <jane@example.org>".to_string()));
    let t = resolved("x86_64-unknown-linux-gnu", extra);
    let a = DebPackager.control_args(&t, &package(None), "myapp", "1.2.3", 1).unwrap();
    assert!(write_control(&a).contains("\nMaintainer: Jane Doe <jane@example.org>\n"));
}

#[test]
fn control_args_other_maintainer_uses_rendering() {
    let mut extra = ExtraFields::new();
    extra.insert("maintainer".to_string(), ExtraValue::Other("[\"a\", \"b\"]".to_string()));
    let t = resolved("x86_64-unknown-linux-gnu", extra);
    let a = DebPackager.control_args(&t, &package(None), "myapp", "1.2.3", 1).unwrap();
    assert_eq!(a.maintainer, "[\"a\", \"b\"]");
}

#[test]
fn existing_scripts_skips_missing_paths() {
    let named = vec![
        ("preinst".to_string(), "a.sh".to_string()),
        ("postinst".to_string(), "b.sh".to_string()),
        ("postrm".to_string(), "c.sh".to_string()),
    ];
    assert_eq!(
        existing_scripts(&named, &vec![true, false, true]),
        vec![
            ("preinst".to_string(), "a.sh".to_string()),
            ("postrm".to_string(), "c.sh".to_string()),
        ]
    );
    assert!(existing_scripts(&named, &vec![false, false, false]).is_empty());
}
