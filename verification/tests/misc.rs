use cargo_mkdist::build_cmd::build_project_args;
use cargo_mkdist::cfg::{ExtraFields, ResolvedTarget};
use cargo_mkdist::cli::{cargo_flags, select_targets, Cli, SelectError};
use cargo_mkdist::pkg::tar::TarGzPackager;
use cargo_mkdist::pkg::{checked_total, format_of, packager, PackageFormat};
use cargo_mkdist::stage::{binary_dest_path, binary_source_path, parse_mode};
use cargo_mkdist::text::{decimal_string, join_path, lines, signed_decimal_string, split_words, trim};

fn cli(target: Option<&str>, all: bool) -> Cli {
    Cli {
        target: target.map(String::from),
        all,
        list: false,
        debug: false,
        out_dir: "target/packages".to_string(),
        cargo_args: vec![],
    }
}

fn named(name: &str) -> ResolvedTarget {
    ResolvedTarget {
        name: name.to_string(),
        target: "x86_64-unknown-linux-gnu".to_string(),
        format: "tgz".to_string(),
        flags: None,
        extra: ExtraFields::new(),
        package: None,
        binaries: None,
        files: None,
    }
}

#[test]
fn select_all_targets() {
    let resolved = vec![named("a"), named("b")];
    assert_eq!(select_targets(&cli(None, true), &resolved).unwrap(), vec!["a", "b"]);
}

#[test]
fn select_named_target() {
    let resolved = vec![named("a"), named("b")];
    assert_eq!(select_targets(&cli(Some("b"), false), &resolved).unwrap(), vec!["b"]);
    let err = select_targets(&cli(Some("c"), false), &resolved).unwrap_err();
    assert_eq!(err.to_string(), "'c' target not found.");
}

#[test]
fn select_default_target() {
    let resolved = vec![named("a"), named("default")];
    assert_eq!(select_targets(&cli(None, false), &resolved).unwrap(), vec!["default"]);
    let err = select_targets(&cli(None, false), &vec![named("a")]).unwrap_err();
    assert!(matches!(err, SelectError::NoDefault));
    assert!(err.to_string().starts_with("No target is specified"));
}

#[test]
fn cargo_flags_split_and_append() {
    let flags = cargo_flags(
        &Some("  --features=foo\t--locked ".to_string()),
        &vec!["-v".to_string()],
    );
    assert_eq!(flags, vec!["--features=foo", "--locked", "-v"]);
    assert_eq!(cargo_flags(&None, &vec![]), Vec::<String>::new());
}

#[test]
fn build_args_release_and_debug() {
    assert_eq!(
        build_project_args("x86_64-unknown-linux-gnu", &vec!["--locked".to_string()], false, Some("app")),
        vec!["build", "--release", "--target", "x86_64-unknown-linux-gnu", "--package", "app", "--locked"]
    );
    assert_eq!(
        build_project_args("i686-unknown-linux-gnu", &vec![], true, None),
        vec!["build", "--target", "i686-unknown-linux-gnu"]
    );
}

#[test]
fn packager_by_format() {
    assert_eq!(packager("tgz"), PackageFormat::TarGz);
    assert_eq!(packager("deb"), PackageFormat::Deb);
    assert_eq!(packager("pkg"), PackageFormat::Pacman);
    assert_eq!(format_of("deb"), Some(PackageFormat::Deb));
    assert_eq!(format_of("rpm"), None);
    assert_eq!(format_of("DEB"), None);
}

#[test]
fn tgz_file_name() {
    assert_eq!(TarGzPackager.file_name("myapp", "0.1.0"), "myapp-0.1.0.tar.gz");
}

#[test]
fn staging_paths() {
    assert_eq!(
        binary_source_path("myapp", "x86_64-unknown-linux-gnu", false),
        "target/x86_64-unknown-linux-gnu/release/myapp"
    );
    assert_eq!(
        binary_source_path("myapp", "x86_64-unknown-linux-gnu", true),
        "target/x86_64-unknown-linux-gnu/debug/myapp"
    );
    assert_eq!(binary_dest_path("myapp"), "usr/bin/myapp");
    assert_eq!(binary_dest_path("/abs"), "/abs");
    assert_eq!(join_path("a/", "b"), "a/b");
    assert_eq!(join_path("", "b"), "b");
    assert_eq!(join_path("a", ""), "a/");
}

#[test]
fn parse_mode_octal() {
    assert_eq!(parse_mode("644"), Some(0o644));
    assert_eq!(parse_mode("0755"), Some(0o755));
    assert_eq!(parse_mode("+7"), Some(7));
    assert_eq!(parse_mode(""), None);
    assert_eq!(parse_mode("+"), None);
    assert_eq!(parse_mode("-1"), None);
    assert_eq!(parse_mode("8"), None);
    assert_eq!(parse_mode(" 644"), None);
    assert_eq!(parse_mode("37777777777"), Some(u32::MAX));
    assert_eq!(parse_mode("40000000000"), None);
    for s in ["644", "0755", "+7", "", "+", "-1", "8", "17777777777", "77777777777"] {
        assert_eq!(parse_mode(s), u32::from_str_radix(s, 8).ok(), "{s}");
    }
}

#[test]
fn text_primitives_match_std() {
    for s in ["", "  a b  ", "\u{3000}x\u{2028}", "\t\n", "abc"] {
        assert_eq!(trim(s), s.trim());
        assert_eq!(split_words(s), s.split_whitespace().collect::<Vec<_>>());
    }
    for s in ["", "a", "a\n", "a\r\nb", "a\r", "\n\n", "x\ny\r\n"] {
        assert_eq!(lines(s), s.lines().collect::<Vec<_>>());
    }
    assert_eq!(decimal_string(0), "0");
    assert_eq!(decimal_string(u64::MAX), u64::MAX.to_string());
    assert_eq!(signed_decimal_string(i64::MIN), i64::MIN.to_string());
    assert_eq!(signed_decimal_string(-7), "-7");
}

#[test]
fn checked_total_sums_or_overflows() {
    assert_eq!(checked_total(&vec![]), Some(0));
    assert_eq!(checked_total(&vec![10, 20, 12]), Some(42));
    assert_eq!(checked_total(&vec![u64::MAX, 0]), Some(u64::MAX));
    assert_eq!(checked_total(&vec![u64::MAX, 1]), None);
}
