use cargo_mkdist::cfg::{ExtraFields, ExtraValue, ResolvedTarget};
use cargo_mkdist::meta::PackageMeta;
use cargo_mkdist::pkg::pac::{arch_from_triple, builddate, secs_or_zero, split_extra_field, write_pkginfo, PacmanPackager};

#[test]
fn split_extra_field_empty() {
    let extra = ExtraFields::new();
    assert_eq!(split_extra_field(&extra, "depends"), Vec::<String>::new());
}

#[test]
fn split_extra_field_works() {
    let mut extra = ExtraFields::new();
    extra.insert("depends".to_string(), ExtraValue::Str("glibc, openssl".to_string()));
    assert_eq!(
        split_extra_field(&extra, "depends"),
        vec!["glibc".to_string(), "openssl".to_string()]
    );
}

#[test]
fn arch_from_triple_known() {
    assert_eq!(arch_from_triple("x86_64-unknown-linux-gnu").unwrap(), "x86_64");
    assert_eq!(arch_from_triple("aarch64-unknown-linux-gnu").unwrap(), "aarch64");
    assert_eq!(arch_from_triple("i686-unknown-linux-gnu").unwrap(), "i686");
}

#[test]
fn arch_from_triple_unknown() {
    let err = arch_from_triple("wasm32-unknown-unknown").unwrap_err();
    assert!(err.to_string().contains("Unsupported architecture"));
}

#[test]
fn arch_from_triple_more() {
    assert_eq!(arch_from_triple("armv7-unknown-linux-gnueabihf").unwrap(), "armv7h");
    assert_eq!(arch_from_triple("arm-unknown-linux-gnueabi").unwrap(), "armv7h");
    assert_eq!(arch_from_triple("i386").unwrap(), "i686");
    assert_eq!(arch_from_triple("riscv64-unknown-linux-gnu").unwrap(), "riscv64");
    assert_eq!(
        arch_from_triple("s390x-unknown-linux-gnu").unwrap_err().to_string(),
        "Unsupported architecture for pacman: s390x"
    );
}

#[test]
fn builddate_returns_positive() {
    assert!(builddate() > 0);
}

fn resolved(extra: ExtraFields) -> ResolvedTarget {
    ResolvedTarget {
        name: "arch".to_string(),
        target: "x86_64-unknown-linux-gnu".to_string(),
        format: "pkg".to_string(),
        flags: None,
        extra,
        package: None,
        binaries: None,
        files: None,
    }
}

fn package() -> PackageMeta {
    PackageMeta {
        name: "myapp".to_string(),
        id: "myapp 1.2.3".to_string(),
        version: "1.2.3".to_string(),
        authors: vec!["A <a@x>".to_string()],
        description: None,
        targets: vec![],
    }
}

#[test]
fn pkginfo_defaults_and_text() {
    let p = PacmanPackager.pkginfo(&resolved(ExtraFields::new()), &package(), "myapp", "1.2.3", 1536, 1700000000).unwrap();
    assert_eq!(p.pkgrel, "1");
    assert_eq!(p.epoch, None);
    assert_eq!(p.license, "unknown");
    assert_eq!(p.url, "");
    assert_eq!(p.pkgdesc, "Rust package");
    assert_eq!(
        write_pkginfo(&p),
        "pkgname = myapp\npkgver = 1.2.3-1\npkgdesc = Rust package\narch = x86_64\n\
         license = unknown\nbuilddate = 1700000000\npackager = A <a@x>\nsize = 1536\n"
    );
}

#[test]
fn pkginfo_from_extra() {
    let mut extra = ExtraFields::new();
    extra.insert("pkgrel".to_string(), ExtraValue::Integer(3));
    extra.insert("epoch".to_string(), ExtraValue::Integer(2));
    extra.insert("license".to_string(), ExtraValue::Str("MIT".to_string()));
    extra.insert("url".to_string(), ExtraValue::Str("https://example.com".to_string()));
    extra.insert("depends".to_string(), ExtraValue::Str("glibc, openssl".to_string()));
    extra.insert("backup".to_string(), ExtraValue::Str("etc/myapp.conf".to_string()));
    extra.insert("install".to_string(), ExtraValue::Str("scripts/arch-install.sh".to_string()));
    let t = resolved(extra);
    let p = PacmanPackager.pkginfo(&t, &package(), "myapp", "1.2.3", 10, 5).unwrap();
    assert_eq!(
        write_pkginfo(&p),
        "pkgname = myapp\nepoch = 2\npkgver = 1.2.3-3\npkgdesc = Rust package\narch = x86_64\n\
         license = MIT\nurl = https://example.com\nbuilddate = 5\npackager = A <a@x>\nsize = 10\n\
         depend = glibc\ndepend = openssl\nbackup = etc/myapp.conf\n"
    );
    assert_eq!(PacmanPackager.install_script(&t.extra).as_deref(), Some("scripts/arch-install.sh"));
    assert_eq!(
        PacmanPackager.file_name("myapp", "1.2.3", &p.pkgrel, &p.arch),
        "myapp-1.2.3-3-x86_64.pkg.tar.zst"
    );
}

#[test]
fn pkginfo_unsupported_arch() {
    let mut t = resolved(ExtraFields::new());
    t.target = "sparc64-unknown-linux-gnu".to_string();
    let err = PacmanPackager.pkginfo(&t, &package(), "myapp", "1.2.3", 0, 0).unwrap_err();
    assert_eq!(err.to_string(), "Unsupported architecture for pacman: sparc64");
}

#[test]
fn secs_or_zero_maps_before_epoch_to_zero() {
    assert_eq!(secs_or_zero(Some(1_700_000_000)), 1_700_000_000);
    assert_eq!(secs_or_zero(Some(0)), 0);
    assert_eq!(secs_or_zero(None), 0);
}
