//! Arch Linux pacman packages (`.pkg.tar.zst`).
use crate::cfg::{ExtraFields, ExtraValueView, ResolvedTarget};
use crate::meta::PackageMeta;
use crate::pkg::{
    comma_list, comma_list_field, cpu_component, cpu_of, str_field_or, str_field_or_default,
    UnsupportedArch,
};
use crate::text::{
    contains_part, decimal, decimal_string, join, join_with, lemma_occurs_last, occurs_at,
    signed_decimal, signed_decimal_string, str_eq,
};
use std::time::{Duration, SystemTime, UNIX_EPOCH};
use vstd::prelude::*;

verus! {

/// The pacman architecture for a CPU name.
pub open spec fn pacman_arch_of(cpu: Seq<char>) -> Option<Seq<char>> {
    if cpu == "x86_64"@ {
        Some("x86_64"@)
    } else if cpu == "aarch64"@ {
        Some("aarch64"@)
    } else if cpu == "armv7"@ || cpu == "arm"@ {
        Some("armv7h"@)
    } else if cpu == "i686"@ || cpu == "i586"@ || cpu == "i386"@ {
        Some("i686"@)
    } else if cpu == "riscv64"@ {
        Some("riscv64"@)
    } else {
        None
    }
}

/// Determines the pacman architecture from a Rust target triple.
pub fn arch_from_triple(triple: &str) -> (r: Result<String, UnsupportedArch>)
    ensures
        match r {
            Ok(arch) => pacman_arch_of(cpu_of(triple@)) == Some(arch@),
            Err(e) => pacman_arch_of(cpu_of(triple@)) is None && e == UnsupportedArch::Pacman(
                e->Pacman_0,
            ) && e->Pacman_0@ == cpu_of(triple@),
        },
{
    let cpu = cpu_component(triple);
    let arch = if str_eq(cpu, "x86_64") {
        "x86_64"
    } else if str_eq(cpu, "aarch64") {
        "aarch64"
    } else if str_eq(cpu, "armv7") || str_eq(cpu, "arm") {
        "armv7h"
    } else if str_eq(cpu, "i686") || str_eq(cpu, "i586") || str_eq(cpu, "i386") {
        "i686"
    } else if str_eq(cpu, "riscv64") {
        "riscv64"
    } else {
        return Err(UnsupportedArch::Pacman(String::from_str(cpu)));
    };
    Ok(String::from_str(arch))
}


/// Splits a comma-separated field of `extra` into trimmed items.
pub fn split_extra_field(extra: &ExtraFields, key: &str) -> (r: Vec<String>)
    ensures
        r.deep_view() == comma_list(extra@, key@),
{
    comma_list_field(extra, key)
}

#[verifier::external_type_specification]
#[verifier::external_body]
pub struct ExSystemTime(SystemTime);

/// `SystemTime::now`: the current time of the system clock. Nothing is
/// stated of it.
#[verifier::external_body]
fn system_time_now() -> SystemTime {
    SystemTime::now()
}

/// `SystemTime::duration_since(UNIX_EPOCH)`: the time elapsed since the Unix
/// epoch, or `None` when the time lies before it. Nothing more is stated:
/// the result depends on the clock.
#[verifier::external_body]
fn since_unix_epoch(t: &SystemTime) -> Option<Duration> {
    t.duration_since(UNIX_EPOCH).ok()
}

/// `Duration::as_secs`: the whole seconds of a duration. Nothing is stated
/// of it, since a `Duration` is opaque here.
#[verifier::external_body]
fn duration_secs(d: &Duration) -> u64 {
    d.as_secs()
}

/// The build date from the whole seconds elapsed since the Unix epoch: those
/// seconds, or 0 when the clock is set before the epoch (`None`).
pub fn secs_or_zero(elapsed: Option<u64>) -> (r: u64)
    ensures
        r == match elapsed {
            Some(s) => s,
            None => 0,
        },
{
    match elapsed {
        Some(s) => s,
        None => 0,
    }
}

/// The current time in seconds since the Unix epoch (0 when the clock is set
/// before it), for the `builddate` field.
pub fn builddate() -> u64 {
    let now = system_time_now();
    let elapsed = match since_unix_epoch(&now) {
        Some(d) => Some(duration_secs(&d)),
        None => None,
    };
    secs_or_zero(elapsed)
}

/// The fields of a `.PKGINFO` file.
#[derive(Debug)]
pub struct PkgInfo {
    pub pkgname: String,
    pub epoch: Option<String>,
    pub pkgver: String,
    pub pkgrel: String,
    pub pkgdesc: String,
    pub arch: String,
    pub license: String,
    pub url: String,
    pub builddate: u64,
    pub packager: String,
    pub size: u64,
    pub depends: Vec<String>,
    pub optdepends: Vec<String>,
    pub conflicts: Vec<String>,
    pub provides: Vec<String>,
    pub replaces: Vec<String>,
    pub backup: Vec<String>,
}

/// A `.PKGINFO` line: `key = value`.
pub open spec fn kv_line(key: Seq<char>, value: Seq<char>) -> Seq<char> {
    key + " = "@ + value + "\n"@
}

/// One `.PKGINFO` line per value, each under `key`.
pub open spec fn kv_lines(key: Seq<char>, values: Seq<Seq<char>>) -> Seq<char>
    decreases values.len(),
{
    if values.len() == 0 {
        Seq::empty()
    } else {
        kv_lines(key, values.drop_last()) + kv_line(key, values.last())
    }
}

/// The text of a `.PKGINFO` file.
pub open spec fn pkginfo_text(p: PkgInfo) -> Seq<char> {
    kv_line("pkgname"@, p.pkgname@) + match p.epoch {
        Some(e) => kv_line("epoch"@, e@),
        None => Seq::empty(),
    } + kv_line("pkgver"@, p.pkgver@ + "-"@ + p.pkgrel@) + kv_line("pkgdesc"@, p.pkgdesc@)
        + kv_line("arch"@, p.arch@) + kv_line("license"@, p.license@) + if p.url@.len() == 0 {
        Seq::empty()
    } else {
        kv_line("url"@, p.url@)
    } + kv_line("builddate"@, decimal(p.builddate as nat)) + kv_line("packager"@, p.packager@)
        + kv_line("size"@, decimal(p.size as nat)) + kv_lines("depend"@, p.depends.deep_view())
        + kv_lines("optdepend"@, p.optdepends.deep_view()) + kv_lines(
        "conflict"@,
        p.conflicts.deep_view(),
    ) + kv_lines("provides"@, p.provides.deep_view()) + kv_lines(
        "replaces"@,
        p.replaces.deep_view(),
    ) + kv_lines("backup"@, p.backup.deep_view())
}

/// `text` holds the line `key = value` somewhere.
pub open spec fn has_line(text: Seq<char>, key: Seq<char>, value: Seq<char>) -> bool {
    exists|o: int| #[trigger] occurs_at(text, o, key + " = "@ + value + "\n"@)
}

/// `text` holds the line `key = v1` before the line `key = v2`.
pub open spec fn line_before(text: Seq<char>, key: Seq<char>, v1: Seq<char>, v2: Seq<char>) -> bool {
    exists|o1: int, o2: int|
        o1 < o2 && #[trigger] occurs_at(text, o1, key + " = "@ + v1 + "\n"@) && #[trigger] occurs_at(
            text,
            o2,
            key + " = "@ + v2 + "\n"@,
        )
}

/// Every value of a list stands in `text` on a line `key = value` of its own,
/// and the lines come in the order of the list.
pub open spec fn list_in_text(text: Seq<char>, key: Seq<char>, values: Seq<Seq<char>>) -> bool {
    &&& forall|k: int| 0 <= k < values.len() ==> #[trigger] has_line(text, key, values[k])
    &&& forall|k1: int, k2: int|
        0 <= k1 < k2 < values.len() ==> #[trigger] line_before(text, key, values[k1], values[k2])
}

proof fn lemma_kv_lines_concat(key: Seq<char>, a: Seq<Seq<char>>, b: Seq<Seq<char>>)
    ensures
        kv_lines(key, a + b) == kv_lines(key, a) + kv_lines(key, b),
    decreases b.len(),
{
    if b.len() == 0 {
        assert(a + b =~= a);
        assert(kv_lines(key, a) + kv_lines(key, b) =~= kv_lines(key, a));
    } else {
        lemma_kv_lines_concat(key, a, b.drop_last());
        assert((a + b).drop_last() =~= a + b.drop_last());
        assert((a + b).last() == b.last());
        assert(kv_lines(key, a + b) =~= kv_lines(key, a) + kv_lines(key, b));
    }
}

proof fn lemma_kv_lines_len(key: Seq<char>, vs: Seq<Seq<char>>)
    ensures
        kv_lines(key, vs).len() >= vs.len(),
    decreases vs.len(),
{
    reveal_strlit(" = ");
    reveal_strlit("\n");
    if vs.len() > 0 {
        lemma_kv_lines_len(key, vs.drop_last());
    }
}

/// Where the line of value `k` starts in `kv_lines(key, vs)`.
spec fn line_offset(key: Seq<char>, vs: Seq<Seq<char>>, k: int) -> int {
    kv_lines(key, vs.take(k)).len() as int
}

proof fn lemma_kv_lines_at(key: Seq<char>, vs: Seq<Seq<char>>, k: int)
    requires
        0 <= k < vs.len(),
    ensures
        occurs_at(kv_lines(key, vs), line_offset(key, vs, k), key + " = "@ + vs[k] + "\n"@),
{
    let line = key + " = "@ + vs[k] + "\n"@;
    let front = vs.take(k + 1);
    let back = vs.skip(k + 1);
    assert(vs =~= front + back);
    lemma_kv_lines_concat(key, front, back);
    assert(front.drop_last() =~= vs.take(k));
    assert(front.last() == vs[k]);
    assert(kv_lines(key, front) == kv_lines(key, vs.take(k)) + line);
    let off = line_offset(key, vs, k);
    assert(kv_lines(key, vs).subrange(off, off + line.len()) =~= line);
}

proof fn lemma_offsets_increase(key: Seq<char>, vs: Seq<Seq<char>>, k1: int, k2: int)
    requires
        0 <= k1 < k2 <= vs.len(),
    ensures
        line_offset(key, vs, k1) < line_offset(key, vs, k2),
{
    let mid = vs.subrange(k1, k2);
    assert(vs.take(k2) =~= vs.take(k1) + mid);
    lemma_kv_lines_concat(key, vs.take(k1), mid);
    lemma_kv_lines_len(key, mid);
}

proof fn lemma_list_in_concat(pre: Seq<char>, key: Seq<char>, vs: Seq<Seq<char>>, post: Seq<char>)
    ensures
        list_in_text(pre + kv_lines(key, vs) + post, key, vs),
{
    let text = pre + kv_lines(key, vs) + post;
    let kl = kv_lines(key, vs);
    assert forall|k: int| 0 <= k < vs.len() implies occurs_at(
        text,
        pre.len() + line_offset(key, vs, k),
        key + " = "@ + vs[k] + "\n"@,
    ) by {
        let line = key + " = "@ + vs[k] + "\n"@;
        let off = line_offset(key, vs, k);
        lemma_kv_lines_at(key, vs, k);
        assert(text.subrange(pre.len() + off, pre.len() + off + line.len()) =~= kl.subrange(
            off,
            off + line.len(),
        ));
    }
    assert forall|k: int| 0 <= k < vs.len() implies #[trigger] has_line(text, key, vs[k]) by {
        assert(occurs_at(text, pre.len() + line_offset(key, vs, k), key + " = "@ + vs[k] + "\n"@));
    }
    assert forall|k1: int, k2: int| 0 <= k1 < k2 < vs.len() implies #[trigger] line_before(
        text,
        key,
        vs[k1],
        vs[k2],
    ) by {
        lemma_offsets_increase(key, vs, k1, k2);
        let o1 = pre.len() + line_offset(key, vs, k1);
        let o2 = pre.len() + line_offset(key, vs, k2);
        assert(occurs_at(text, o1, key + " = "@ + vs[k1] + "\n"@));
        assert(occurs_at(text, o2, key + " = "@ + vs[k2] + "\n"@));
    }
}

/// The scalar lines at the top of a `.PKGINFO` text, up to `size`.
#[verifier::opaque]
spec fn pkginfo_head(p: PkgInfo) -> Seq<char> {
    kv_line("pkgname"@, p.pkgname@) + match p.epoch {
        Some(e) => kv_line("epoch"@, e@),
        None => Seq::empty(),
    } + kv_line("pkgver"@, p.pkgver@ + "-"@ + p.pkgrel@) + kv_line("pkgdesc"@, p.pkgdesc@)
        + kv_line("arch"@, p.arch@) + kv_line("license"@, p.license@) + if p.url@.len() == 0 {
        Seq::empty()
    } else {
        kv_line("url"@, p.url@)
    } + kv_line("builddate"@, decimal(p.builddate as nat)) + kv_line("packager"@, p.packager@)
        + kv_line("size"@, decimal(p.size as nat))
}

proof fn lemma_pkginfo_parts(p: PkgInfo)
    ensures
        pkginfo_text(p) == pkginfo_head(p) + kv_lines("depend"@, p.depends.deep_view()) + kv_lines(
            "optdepend"@,
            p.optdepends.deep_view(),
        ) + kv_lines("conflict"@, p.conflicts.deep_view()) + kv_lines(
            "provides"@,
            p.provides.deep_view(),
        ) + kv_lines("replaces"@, p.replaces.deep_view()) + kv_lines("backup"@, p.backup.deep_view()),
{
    reveal(pkginfo_head);
}

/// Every scalar field of a `.PKGINFO` stands in its text on a `key = value`
/// line: it starts with the `pkgname` line, and has the `pkgver` line
/// (`version-release`), `pkgdesc`, `arch`, `license`, `builddate`,
/// `packager` and `size` lines, an `epoch` line when there is an epoch, and a
/// `url` line when the URL is not empty.
pub proof fn lemma_pkginfo_fields(p: PkgInfo)
    ensures
        occurs_at(pkginfo_text(p), 0, "pkgname"@ + " = "@ + p.pkgname@ + "\n"@),
        contains_part(pkginfo_text(p), "pkgname"@ + " = "@ + p.pkgname@ + "\n"@),
        p.epoch matches Some(e) ==> contains_part(pkginfo_text(p), "epoch"@ + " = "@ + e@ + "\n"@),
        contains_part(pkginfo_text(p), "pkgver"@ + " = "@ + (p.pkgver@ + "-"@ + p.pkgrel@) + "\n"@),
        contains_part(pkginfo_text(p), "pkgdesc"@ + " = "@ + p.pkgdesc@ + "\n"@),
        contains_part(pkginfo_text(p), "arch"@ + " = "@ + p.arch@ + "\n"@),
        contains_part(pkginfo_text(p), "license"@ + " = "@ + p.license@ + "\n"@),
        p.url@.len() > 0 ==> contains_part(pkginfo_text(p), "url"@ + " = "@ + p.url@ + "\n"@),
        contains_part(pkginfo_text(p), "builddate"@ + " = "@ + decimal(p.builddate as nat) + "\n"@),
        contains_part(pkginfo_text(p), "packager"@ + " = "@ + p.packager@ + "\n"@),
        contains_part(pkginfo_text(p), "size"@ + " = "@ + decimal(p.size as nat) + "\n"@),
{
    broadcast use crate::text::lemma_occurs_extend;
    reveal(pkginfo_head);
    lemma_pkginfo_parts(p);
    let t = pkginfo_text(p);
    let q0 = kv_line("pkgname"@, p.pkgname@);
    let p0 = q0;
    let q1 = match p.epoch {
        Some(e) => kv_line("epoch"@, e@),
        None => Seq::empty(),
    };
    let p1 = p0 + q1;
    let q2 = kv_line("pkgver"@, p.pkgver@ + "-"@ + p.pkgrel@);
    let p2 = p1 + q2;
    let q3 = kv_line("pkgdesc"@, p.pkgdesc@);
    let p3 = p2 + q3;
    let q4 = kv_line("arch"@, p.arch@);
    let p4 = p3 + q4;
    let q5 = kv_line("license"@, p.license@);
    let p5 = p4 + q5;
    let q6 = if p.url@.len() == 0 {
        Seq::empty()
    } else {
        kv_line("url"@, p.url@)
    };
    let p6 = p5 + q6;
    let q7 = kv_line("builddate"@, decimal(p.builddate as nat));
    let p7 = p6 + q7;
    let q8 = kv_line("packager"@, p.packager@);
    let p8 = p7 + q8;
    let q9 = kv_line("size"@, decimal(p.size as nat));
    let p9 = p8 + q9;
    assert(pkginfo_head(p) == p9);
    assert(p0.subrange(0, q0.len() as int) =~= q0);
    assert(occurs_at(t, 0, q0));
    if let Some(e) = p.epoch {
        lemma_occurs_last(p0, q1);
        assert(occurs_at(t, p0.len() as int, q1));
    }
    lemma_occurs_last(p1, q2);
    assert(occurs_at(t, p1.len() as int, q2));
    lemma_occurs_last(p2, q3);
    assert(occurs_at(t, p2.len() as int, q3));
    lemma_occurs_last(p3, q4);
    assert(occurs_at(t, p3.len() as int, q4));
    lemma_occurs_last(p4, q5);
    assert(occurs_at(t, p4.len() as int, q5));
    if p.url@.len() > 0 {
        lemma_occurs_last(p5, q6);
        assert(occurs_at(t, p5.len() as int, q6));
    }
    lemma_occurs_last(p6, q7);
    assert(occurs_at(t, p6.len() as int, q7));
    lemma_occurs_last(p7, q8);
    assert(occurs_at(t, p7.len() as int, q8));
    lemma_occurs_last(p8, q9);
    assert(occurs_at(t, p8.len() as int, q9));
}

/// No list of a `.PKGINFO` is dropped: every dependency, optional
/// dependency, conflict, provided and replaced package and backup file has
/// its own line (`depend = …`, `optdepend = …`, `conflict = …`,
/// `provides = …`, `replaces = …`, `backup = …`) in the text, in list order.
pub proof fn lemma_pkginfo_lists(p: PkgInfo)
    ensures
        list_in_text(pkginfo_text(p), "depend"@, p.depends.deep_view()),
        list_in_text(pkginfo_text(p), "optdepend"@, p.optdepends.deep_view()),
        list_in_text(pkginfo_text(p), "conflict"@, p.conflicts.deep_view()),
        list_in_text(pkginfo_text(p), "provides"@, p.provides.deep_view()),
        list_in_text(pkginfo_text(p), "replaces"@, p.replaces.deep_view()),
        list_in_text(pkginfo_text(p), "backup"@, p.backup.deep_view()),
{
    let text = pkginfo_text(p);
    lemma_pkginfo_parts(p);
    let head = pkginfo_head(p);
    let l1 = kv_lines("depend"@, p.depends.deep_view());
    let l2 = kv_lines("optdepend"@, p.optdepends.deep_view());
    let l3 = kv_lines("conflict"@, p.conflicts.deep_view());
    let l4 = kv_lines("provides"@, p.provides.deep_view());
    let l5 = kv_lines("replaces"@, p.replaces.deep_view());
    let l6 = kv_lines("backup"@, p.backup.deep_view());
    assert(text =~= head + l1 + (l2 + l3 + l4 + l5 + l6));
    lemma_list_in_concat(head, "depend"@, p.depends.deep_view(), l2 + l3 + l4 + l5 + l6);
    assert(text =~= (head + l1) + l2 + (l3 + l4 + l5 + l6));
    lemma_list_in_concat(head + l1, "optdepend"@, p.optdepends.deep_view(), l3 + l4 + l5 + l6);
    assert(text =~= (head + l1 + l2) + l3 + (l4 + l5 + l6));
    lemma_list_in_concat(head + l1 + l2, "conflict"@, p.conflicts.deep_view(), l4 + l5 + l6);
    assert(text =~= (head + l1 + l2 + l3) + l4 + (l5 + l6));
    lemma_list_in_concat(head + l1 + l2 + l3, "provides"@, p.provides.deep_view(), l5 + l6);
    assert(text =~= (head + l1 + l2 + l3 + l4) + l5 + l6);
    lemma_list_in_concat(head + l1 + l2 + l3 + l4, "replaces"@, p.replaces.deep_view(), l6);
    assert(text =~= (head + l1 + l2 + l3 + l4 + l5) + l6 + Seq::<char>::empty());
    lemma_list_in_concat(
        head + l1 + l2 + l3 + l4 + l5,
        "backup"@,
        p.backup.deep_view(),
        Seq::<char>::empty(),
    );
}

fn push_kv(out: &mut String, key: &str, value: &str)
    ensures
        final(out)@ == old(out)@ + kv_line(key@, value@),
{
    out.append(key);
    out.append(" = ");
    out.append(value);
    out.append("\n");
    proof {
        assert(final(out)@ =~= old(out)@ + kv_line(key@, value@));
    }
}

fn push_kv_lines(out: &mut String, key: &str, values: &Vec<String>)
    ensures
        final(out)@ == old(out)@ + kv_lines(key@, values.deep_view()),
{
    let ghost vv = values.deep_view();
    let ghost start = out@;
    let mut i: usize = 0;
    proof {
        assert(vv.take(0) =~= Seq::<Seq<char>>::empty());
        assert(out@ =~= start + kv_lines(key@, vv.take(0)));
    }
    while i < values.len()
        invariant
            vv == values.deep_view(),
            i <= values.len(),
            out@ == start + kv_lines(key@, vv.take(i as int)),
        decreases values.len() - i,
    {
        push_kv(out, key, values[i].as_str());
        proof {
            assert(vv.take(i + 1).drop_last() =~= vv.take(i as int));
            assert(out@ =~= start + kv_lines(key@, vv.take(i + 1)));
        }
        i = i + 1;
    }
    proof {
        assert(vv.take(i as int) =~= vv);
    }
}

/// Writes the `.PKGINFO` file's text.
pub fn write_pkginfo(p: &PkgInfo) -> (r: String)
    ensures
        r@ == pkginfo_text(*p),
{
    let mut out = String::new();
    push_kv(&mut out, "pkgname", p.pkgname.as_str());
    let ghost after_name = out@;
    match &p.epoch {
        Some(e) => push_kv(&mut out, "epoch", e.as_str()),
        None => {},
    }
    let mut ver = p.pkgver.clone();
    ver.append("-");
    ver.append(p.pkgrel.as_str());
    push_kv(&mut out, "pkgver", ver.as_str());
    push_kv(&mut out, "pkgdesc", p.pkgdesc.as_str());
    push_kv(&mut out, "arch", p.arch.as_str());
    push_kv(&mut out, "license", p.license.as_str());
    if !p.url.as_str().is_empty() {
        push_kv(&mut out, "url", p.url.as_str());
    }
    let date = decimal_string(p.builddate);
    push_kv(&mut out, "builddate", date.as_str());
    push_kv(&mut out, "packager", p.packager.as_str());
    let size = decimal_string(p.size);
    push_kv(&mut out, "size", size.as_str());
    push_kv_lines(&mut out, "depend", &p.depends);
    push_kv_lines(&mut out, "optdepend", &p.optdepends);
    push_kv_lines(&mut out, "conflict", &p.conflicts);
    push_kv_lines(&mut out, "provides", &p.provides);
    push_kv_lines(&mut out, "replaces", &p.replaces);
    push_kv_lines(&mut out, "backup", &p.backup);
    proof {
        assert(out@ =~= pkginfo_text(*p));
    }
    out
}

/// The release number: the integer field `pkgrel`, by default 1.
pub open spec fn pkgrel_of(extra: Map<Seq<char>, ExtraValueView>) -> Seq<char> {
    if extra.contains_key("pkgrel"@) && extra["pkgrel"@] is Integer {
        signed_decimal(extra["pkgrel"@]->Integer_0 as int)
    } else {
        signed_decimal(1)
    }
}

/// The epoch: the integer field `epoch`, when set.
pub open spec fn epoch_of(extra: Map<Seq<char>, ExtraValueView>) -> Option<Seq<char>> {
    if extra.contains_key("epoch"@) && extra["epoch"@] is Integer {
        Some(signed_decimal(extra["epoch"@]->Integer_0 as int))
    } else {
        None
    }
}

/// The `.PKGINFO` fields for packaging `target` as `name` at `version`.
pub open spec fn pkginfo_for(
    p: PkgInfo,
    target: ResolvedTarget,
    pkg: PackageMeta,
    name: Seq<char>,
    version: Seq<char>,
    size: u64,
    builddate: u64,
) -> bool {
    let extra = target.extra@;
    &&& pacman_arch_of(cpu_of(target.target@)) == Some(p.arch@)
    &&& p.pkgname@ == name
    &&& p.epoch.deep_view() == epoch_of(extra)
    &&& p.pkgver@ == version
    &&& p.pkgrel@ == pkgrel_of(extra)
    &&& p.pkgdesc@ == match pkg.description {
        Some(d) => d@,
        None => "Rust package"@,
    }
    &&& p.license@ == str_field_or(extra, "license"@, "unknown"@)
    &&& p.url@ == str_field_or(extra, "url"@, ""@)
    &&& p.builddate == builddate
    &&& p.packager@ == join_with(pkg.authors.deep_view(), ", "@)
    &&& p.size == size
    &&& p.depends.deep_view() == comma_list(extra, "depends"@)
    &&& p.optdepends.deep_view() == comma_list(extra, "optdepends"@)
    &&& p.conflicts.deep_view() == comma_list(extra, "conflicts"@)
    &&& p.provides.deep_view() == comma_list(extra, "provides"@)
    &&& p.replaces.deep_view() == comma_list(extra, "replaces"@)
    &&& p.backup.deep_view() == comma_list(extra, "backup"@)
}

/// The defaults of the `.PKGINFO` fields documented for the format-specific
/// fields: release `1` and no epoch unless set to integers, license
/// `unknown` and no URL unless set, and the package's own description (else
/// `Rust package`).
pub proof fn lemma_pkginfo_defaults(
    p: PkgInfo,
    target: ResolvedTarget,
    pkg: PackageMeta,
    name: Seq<char>,
    version: Seq<char>,
    size: u64,
    builddate: u64,
)
    requires
        pkginfo_for(p, target, pkg, name, version, size, builddate),
    ensures
        p.pkgname@ == name,
        p.pkgver@ == version,
        p.size == size,
        p.builddate == builddate,
        !target.extra@.contains_key("pkgrel"@) ==> p.pkgrel@ == "1"@,
        target.extra@.get("pkgrel"@) matches Some(ExtraValueView::Integer(r)) ==> p.pkgrel@
            == signed_decimal(r as int),
        !target.extra@.contains_key("epoch"@) ==> p.epoch is None,
        target.extra@.get("epoch"@) matches Some(ExtraValueView::Integer(e)) ==> p.epoch.deep_view()
            == Some(signed_decimal(e as int)),
        !target.extra@.contains_key("license"@) ==> p.license@ == "unknown"@,
        target.extra@.get("license"@) matches Some(ExtraValueView::Str(v)) ==> p.license@ == v,
        !target.extra@.contains_key("url"@) ==> p.url@.len() == 0,
        p.pkgdesc@ == match pkg.description {
            Some(d) => d@,
            None => "Rust package"@,
        },
{
    reveal_strlit("1");
    reveal_strlit("");
    if !target.extra@.contains_key("pkgrel"@) {
        assert(signed_decimal(1) =~= "1"@);
    }
}

/// Arch Linux pacman packager.
pub struct PacmanPackager;

impl PacmanPackager {
    /// The `.PKGINFO` fields for packaging `target` as `name` at `version`,
    /// with the installed `size` in bytes and the given build date; fails
    /// when the target's CPU has no pacman architecture.
    pub fn pkginfo(
        &self,
        target: &ResolvedTarget,
        pkg: &PackageMeta,
        name: &str,
        version: &str,
        size: u64,
        builddate: u64,
    ) -> (r: Result<PkgInfo, UnsupportedArch>)
        ensures
            match r {
                Ok(p) => pkginfo_for(p, *target, *pkg, name@, version@, size, builddate),
                Err(e) => pacman_arch_of(cpu_of(target.target@)) is None && e
                    == UnsupportedArch::Pacman(e->Pacman_0) && e->Pacman_0@ == cpu_of(
                    target.target@,
                ),
            },
    {
        let arch = match arch_from_triple(target.target.as_str()) {
            Ok(a) => a,
            Err(e) => {
                return Err(e);
            },
        };
        let extra = &target.extra;
        let pkgrel = match extra.get_integer("pkgrel") {
            Some(i) => signed_decimal_string(i),
            None => signed_decimal_string(1),
        };
        let epoch = match extra.get_integer("epoch") {
            Some(i) => Some(signed_decimal_string(i)),
            None => None,
        };
        let pkgdesc = match &pkg.description {
            Some(d) => d.clone(),
            None => String::from_str("Rust package"),
        };
        Ok(
            PkgInfo {
                pkgname: String::from_str(name),
                epoch: epoch,
                pkgver: String::from_str(version),
                pkgrel: pkgrel,
                pkgdesc: pkgdesc,
                arch: arch,
                license: str_field_or_default(extra, "license", "unknown"),
                url: str_field_or_default(extra, "url", ""),
                builddate: builddate,
                packager: join(&pkg.authors, ", "),
                size: size,
                depends: split_extra_field(extra, "depends"),
                optdepends: split_extra_field(extra, "optdepends"),
                conflicts: split_extra_field(extra, "conflicts"),
                provides: split_extra_field(extra, "provides"),
                replaces: split_extra_field(extra, "replaces"),
                backup: split_extra_field(extra, "backup"),
            },
        )
    }

    /// The path of the `.INSTALL` script a target names, if it names one.
    /// Whether it exists is for the caller to find out.
    pub fn install_script(&self, extra: &ExtraFields) -> (r: Option<String>)
        ensures
            match r {
                Some(s) => extra@.contains_key("install"@) && extra@["install"@]
                    == ExtraValueView::Str(s@),
                None => !(extra@.contains_key("install"@) && extra@["install"@] is Str),
            },
    {
        match extra.get_str("install") {
            Some(s) => Some(String::from_str(s)),
            None => None,
        }
    }

    /// The package's file name: `{name}-{version}-{pkgrel}-{arch}.pkg.tar.zst`.
    pub fn file_name(&self, name: &str, version: &str, pkgrel: &str, arch: &str) -> (r: String)
        ensures
            r@ == name@ + "-"@ + version@ + "-"@ + pkgrel@ + "-"@ + arch@ + ".pkg.tar.zst"@,
    {
        let mut r = String::from_str(name);
        r.append("-");
        r.append(version);
        r.append("-");
        r.append(pkgrel);
        r.append("-");
        r.append(arch);
        r.append(".pkg.tar.zst");
        r
    }
}

} // verus!
