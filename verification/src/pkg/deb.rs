//! Debian packages (`.deb`).
use crate::cfg::{toml_display, ExtraFields, ExtraValueView, ResolvedTarget};
use crate::meta::PackageMeta;
use crate::pkg::{
    lemma_total_size_prefix, total_size,
    comma_list, comma_list_field, cpu_component, cpu_of, str_field_or, str_field_or_default,
    UnsupportedArch,
};
use crate::text::{
    contains_part, decimal, decimal_string, join, join_with, lemma_occurs_last, lines, lines_of,
    occurs_at, str_eq,
};
use vstd::prelude::*;

verus! {

/// The Debian architecture for a CPU name.
pub open spec fn deb_arch_of(cpu: Seq<char>) -> Option<Seq<char>> {
    if cpu == "x86_64"@ {
        Some("amd64"@)
    } else if cpu == "aarch64"@ {
        Some("arm64"@)
    } else if cpu == "armv7"@ {
        Some("armhf"@)
    } else if cpu == "arm"@ {
        Some("armel"@)
    } else if cpu == "i686"@ || cpu == "i586"@ || cpu == "i386"@ {
        Some("i386"@)
    } else if cpu == "powerpc64le"@ {
        Some("ppc64el"@)
    } else if cpu == "s390x"@ {
        Some("s390x"@)
    } else if cpu == "mips64el"@ {
        Some("mips64el"@)
    } else if cpu == "riscv64"@ {
        Some("riscv64"@)
    } else {
        None
    }
}

/// Determines the Debian architecture from a Rust target triple.
pub fn deb_arch_from_triple(triple: &str) -> (r: Result<String, UnsupportedArch>)
    ensures
        match r {
            Ok(arch) => deb_arch_of(cpu_of(triple@)) == Some(arch@),
            Err(e) => deb_arch_of(cpu_of(triple@)) is None && e == UnsupportedArch::Debian(
                e->Debian_0,
            ) && e->Debian_0@ == cpu_of(triple@),
        },
{
    let cpu = cpu_component(triple);
    let arch = if str_eq(cpu, "x86_64") {
        "amd64"
    } else if str_eq(cpu, "aarch64") {
        "arm64"
    } else if str_eq(cpu, "armv7") {
        "armhf"
    } else if str_eq(cpu, "arm") {
        "armel"
    } else if str_eq(cpu, "i686") || str_eq(cpu, "i586") || str_eq(cpu, "i386") {
        "i386"
    } else if str_eq(cpu, "powerpc64le") {
        "ppc64el"
    } else if str_eq(cpu, "s390x") {
        "s390x"
    } else if str_eq(cpu, "mips64el") {
        "mips64el"
    } else if str_eq(cpu, "riscv64") {
        "riscv64"
    } else {
        return Err(UnsupportedArch::Debian(String::from_str(cpu)));
    };
    Ok(String::from_str(arch))
}


/// Splits a comma-separated field of `extra` into trimmed items.
pub fn split_deb_field(extra: &ExtraFields, key: &str) -> (r: Vec<String>)
    ensures
        r.deep_view() == comma_list(extra@, key@),
{
    comma_list_field(extra, key)
}

/// The installed size in KiB, rounded up, of files of the given sizes in
/// bytes.
pub fn compute_installed_size(sizes: &Vec<u64>) -> (r: u64)
    requires
        total_size(sizes@) <= u64::MAX,
    ensures
        r == (total_size(sizes@) + 1023) / 1024,
{
    let mut total: u64 = 0;
    let mut i: usize = 0;
    while i < sizes.len()
        invariant
            i <= sizes.len(),
            total_size(sizes@) <= u64::MAX,
            total == total_size(sizes@.take(i as int)),
        decreases sizes.len() - i,
    {
        proof {
            assert(sizes@.take(i + 1).drop_last() =~= sizes@.take(i as int));
            lemma_total_size_prefix(sizes@, i + 1);
        }
        total = total + sizes[i];
        i = i + 1;
    }
    proof {
        assert(sizes@.take(i as int) =~= sizes@);
    }
    let kib = total / 1024 + if total % 1024 != 0 {
        1
    } else {
        0
    };
    kib
}

/// The maintainer script names, in the order in which they are looked up.
pub open spec fn script_entry(extra: Map<Seq<char>, ExtraValueView>, name: Seq<char>) -> Seq<
    (Seq<char>, Seq<char>),
> {
    if extra.contains_key(name) && extra[name] is Str {
        seq![(name, extra[name]->Str_0)]
    } else {
        Seq::empty()
    }
}

/// The maintainer scripts a target names: (script, path) for each of
/// `preinst`, `postinst`, `prerm` and `postrm` that is set to a string.
pub open spec fn maintainer_scripts(extra: Map<Seq<char>, ExtraValueView>) -> Seq<
    (Seq<char>, Seq<char>),
> {
    script_entry(extra, "preinst"@) + script_entry(extra, "postinst"@) + script_entry(
        extra,
        "prerm"@,
    ) + script_entry(extra, "postrm"@)
}

/// The position of a maintainer script name in the lookup order `preinst`,
/// `postinst`, `prerm`, `postrm`; -1 for any other name.
pub open spec fn script_rank(name: Seq<char>) -> int {
    if name == "preinst"@ {
        0
    } else if name == "postinst"@ {
        1
    } else if name == "prerm"@ {
        2
    } else if name == "postrm"@ {
        3
    } else {
        -1
    }
}

/// The maintainer scripts of a target are exactly the four script names
/// that it sets to a string path, each paired with that path, in the order
/// `preinst`, `postinst`, `prerm`, `postrm`.
pub proof fn lemma_maintainer_scripts(extra: Map<Seq<char>, ExtraValueView>)
    ensures
        forall|n: Seq<char>|
            0 <= #[trigger] script_rank(n) && extra.contains_key(n) && extra[n] is Str
                ==> maintainer_scripts(extra).contains((n, extra[n]->Str_0)),
        forall|k: int|
            0 <= k < maintainer_scripts(extra).len() ==> {
                let e = #[trigger] maintainer_scripts(extra)[k];
                &&& 0 <= script_rank(e.0)
                &&& extra.contains_key(e.0)
                &&& extra[e.0] == ExtraValueView::Str(e.1)
            },
        forall|k1: int, k2: int|
            0 <= k1 < k2 < maintainer_scripts(extra).len() ==> script_rank(
                #[trigger] maintainer_scripts(extra)[k1].0,
            ) < script_rank(#[trigger] maintainer_scripts(extra)[k2].0),
{
    reveal_strlit("preinst");
    reveal_strlit("postinst");
    reveal_strlit("prerm");
    reveal_strlit("postrm");
    let a = script_entry(extra, "preinst"@);
    let b = script_entry(extra, "postinst"@);
    let c = script_entry(extra, "prerm"@);
    let d = script_entry(extra, "postrm"@);
    let s = maintainer_scripts(extra);
    assert(s == a + b + c + d);
    // The four names differ from one another.
    assert("postinst"@[1] != "preinst"@[1]);
    assert("prerm"@[3] != "preinst"@[3]);
    assert("prerm"@[1] != "postinst"@[1]);
    assert("postrm"@[1] != "preinst"@[1]);
    assert("postrm"@[4] != "postinst"@[4]);
    assert("postrm"@[1] != "prerm"@[1]);
    assert(script_rank("preinst"@) == 0);
    assert(script_rank("postinst"@) == 1);
    assert(script_rank("prerm"@) == 2);
    assert(script_rank("postrm"@) == 3);
    // Each element, with the rank of its name, and where it sits.
    let ranked = |k: int|
        if k < a.len() {
            0int
        } else if k < a.len() + b.len() {
            1int
        } else if k < a.len() + b.len() + c.len() {
            2int
        } else {
            3int
        };
    assert forall|k: int| 0 <= k < s.len() implies script_rank(s[k].0) == ranked(k) && extra.contains_key(
        s[k].0,
    ) && extra[s[k].0] == ExtraValueView::Str(s[k].1) by {
        if k < a.len() {
            assert(s[k] == a[k]);
        } else if k < a.len() + b.len() {
            assert(s[k] == b[k - a.len()]);
        } else if k < a.len() + b.len() + c.len() {
            assert(s[k] == c[k - a.len() - b.len()]);
        } else {
            assert(s[k] == d[k - a.len() - b.len() - c.len()]);
        }
    }
    assert forall|k1: int, k2: int|
        0 <= k1 < k2 < s.len() implies script_rank(#[trigger] s[k1].0) < script_rank(
        #[trigger] s[k2].0,
    ) by {
        assert(script_rank(s[k1].0) == ranked(k1));
        assert(script_rank(s[k2].0) == ranked(k2));
    }
    assert forall|n: Seq<char>|
        0 <= #[trigger] script_rank(n) && extra.contains_key(n) && extra[n] is Str implies s.contains(
        (n, extra[n]->Str_0),
    ) by {
        let x = (n, extra[n]->Str_0);
        if n == "preinst"@ {
            assert(s[0] == x);
        } else if n == "postinst"@ {
            assert(s[a.len() as int] == x);
        } else if n == "prerm"@ {
            assert(s[(a.len() + b.len()) as int] == x);
        } else {
            assert(s[(a.len() + b.len() + c.len()) as int] == x);
        }
    }
}

fn push_script(r: &mut Vec<(String, String)>, extra: &ExtraFields, name: &str)
    ensures
        final(r).deep_view() == old(r).deep_view() + script_entry(extra@, name@),
{
    match extra.get_str(name) {
        Some(path) => {
            let ghost before = r.deep_view();
            r.push((String::from_str(name), String::from_str(path)));
            proof {
                assert(r.deep_view() =~= before + script_entry(extra@, name@));
            }
        },
        None => {
            proof {
                assert(r.deep_view() =~= old(r).deep_view() + script_entry(extra@, name@));
            }
        },
    }
}

/// The maintainer scripts a target names, as (script name, path) pairs.
/// Whether each path exists is for the caller to find out.
pub fn get_scripts(extra: &ExtraFields) -> (r: Vec<(String, String)>)
    ensures
        r.deep_view() == maintainer_scripts(extra@),
{
    let mut r: Vec<(String, String)> = Vec::new();
    push_script(&mut r, extra, "preinst");
    push_script(&mut r, extra, "postinst");
    push_script(&mut r, extra, "prerm");
    push_script(&mut r, extra, "postrm");
    proof {
        assert(r.deep_view() =~= maintainer_scripts(extra@));
    }
    r
}

/// The members of `items` whose flag in `keep` is set, in order.
pub open spec fn kept<T>(items: Seq<T>, keep: Seq<bool>) -> Seq<T>
    decreases items.len(),
{
    if items.len() == 0 {
        Seq::empty()
    } else {
        let init = kept(items.drop_last(), keep.take(items.len() - 1));
        if keep[items.len() - 1] {
            init.push(items.last())
        } else {
            init
        }
    }
}

/// The maintainer scripts whose path exists, given for each script whether
/// its path exists; the others are skipped.
pub fn existing_scripts(scripts: &Vec<(String, String)>, exists: &Vec<bool>) -> (r: Vec<
    (String, String),
>)
    requires
        scripts.len() == exists.len(),
    ensures
        r.deep_view() == kept(scripts.deep_view(), exists@),
{
    let ghost sv = scripts.deep_view();
    let mut r: Vec<(String, String)> = Vec::new();
    let mut i: usize = 0;
    proof {
        assert(r.deep_view() =~= kept(sv.take(0), exists@.take(0)));
    }
    while i < scripts.len()
        invariant
            sv == scripts.deep_view(),
            scripts.len() == exists.len(),
            i <= scripts.len(),
            r.deep_view() == kept(sv.take(i as int), exists@.take(i as int)),
        decreases scripts.len() - i,
    {
        proof {
            assert(sv.take(i + 1).drop_last() =~= sv.take(i as int));
            assert(exists@.take(i + 1).take(i as int) =~= exists@.take(i as int));
            assert(exists@.take(i + 1)[i as int] == exists@[i as int]);
            assert(sv.take(i + 1).last() == sv[i as int]);
        }
        if exists[i] {
            let ghost before = r.deep_view();
            r.push((scripts[i].0.clone(), scripts[i].1.clone()));
            proof {
                assert(r.deep_view() =~= before.push(sv[i as int]));
            }
        }
        i = i + 1;
    }
    proof {
        assert(sv.take(i as int) =~= sv);
        assert(exists@.take(i as int) =~= exists@);
    }
    r
}

/// The fields of a Debian `control` file.
#[derive(Debug)]
pub struct ControlArgs {
    pub package: String,
    pub version: String,
    pub arch: String,
    pub section: String,
    pub priority: String,
    pub maintainer: String,
    pub description: String,
    pub installed_size: u64,
    pub depends: Vec<String>,
    pub recommends: Vec<String>,
    pub suggests: Vec<String>,
    pub conflicts: Vec<String>,
    pub breaks: Vec<String>,
    pub replaces: Vec<String>,
    pub provides: Vec<String>,
    pub enhances: Vec<String>,
    pub pre_depends: Vec<String>,
}

/// A `control` line: `Key: value`.
pub open spec fn field_line(key: Seq<char>, value: Seq<char>) -> Seq<char> {
    key + ": "@ + value + "\n"@
}

/// A `control` line listing `values` separated by `", "`; nothing when there
/// are none.
pub open spec fn list_field_line(key: Seq<char>, values: Seq<Seq<char>>) -> Seq<char> {
    if values.len() == 0 {
        Seq::empty()
    } else {
        field_line(key, join_with(values, ", "@))
    }
}

/// Continuation lines of an extended description, each indented by a space.
pub open spec fn continuation_lines(ls: Seq<Seq<char>>) -> Seq<char>
    decreases ls.len(),
{
    if ls.len() == 0 {
        Seq::empty()
    } else {
        continuation_lines(ls.drop_last()) + " "@ + ls.last() + "\n"@
    }
}

/// The `Description` field: the first line of the description as summary,
/// the other lines as continuation lines; nothing for an empty description.
pub open spec fn description_field(desc: Seq<char>) -> Seq<char> {
    let ls = lines_of(desc);
    if ls.len() == 0 {
        Seq::empty()
    } else {
        field_line("Description"@, ls[0]) + continuation_lines(ls.drop_first())
    }
}

/// The text of the `control` file.
pub open spec fn control_text(a: ControlArgs) -> Seq<char> {
    field_line("Package"@, a.package@) + field_line("Version"@, a.version@) + field_line(
        "Architecture"@,
        a.arch@,
    ) + field_line("Maintainer"@, a.maintainer@) + field_line(
        "Installed-Size"@,
        decimal(a.installed_size as nat),
    ) + field_line("Section"@, a.section@) + field_line("Priority"@, a.priority@)
        + list_field_line("Depends"@, a.depends.deep_view()) + list_field_line(
        "Pre-Depends"@,
        a.pre_depends.deep_view(),
    ) + list_field_line("Recommends"@, a.recommends.deep_view()) + list_field_line(
        "Suggests"@,
        a.suggests.deep_view(),
    ) + list_field_line("Conflicts"@, a.conflicts.deep_view()) + list_field_line(
        "Breaks"@,
        a.breaks.deep_view(),
    ) + list_field_line("Replaces"@, a.replaces.deep_view()) + list_field_line(
        "Provides"@,
        a.provides.deep_view(),
    ) + list_field_line("Enhances"@, a.enhances.deep_view()) + description_field(
        a.description@,
    )
}

/// Every field of a `control` file stands in its text: it starts with the
/// `Package` line, has a `Version`, `Architecture`, `Maintainer`,
/// `Installed-Size`, `Section` and `Priority` line with the given values,
/// a line for each relationship list that is not empty (its members
/// separated by `", "`), and a `Description` line with the first line of a
/// non-empty description.
pub proof fn lemma_control_fields(a: ControlArgs)
    ensures
        occurs_at(control_text(a), 0, "Package"@ + ": "@ + a.package@ + "\n"@),
        contains_part(control_text(a), "Package"@ + ": "@ + a.package@ + "\n"@),
        contains_part(control_text(a), "Version"@ + ": "@ + a.version@ + "\n"@),
        contains_part(control_text(a), "Architecture"@ + ": "@ + a.arch@ + "\n"@),
        contains_part(control_text(a), "Maintainer"@ + ": "@ + a.maintainer@ + "\n"@),
        contains_part(control_text(a), "Installed-Size"@ + ": "@ + decimal(a.installed_size as nat) + "\n"@),
        contains_part(control_text(a), "Section"@ + ": "@ + a.section@ + "\n"@),
        contains_part(control_text(a), "Priority"@ + ": "@ + a.priority@ + "\n"@),
        a.depends.len() > 0 ==> contains_part(
            control_text(a),
            "Depends"@ + ": "@ + join_with(a.depends.deep_view(), ", "@) + "\n"@,
        ),
        a.pre_depends.len() > 0 ==> contains_part(
            control_text(a),
            "Pre-Depends"@ + ": "@ + join_with(a.pre_depends.deep_view(), ", "@) + "\n"@,
        ),
        a.recommends.len() > 0 ==> contains_part(
            control_text(a),
            "Recommends"@ + ": "@ + join_with(a.recommends.deep_view(), ", "@) + "\n"@,
        ),
        a.suggests.len() > 0 ==> contains_part(
            control_text(a),
            "Suggests"@ + ": "@ + join_with(a.suggests.deep_view(), ", "@) + "\n"@,
        ),
        a.conflicts.len() > 0 ==> contains_part(
            control_text(a),
            "Conflicts"@ + ": "@ + join_with(a.conflicts.deep_view(), ", "@) + "\n"@,
        ),
        a.breaks.len() > 0 ==> contains_part(
            control_text(a),
            "Breaks"@ + ": "@ + join_with(a.breaks.deep_view(), ", "@) + "\n"@,
        ),
        a.replaces.len() > 0 ==> contains_part(
            control_text(a),
            "Replaces"@ + ": "@ + join_with(a.replaces.deep_view(), ", "@) + "\n"@,
        ),
        a.provides.len() > 0 ==> contains_part(
            control_text(a),
            "Provides"@ + ": "@ + join_with(a.provides.deep_view(), ", "@) + "\n"@,
        ),
        a.enhances.len() > 0 ==> contains_part(
            control_text(a),
            "Enhances"@ + ": "@ + join_with(a.enhances.deep_view(), ", "@) + "\n"@,
        ),
        lines_of(a.description@).len() > 0 ==> contains_part(
            control_text(a),
            "Description"@ + ": "@ + lines_of(a.description@)[0] + "\n"@,
        ),
{
    broadcast use crate::text::lemma_occurs_extend;
    let t = control_text(a);
    let q0 = field_line("Package"@, a.package@);
    let p0 = q0;
    let q1 = field_line("Version"@, a.version@);
    let p1 = p0 + q1;
    let q2 = field_line("Architecture"@, a.arch@);
    let p2 = p1 + q2;
    let q3 = field_line("Maintainer"@, a.maintainer@);
    let p3 = p2 + q3;
    let q4 = field_line("Installed-Size"@, decimal(a.installed_size as nat));
    let p4 = p3 + q4;
    let q5 = field_line("Section"@, a.section@);
    let p5 = p4 + q5;
    let q6 = field_line("Priority"@, a.priority@);
    let p6 = p5 + q6;
    let q7 = list_field_line("Depends"@, a.depends.deep_view());
    let p7 = p6 + q7;
    let q8 = list_field_line("Pre-Depends"@, a.pre_depends.deep_view());
    let p8 = p7 + q8;
    let q9 = list_field_line("Recommends"@, a.recommends.deep_view());
    let p9 = p8 + q9;
    let q10 = list_field_line("Suggests"@, a.suggests.deep_view());
    let p10 = p9 + q10;
    let q11 = list_field_line("Conflicts"@, a.conflicts.deep_view());
    let p11 = p10 + q11;
    let q12 = list_field_line("Breaks"@, a.breaks.deep_view());
    let p12 = p11 + q12;
    let q13 = list_field_line("Replaces"@, a.replaces.deep_view());
    let p13 = p12 + q13;
    let q14 = list_field_line("Provides"@, a.provides.deep_view());
    let p14 = p13 + q14;
    let q15 = list_field_line("Enhances"@, a.enhances.deep_view());
    let p15 = p14 + q15;
    let q16 = description_field(a.description@);
    let p16 = p15 + q16;
    assert(t == p16);
    assert(p0.subrange(0, q0.len() as int) =~= q0);
    assert(occurs_at(t, 0, q0));
    lemma_occurs_last(p0, q1);
    assert(occurs_at(t, p0.len() as int, q1));
    lemma_occurs_last(p1, q2);
    assert(occurs_at(t, p1.len() as int, q2));
    lemma_occurs_last(p2, q3);
    assert(occurs_at(t, p2.len() as int, q3));
    lemma_occurs_last(p3, q4);
    assert(occurs_at(t, p3.len() as int, q4));
    lemma_occurs_last(p4, q5);
    assert(occurs_at(t, p4.len() as int, q5));
    lemma_occurs_last(p5, q6);
    assert(occurs_at(t, p5.len() as int, q6));
    if a.depends.len() > 0 {
        lemma_occurs_last(p6, q7);
        assert(occurs_at(t, p6.len() as int, q7));
    }
    if a.pre_depends.len() > 0 {
        lemma_occurs_last(p7, q8);
        assert(occurs_at(t, p7.len() as int, q8));
    }
    if a.recommends.len() > 0 {
        lemma_occurs_last(p8, q9);
        assert(occurs_at(t, p8.len() as int, q9));
    }
    if a.suggests.len() > 0 {
        lemma_occurs_last(p9, q10);
        assert(occurs_at(t, p9.len() as int, q10));
    }
    if a.conflicts.len() > 0 {
        lemma_occurs_last(p10, q11);
        assert(occurs_at(t, p10.len() as int, q11));
    }
    if a.breaks.len() > 0 {
        lemma_occurs_last(p11, q12);
        assert(occurs_at(t, p11.len() as int, q12));
    }
    if a.replaces.len() > 0 {
        lemma_occurs_last(p12, q13);
        assert(occurs_at(t, p12.len() as int, q13));
    }
    if a.provides.len() > 0 {
        lemma_occurs_last(p13, q14);
        assert(occurs_at(t, p13.len() as int, q14));
    }
    if a.enhances.len() > 0 {
        lemma_occurs_last(p14, q15);
        assert(occurs_at(t, p14.len() as int, q15));
    }
    if lines_of(a.description@).len() > 0 {
        lemma_occurs_last(p15, q16);
        let d = "Description"@ + ": "@ + lines_of(a.description@)[0] + "\n"@;
        assert(q16.subrange(0, d.len() as int) =~= d);
        assert(t.subrange(p15.len() as int, (p15.len() + d.len()) as int) =~= d);
        assert(occurs_at(t, p15.len() as int, d));
    }
}

fn push_field(out: &mut String, key: &str, value: &str)
    ensures
        final(out)@ == old(out)@ + field_line(key@, value@),
{
    out.append(key);
    out.append(": ");
    out.append(value);
    out.append("\n");
    proof {
        assert(final(out)@ =~= old(out)@ + field_line(key@, value@));
    }
}

fn push_list_field(out: &mut String, key: &str, values: &Vec<String>)
    ensures
        final(out)@ == old(out)@ + list_field_line(key@, values.deep_view()),
{
    if values.len() > 0 {
        let joined = join(values, ", ");
        push_field(out, key, joined.as_str());
    } else {
        proof {
            assert(old(out)@ + list_field_line(key@, values.deep_view()) =~= old(out)@);
        }
    }
}

fn push_description(out: &mut String, description: &str)
    ensures
        final(out)@ == old(out)@ + description_field(description@),
{
    let ls = lines(description);
    let ghost lv = ls.deep_view();
    if ls.len() == 0 {
        proof {
            assert(old(out)@ + description_field(description@) =~= old(out)@);
        }
        return;
    }
    push_field(out, "Description", ls[0]);
    let ghost base = out@;
    proof {
        assert(lv.drop_first().take(0) =~= Seq::<Seq<char>>::empty());
        assert(out@ =~= base + continuation_lines(lv.drop_first().take(0)));
    }
    let mut i: usize = 1;
    while i < ls.len()
        invariant
            lv == ls.deep_view(),
            1 <= i <= ls.len(),
            out@ == base + continuation_lines(lv.drop_first().take(i - 1)),
        decreases ls.len() - i,
    {
        out.append(" ");
        out.append(ls[i]);
        out.append("\n");
        proof {
            let rest = lv.drop_first();
            assert(rest.take(i as int).drop_last() =~= rest.take(i - 1));
            assert(rest.take(i as int).last() == lv[i as int]);
            assert(out@ =~= base + continuation_lines(rest.take(i as int)));
        }
        i = i + 1;
    }
    proof {
        assert(lv.drop_first().take(i - 1) =~= lv.drop_first());
        assert(out@ =~= old(out)@ + description_field(description@));
    }
}

/// Writes the `control` file's text.
pub fn write_control(args: &ControlArgs) -> (r: String)
    ensures
        r@ == control_text(*args),
{
    let mut out = String::new();
    push_field(&mut out, "Package", args.package.as_str());
    push_field(&mut out, "Version", args.version.as_str());
    push_field(&mut out, "Architecture", args.arch.as_str());
    push_field(&mut out, "Maintainer", args.maintainer.as_str());
    let size = decimal_string(args.installed_size);
    push_field(&mut out, "Installed-Size", size.as_str());
    push_field(&mut out, "Section", args.section.as_str());
    push_field(&mut out, "Priority", args.priority.as_str());
    push_list_field(&mut out, "Depends", &args.depends);
    push_list_field(&mut out, "Pre-Depends", &args.pre_depends);
    push_list_field(&mut out, "Recommends", &args.recommends);
    push_list_field(&mut out, "Suggests", &args.suggests);
    push_list_field(&mut out, "Conflicts", &args.conflicts);
    push_list_field(&mut out, "Breaks", &args.breaks);
    push_list_field(&mut out, "Replaces", &args.replaces);
    push_list_field(&mut out, "Provides", &args.provides);
    push_list_field(&mut out, "Enhances", &args.enhances);
    push_description(&mut out, args.description.as_str());
    proof {
        assert(out@ =~= control_text(*args));
    }
    out
}

/// The text of the `conffiles` file: one configuration file per line.
pub open spec fn conffiles_text(conffiles: Seq<Seq<char>>) -> Seq<char>
    decreases conffiles.len(),
{
    if conffiles.len() == 0 {
        Seq::empty()
    } else {
        conffiles_text(conffiles.drop_last()) + conffiles.last() + "\n"@
    }
}

/// Writes the `conffiles` file's text.
pub fn write_conffiles(conffiles: &Vec<String>) -> (r: String)
    ensures
        r@ == conffiles_text(conffiles.deep_view()),
{
    let mut out = String::new();
    let ghost cv = conffiles.deep_view();
    let mut i: usize = 0;
    proof {
        assert(cv.take(0) =~= Seq::<Seq<char>>::empty());
    }
    while i < conffiles.len()
        invariant
            cv == conffiles.deep_view(),
            i <= conffiles.len(),
            out@ == conffiles_text(cv.take(i as int)),
        decreases conffiles.len() - i,
    {
        out.append(conffiles[i].as_str());
        out.append("\n");
        proof {
            assert(cv.take(i + 1).drop_last() =~= cv.take(i as int));
            assert(out@ =~= conffiles_text(cv.take(i + 1)));
        }
        i = i + 1;
    }
    proof {
        assert(cv.take(i as int) =~= cv);
    }
    out
}


/// The maintainer: the text of the `maintainer` field when it is set to a
/// string, its TOML rendering when it is set to another kind of value, and
/// otherwise the package authors separated by `", "`.
pub open spec fn maintainer_of(extra: Map<Seq<char>, ExtraValueView>, pkg: PackageMeta) -> Seq<
    char,
> {
    if extra.contains_key("maintainer"@) {
        match extra["maintainer"@] {
            ExtraValueView::Str(s) => s,
            v => toml_display(v),
        }
    } else {
        join_with(pkg.authors.deep_view(), ", "@)
    }
}

/// The package's own description, or `"Rust package"` when it has none.
pub open spec fn package_description(pkg: PackageMeta) -> Seq<char> {
    match pkg.description {
        Some(d) => d@,
        None => "Rust package"@,
    }
}

/// The description: the string field `description` when set, otherwise the
/// package's own.
pub open spec fn description_of(extra: Map<Seq<char>, ExtraValueView>, pkg: PackageMeta) -> Seq<
    char,
> {
    str_field_or(extra, "description"@, package_description(pkg))
}

/// The `control` fields for packaging `target` as `name` at `version`: the
/// architecture from the target triple, section and priority (by default
/// `utils` and `optional`), maintainer, description and the relationship
/// lists from the format-specific fields.
pub open spec fn control_args_for(
    a: ControlArgs,
    target: ResolvedTarget,
    pkg: PackageMeta,
    name: Seq<char>,
    version: Seq<char>,
    installed_size: u64,
) -> bool {
    let extra = target.extra@;
    &&& deb_arch_of(cpu_of(target.target@)) == Some(a.arch@)
    &&& a.package@ == name
    &&& a.version@ == version
    &&& a.section@ == str_field_or(extra, "section"@, "utils"@)
    &&& a.priority@ == str_field_or(extra, "priority"@, "optional"@)
    &&& a.maintainer@ == maintainer_of(extra, pkg)
    &&& a.description@ == description_of(extra, pkg)
    &&& a.installed_size == installed_size
    &&& a.depends.deep_view() == comma_list(extra, "depends"@)
    &&& a.recommends.deep_view() == comma_list(extra, "recommends"@)
    &&& a.suggests.deep_view() == comma_list(extra, "suggests"@)
    &&& a.conflicts.deep_view() == comma_list(extra, "conflicts"@)
    &&& a.breaks.deep_view() == comma_list(extra, "breaks"@)
    &&& a.replaces.deep_view() == comma_list(extra, "replaces"@)
    &&& a.provides.deep_view() == comma_list(extra, "provides"@)
    &&& a.enhances.deep_view() == comma_list(extra, "enhances"@)
    &&& a.pre_depends.deep_view() == comma_list(extra, "pre-depends"@)
}

/// The defaults of the `control` fields documented for the format-specific
/// fields: section `utils`, priority `optional`, the package authors as
/// maintainer and the package's own description (else `Rust package`) when
/// the fields are not set; a string maintainer or description is used as it
/// is written.
pub proof fn lemma_control_defaults(
    a: ControlArgs,
    target: ResolvedTarget,
    pkg: PackageMeta,
    name: Seq<char>,
    version: Seq<char>,
    installed_size: u64,
)
    requires
        control_args_for(a, target, pkg, name, version, installed_size),
    ensures
        a.package@ == name,
        a.version@ == version,
        a.installed_size == installed_size,
        !target.extra@.contains_key("section"@) ==> a.section@ == "utils"@,
        target.extra@.get("section"@) matches Some(ExtraValueView::Str(v)) ==> a.section@ == v,
        !target.extra@.contains_key("priority"@) ==> a.priority@ == "optional"@,
        target.extra@.get("priority"@) matches Some(ExtraValueView::Str(v)) ==> a.priority@ == v,
        !target.extra@.contains_key("maintainer"@) ==> a.maintainer@ == join_with(
            pkg.authors.deep_view(),
            ", "@,
        ),
        target.extra@.get("maintainer"@) matches Some(ExtraValueView::Str(v)) ==> a.maintainer@ == v,
        target.extra@.get("description"@) matches Some(ExtraValueView::Str(v)) ==> a.description@
            == v,
        !target.extra@.contains_key("description"@) ==> a.description@ == match pkg.description {
            Some(d) => d@,
            None => "Rust package"@,
        },
{
}

/// Debian packager – produces `.deb` files.
pub struct DebPackager;

impl DebPackager {
    /// The `control` fields for packaging `target` as `name` at `version`;
    /// fails when the target's CPU has no Debian architecture.
    pub fn control_args(
        &self,
        target: &ResolvedTarget,
        pkg: &PackageMeta,
        name: &str,
        version: &str,
        installed_size: u64,
    ) -> (r: Result<ControlArgs, UnsupportedArch>)
        ensures
            match r {
                Ok(a) => control_args_for(a, *target, *pkg, name@, version@, installed_size),
                Err(e) => deb_arch_of(cpu_of(target.target@)) is None && e
                    == UnsupportedArch::Debian(e->Debian_0) && e->Debian_0@ == cpu_of(
                    target.target@,
                ),
            },
    {
        let arch = match deb_arch_from_triple(target.target.as_str()) {
            Ok(a) => a,
            Err(e) => {
                return Err(e);
            },
        };
        let extra = &target.extra;
        let section = str_field_or_default(extra, "section", "utils");
        let priority = str_field_or_default(extra, "priority", "optional");
        let maintainer = match extra.get("maintainer") {
            Some(v) => match v.as_str() {
                Some(text) => String::from_str(text),
                None => v.to_toml_string(),
            },
            None => join(&pkg.authors, ", "),
        };
        let default_description = match &pkg.description {
            Some(d) => d.clone(),
            None => String::from_str("Rust package"),
        };
        let description = str_field_or_default(extra, "description", default_description.as_str());
        Ok(
            ControlArgs {
                package: String::from_str(name),
                version: String::from_str(version),
                arch: arch,
                section: section,
                priority: priority,
                maintainer: maintainer,
                description: description,
                installed_size: installed_size,
                depends: split_deb_field(extra, "depends"),
                recommends: split_deb_field(extra, "recommends"),
                suggests: split_deb_field(extra, "suggests"),
                conflicts: split_deb_field(extra, "conflicts"),
                breaks: split_deb_field(extra, "breaks"),
                replaces: split_deb_field(extra, "replaces"),
                provides: split_deb_field(extra, "provides"),
                enhances: split_deb_field(extra, "enhances"),
                pre_depends: split_deb_field(extra, "pre-depends"),
            },
        )
    }

    /// The package's file name: `{name}_{version}_{arch}.deb`.
    pub fn file_name(&self, name: &str, version: &str, arch: &str) -> (r: String)
        ensures
            r@ == name@ + "_"@ + version@ + "_"@ + arch@ + ".deb"@,
    {
        let mut r = String::from_str(name);
        r.append("_");
        r.append(version);
        r.append("_");
        r.append(arch);
        r.append(".deb");
        r
    }

    /// The content of the `debian-binary` member: the format version.
    pub fn debian_binary(&self) -> (r: &'static str)
        ensures
            r@ == "2.0\n"@,
    {
        "2.0\n"
    }
}

} // verus!
