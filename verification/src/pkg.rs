//! Package formats and what they have in common.
pub mod deb;
pub mod pac;
pub mod tar;

use crate::cfg::{ExtraFields, ExtraValueView};
use crate::text::{lemma_split_on_nonempty, split_char, split_on, str_eq, trim, trimmed};
use vstd::prelude::*;

verus! {

/// The package formats that can be built.
#[derive(Debug, Clone, Copy, PartialEq, Eq, Structural)]
pub enum PackageFormat {
    /// A plain `.tar.gz` archive of the staging directory.
    TarGz,
    /// A Debian package.
    Deb,
    /// An Arch Linux pacman package.
    Pacman,
}

/// The package format a configuration names, if it is supported.
pub open spec fn format_named(name: Seq<char>) -> Option<PackageFormat> {
    if name == "tgz"@ {
        Some(PackageFormat::TarGz)
    } else if name == "deb"@ {
        Some(PackageFormat::Deb)
    } else if name == "pkg"@ {
        Some(PackageFormat::Pacman)
    } else {
        None
    }
}

/// The package format a name stands for: `tgz`, `deb` or `pkg`; `None` for
/// any other name.
pub fn format_of(format: &str) -> (r: Option<PackageFormat>)
    ensures
        r == format_named(format@),
{
    if str_eq(format, "tgz") {
        Some(PackageFormat::TarGz)
    } else if str_eq(format, "deb") {
        Some(PackageFormat::Deb)
    } else if str_eq(format, "pkg") {
        Some(PackageFormat::Pacman)
    } else {
        None
    }
}

/// The packager for a supported format name (`tgz`, `deb` or `pkg`). Any
/// other format is not supported, and asking for its packager is an error
/// of the caller.
pub fn packager(format: &str) -> (r: PackageFormat)
    requires
        format_named(format@) is Some,
    ensures
        format_named(format@) == Some(r),
{
    match format_of(format) {
        Some(f) => f,
        None => PackageFormat::TarGz,
    }
}

/// The CPU part of a target triple: the text before its first `'-'`.
pub open spec fn cpu_of(triple: Seq<char>) -> Seq<char> {
    split_on(triple, '-')[0]
}

/// The CPU part of a target triple.
pub fn cpu_component(triple: &str) -> (r: &str)
    ensures
        r@ == cpu_of(triple@),
{
    let pieces = split_char(triple, '-');
    proof {
        lemma_split_on_nonempty(triple@, '-');
        assert(pieces.deep_view()[0] == pieces@[0]@);
    }
    pieces[0]
}

/// A target triple whose CPU has no name in a package format.
#[derive(Debug)]
pub enum UnsupportedArch {
    /// No Debian architecture for this CPU.
    Debian(String),
    /// No pacman architecture for this CPU.
    Pacman(String),
}

impl UnsupportedArch {
    /// The error message.
    pub open spec fn message(self) -> Seq<char> {
        match self {
            UnsupportedArch::Debian(cpu) => "Unsupported architecture for Debian: "@ + cpu@,
            UnsupportedArch::Pacman(cpu) => "Unsupported architecture for pacman: "@ + cpu@,
        }
    }

    /// The error message.
    pub fn to_string(&self) -> (r: String)
        ensures
            r@ == self.message(),
    {
        match self {
            UnsupportedArch::Debian(cpu) => {
                let mut r = String::from_str("Unsupported architecture for Debian: ");
                r.append(cpu.as_str());
                r
            },
            UnsupportedArch::Pacman(cpu) => {
                let mut r = String::from_str("Unsupported architecture for pacman: ");
                r.append(cpu.as_str());
                r
            },
        }
    }
}


/// The comma-separated list in the string field `key`, each item trimmed of
/// white space; empty when the field is not set to a string.
pub open spec fn comma_list(extra: Map<Seq<char>, ExtraValueView>, key: Seq<char>) -> Seq<
    Seq<char>,
> {
    if extra.contains_key(key) && extra[key] is Str {
        split_on(extra[key]->Str_0, ',').map_values(|p: Seq<char>| trimmed(p))
    } else {
        Seq::empty()
    }
}

/// Splits the comma-separated string field `key` into trimmed items.
pub fn comma_list_field(extra: &ExtraFields, key: &str) -> (r: Vec<String>)
    ensures
        r.deep_view() == comma_list(extra@, key@),
{
    let mut r: Vec<String> = Vec::new();
    match extra.get_str(key) {
        Some(s) => {
            let pieces = split_char(s, ',');
            let ghost pv = pieces.deep_view();
            let mut i: usize = 0;
            while i < pieces.len()
                invariant
                    pv == pieces.deep_view(),
                    i <= pieces.len(),
                    r.deep_view() =~= pv.map_values(|p: Seq<char>| trimmed(p)).take(i as int),
                decreases pieces.len() - i,
            {
                let t = trim(pieces[i]);
                let ghost before = r.deep_view();
                r.push(String::from_str(t));
                proof {
                    assert(r.deep_view() =~= before.push(trimmed(pv[i as int])));
                }
                i = i + 1;
            }
            proof {
                assert(pv.map_values(|p: Seq<char>| trimmed(p)).take(i as int) =~= pv.map_values(
                    |p: Seq<char>| trimmed(p),
                ));
            }
            r
        },
        None => {
            proof {
                assert(r.deep_view() =~= Seq::<Seq<char>>::empty());
            }
            r
        },
    }
}

/// The text of the string field `key`, or `default` when it is not set to a
/// string.
pub open spec fn str_field_or(
    extra: Map<Seq<char>, ExtraValueView>,
    key: Seq<char>,
    default: Seq<char>,
) -> Seq<char> {
    if extra.contains_key(key) && extra[key] is Str {
        extra[key]->Str_0
    } else {
        default
    }
}

/// The text of the string field `key`, or `default`.
pub fn str_field_or_default(extra: &ExtraFields, key: &str, default: &str) -> (r: String)
    ensures
        r@ == str_field_or(extra@, key@, default@),
{
    match extra.get_str(key) {
        Some(s) => String::from_str(s),
        None => String::from_str(default),
    }
}

/// The sum of the sizes in `sizes`.
pub open spec fn total_size(sizes: Seq<u64>) -> int
    decreases sizes.len(),
{
    if sizes.len() == 0 {
        0
    } else {
        total_size(sizes.drop_last()) + sizes.last()
    }
}

pub(crate) proof fn lemma_total_size_prefix(sizes: Seq<u64>, i: int)
    requires
        0 <= i <= sizes.len(),
    ensures
        0 <= total_size(sizes.take(i)) <= total_size(sizes),
    decreases sizes.len() - i,
{
    if i < sizes.len() {
        lemma_total_size_prefix(sizes, i + 1);
        assert(sizes.take(i + 1).drop_last() =~= sizes.take(i));
    } else {
        assert(sizes.take(i) =~= sizes);
    }
    if i > 0 {
        lemma_total_size_nonneg(sizes.take(i));
    }
}

proof fn lemma_total_size_nonneg(sizes: Seq<u64>)
    ensures
        total_size(sizes) >= 0,
    decreases sizes.len(),
{
    if sizes.len() > 0 {
        lemma_total_size_nonneg(sizes.drop_last());
    }
}


/// The total of the file sizes, or `None` when it does not fit in a `u64`.
pub fn checked_total(sizes: &Vec<u64>) -> (r: Option<u64>)
    ensures
        match r {
            Some(t) => t == total_size(sizes@),
            None => total_size(sizes@) > u64::MAX,
        },
{
    let mut total: u64 = 0;
    let mut i: usize = 0;
    while i < sizes.len()
        invariant
            i <= sizes.len(),
            total == total_size(sizes@.take(i as int)),
        decreases sizes.len() - i,
    {
        proof {
            assert(sizes@.take(i + 1).drop_last() =~= sizes@.take(i as int));
        }
        if total > u64::MAX - sizes[i] {
            proof {
                lemma_total_size_prefix(sizes@, i + 1);
            }
            return None;
        }
        total = total + sizes[i];
        i = i + 1;
    }
    proof {
        assert(sizes@.take(i as int) =~= sizes@);
    }
    Some(total)
}

} // verus!
