//! Command-line arguments and the choice of targets to build.
use crate::cfg::ResolvedTarget;
use crate::text::{split_words, str_eq, words_of};
use vstd::prelude::*;

verus! {

/// The command-line arguments.
#[derive(Debug)]
pub struct Cli {
    /// Target to build.
    pub target: Option<String>,
    /// Build all targets.
    pub all: bool,
    /// List the targets.
    pub list: bool,
    /// Build in debug mode.
    pub debug: bool,
    /// Output directory (`target/packages` by default).
    pub out_dir: String,
    /// Arguments passed on to `cargo build`.
    pub cargo_args: Vec<String>,
}

/// Why no targets could be chosen.
#[derive(Debug)]
pub enum SelectError {
    /// The target asked for is not configured (its name).
    TargetNotFound(String),
    /// No target was asked for and none is called `default`.
    NoDefault,
}

impl SelectError {
    /// The error message.
    pub open spec fn message(self) -> Seq<char> {
        match self {
            SelectError::TargetNotFound(t) => "'"@ + t@ + "' target not found."@,
            SelectError::NoDefault => "No target is specified, and there is no 'default' target in configuration. Use --list to view the targets or --all to build all."@,
        }
    }

    /// The error message.
    pub fn to_string(&self) -> (r: String)
        ensures
            r@ == self.message(),
    {
        match self {
            SelectError::TargetNotFound(t) => {
                let mut r = String::from_str("'");
                r.append(t.as_str());
                r.append("' target not found.");
                r
            },
            SelectError::NoDefault => String::from_str(
                "No target is specified, and there is no 'default' target in configuration. Use --list to view the targets or --all to build all.",
            ),
        }
    }
}

/// Some resolved target is called `name`.
pub open spec fn has_target(resolved: Seq<ResolvedTarget>, name: Seq<char>) -> bool {
    exists|i: int| 0 <= i < resolved.len() && (#[trigger] resolved[i]).name@ == name
}

/// The names of the resolved targets, in order.
pub open spec fn target_names(resolved: Seq<ResolvedTarget>) -> Seq<Seq<char>> {
    resolved.map_values(|t: ResolvedTarget| t.name@)
}

fn find_target(resolved: &Vec<ResolvedTarget>, name: &str) -> (r: bool)
    ensures
        r == has_target(resolved@, name@),
{
    let mut i: usize = 0;
    while i < resolved.len()
        invariant
            i <= resolved.len(),
            forall|j: int| 0 <= j < i ==> (#[trigger] resolved@[j]).name@ != name@,
        decreases resolved.len() - i,
    {
        if str_eq(resolved[i].name.as_str(), name) {
            return true;
        }
        i = i + 1;
    }
    false
}

/// The targets to build: all of them with `--all`; otherwise the one asked
/// for, which must exist; otherwise the one called `default`, which must
/// exist.
pub fn select_targets(cli: &Cli, resolved: &Vec<ResolvedTarget>) -> (r: Result<
    Vec<String>,
    SelectError,
>)
    ensures
        cli.all ==> (r matches Ok(names) && names.deep_view() == target_names(resolved@)),
        !cli.all ==> match cli.target {
            Some(t) => if has_target(resolved@, t@) {
                r matches Ok(names) && names.deep_view() == seq![t@]
            } else {
                r matches Err(SelectError::TargetNotFound(n)) && n@ == t@
            },
            None => if has_target(resolved@, "default"@) {
                r matches Ok(names) && names.deep_view() == seq!["default"@]
            } else {
                r matches Err(SelectError::NoDefault)
            },
        },
{
    if cli.all {
        let mut names: Vec<String> = Vec::new();
        let mut i: usize = 0;
        while i < resolved.len()
            invariant
                i <= resolved.len(),
                names.deep_view() =~= target_names(resolved@).take(i as int),
            decreases resolved.len() - i,
        {
            let ghost before = names.deep_view();
            names.push(resolved[i].name.clone());
            proof {
                assert(names.deep_view() =~= before.push(resolved@[i as int].name@));
            }
            i = i + 1;
        }
        proof {
            assert(target_names(resolved@).take(i as int) =~= target_names(resolved@));
        }
        Ok(names)
    } else {
        match &cli.target {
            Some(t) => {
                if find_target(resolved, t.as_str()) {
                    let mut names: Vec<String> = Vec::new();
                    names.push(t.clone());
                    proof {
                        assert(names.deep_view() =~= seq![t@]);
                    }
                    Ok(names)
                } else {
                    Err(SelectError::TargetNotFound(t.clone()))
                }
            },
            None => {
                if find_target(resolved, "default") {
                    let mut names: Vec<String> = Vec::new();
                    names.push(String::from_str("default"));
                    proof {
                        assert(names.deep_view() =~= seq!["default"@]);
                    }
                    Ok(names)
                } else {
                    Err(SelectError::NoDefault)
                }
            },
        }
    }
}

/// The `cargo build` flags for a target: the words of its configured flags,
/// then the arguments given after `--` on the command line.
pub fn cargo_flags(target_flags: &Option<String>, cargo_args: &Vec<String>) -> (r: Vec<String>)
    ensures
        r.deep_view() == match target_flags {
            Some(f) => words_of(f@),
            None => Seq::<Seq<char>>::empty(),
        } + cargo_args.deep_view(),
{
    let mut r: Vec<String> = Vec::new();
    match target_flags {
        Some(f) => {
            let words = split_words(f.as_str());
            let ghost wv = words.deep_view();
            let mut i: usize = 0;
            while i < words.len()
                invariant
                    wv == words.deep_view(),
                    i <= words.len(),
                    r.deep_view() =~= wv.take(i as int),
                decreases words.len() - i,
            {
                let ghost before = r.deep_view();
                r.push(String::from_str(words[i]));
                proof {
                    assert(r.deep_view() =~= before.push(wv[i as int]));
                }
                i = i + 1;
            }
            proof {
                assert(wv.take(i as int) =~= wv);
            }
        },
        None => {},
    }
    let ghost start = r.deep_view();
    let mut j: usize = 0;
    while j < cargo_args.len()
        invariant
            j <= cargo_args.len(),
            r.deep_view() =~= start + cargo_args.deep_view().take(j as int),
        decreases cargo_args.len() - j,
    {
        let ghost before = r.deep_view();
        r.push(cargo_args[j].clone());
        proof {
            assert(r.deep_view() =~= before.push(cargo_args.deep_view()[j as int]));
        }
        j = j + 1;
    }
    proof {
        assert(cargo_args.deep_view().take(j as int) =~= cargo_args.deep_view());
    }
    r
}

} // verus!
