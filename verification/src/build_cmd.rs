//! The `cargo build` invocation.
use vstd::prelude::*;

verus! {

/// The arguments of `cargo build` for a target: `build`, `--release` unless
/// in debug mode, `--target <triple>`, `--package <name>` when a package is
/// named, then the flags.
pub open spec fn cargo_build_args(
    target: Seq<char>,
    flags: Seq<Seq<char>>,
    debug: bool,
    package: Option<Seq<char>>,
) -> Seq<Seq<char>> {
    seq!["build"@] + if debug {
        Seq::empty()
    } else {
        seq!["--release"@]
    } + seq!["--target"@, target] + match package {
        Some(p) => seq!["--package"@, p],
        None => Seq::empty(),
    } + flags
}

/// The arguments with which `cargo` builds the project.
pub fn build_project_args(target: &str, flags: &Vec<String>, debug: bool, package: Option<&str>) -> (r: Vec<String>)
    ensures
        r.deep_view() == cargo_build_args(target@, flags.deep_view(), debug, package.deep_view()),
{
    let mut r: Vec<String> = Vec::new();
    r.push(String::from_str("build"));
    if !debug {
        r.push(String::from_str("--release"));
    }
    r.push(String::from_str("--target"));
    r.push(String::from_str(target));
    match package {
        Some(p) => {
            r.push(String::from_str("--package"));
            r.push(String::from_str(p));
        },
        None => {},
    }
    let ghost start = r.deep_view();
    proof {
        assert(start =~= seq!["build"@] + if debug {
            Seq::empty()
        } else {
            seq!["--release"@]
        } + seq!["--target"@, target@] + match package {
            Some(p) => seq!["--package"@, p@],
            None => Seq::<Seq<char>>::empty(),
        });
    }
    let mut j: usize = 0;
    while j < flags.len()
        invariant
            j <= flags.len(),
            r.deep_view() =~= start + flags.deep_view().take(j as int),
        decreases flags.len() - j,
    {
        let ghost before = r.deep_view();
        r.push(flags[j].clone());
        proof {
            assert(r.deep_view() =~= before.push(flags.deep_view()[j as int]));
        }
        j = j + 1;
    }
    proof {
        assert(flags.deep_view().take(j as int) =~= flags.deep_view());
    }
    r
}

/// The layout of the `cargo build` arguments: `build`, then `--release`
/// exactly when not in debug mode, then `--target` and the triple, then
/// `--package` and the package whenever one is named (in either mode), and
/// last the flags, unchanged.
pub proof fn lemma_build_args_layout(
    target: Seq<char>,
    flags: Seq<Seq<char>>,
    debug: bool,
    package: Option<Seq<char>>,
)
    ensures
        ({
            let a = cargo_build_args(target, flags, debug, package);
            let t: int = if debug {
                1
            } else {
                2
            };
            let o: int = t + 2;
            let extra: int = if package is Some {
                2
            } else {
                0
            };
            &&& a.len() == o + extra + flags.len()
            &&& a[0] == "build"@
            &&& !debug ==> a[1] == "--release"@
            &&& a[t] == "--target"@
            &&& a[t + 1] == target
            &&& package matches Some(p) ==> a[o] == "--package"@ && a[o + 1] == p
            &&& forall|k: int| 0 <= k < flags.len() ==> #[trigger] a[o + extra + k] == flags[k]
        }),
        package matches Some(p) ==> exists|i: int|
            0 <= i < cargo_build_args(target, flags, debug, package).len() - 1
                && #[trigger] cargo_build_args(target, flags, debug, package)[i] == "--package"@
                && cargo_build_args(target, flags, debug, package)[i + 1] == p,
{
    let a = cargo_build_args(target, flags, debug, package);
    let t: int = if debug {
        1
    } else {
        2
    };
    let o: int = t + 2;
    let extra: int = if package is Some {
        2
    } else {
        0
    };
    let head: Seq<Seq<char>> = seq!["build"@] + if debug {
        Seq::empty()
    } else {
        seq!["--release"@]
    } + seq!["--target"@, target] + match package {
        Some(p) => seq!["--package"@, p],
        None => Seq::empty(),
    };
    assert(a == head + flags);
    assert(head.len() == o + extra);
    assert(head[0] == "build"@);
    if !debug {
        assert(head[1] == "--release"@);
    }
    assert(head[t] == "--target"@);
    assert(head[t + 1] == target);
    if let Some(p) = package {
        assert(head[o] == "--package"@);
        assert(head[o + 1] == p);
        assert(a[o] == "--package"@ && a[o + 1] == p);
    }
    assert forall|k: int| 0 <= k < flags.len() implies #[trigger] a[o + extra + k] == flags[k] by {
        assert(a[head.len() + k] == flags[k]);
    }
}

} // verus!
