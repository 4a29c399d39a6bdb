//! Cargo workspace metadata: finding a package and its binaries.
use crate::text::str_eq;
use vstd::prelude::*;

verus! {

/// A build target of a package, as far as packaging reads it.
#[derive(Debug)]
pub struct TargetMeta {
    /// Target name.
    pub name: String,
    /// The target is a binary.
    pub is_bin: bool,
}

/// A package of the workspace, as far as packaging reads it.
#[derive(Debug)]
pub struct PackageMeta {
    /// Package name.
    pub name: String,
    /// Package id, as `cargo metadata` reports it.
    pub id: String,
    /// Package version.
    pub version: String,
    /// Package authors.
    pub authors: Vec<String>,
    /// Package description.
    pub description: Option<String>,
    /// Build targets of the package.
    pub targets: Vec<TargetMeta>,
}

/// Workspace metadata, as far as packaging reads it.
#[derive(Debug)]
pub struct WorkspaceMetadata {
    /// The packages of the workspace.
    pub packages: Vec<PackageMeta>,
    /// The id of the root package of the resolved dependency graph, if any.
    pub root: Option<String>,
}

/// Why a package could not be found.
#[derive(Debug)]
pub enum FindPackageError {
    /// No package of the workspace has the name sought (that name).
    NotInWorkspace(String),
    /// No package was named and the workspace has no root package.
    NoRoot,
    /// The root package's id matches no package.
    RootNotFound,
}

impl FindPackageError {
    /// The error message.
    pub open spec fn message(self) -> Seq<char> {
        match self {
            FindPackageError::NotInWorkspace(n) => "'"@ + n@ + "' not found in workspace"@,
            FindPackageError::NoRoot => "Can't detect root pacakge. Are you in workspace subdirectory?"@,
            FindPackageError::RootNotFound => "Package root not found."@,
        }
    }

    /// The error message.
    pub fn to_string(&self) -> (r: String)
        ensures
            r@ == self.message(),
    {
        match self {
            FindPackageError::NotInWorkspace(n) => {
                let mut r = String::from_str("'");
                r.append(n.as_str());
                r.append("' not found in workspace");
                r
            },
            FindPackageError::NoRoot => String::from_str(
                "Can't detect root pacakge. Are you in workspace subdirectory?",
            ),
            FindPackageError::RootNotFound => String::from_str("Package root not found."),
        }
    }
}

/// `p` is the package sought: the one named `wanted`, or, when no name is
/// given, the workspace's root package.
pub open spec fn is_sought(m: &WorkspaceMetadata, wanted: Option<String>, p: PackageMeta) -> bool {
    match wanted {
        Some(n) => p.name@ == n@,
        None => match m.root {
            Some(id) => p.id@ == id@,
            None => false,
        },
    }
}

/// Finds a package by its name, or the root package when no name is given.
/// The first package sought is returned.
pub fn find_package(metadata: &WorkspaceMetadata, package_name: Option<String>) -> (r: Result<
    &PackageMeta,
    FindPackageError,
>)
    ensures
        r is Ok <==> exists|i: int|
            0 <= i < metadata.packages.len() && is_sought(
                metadata,
                package_name,
                #[trigger] metadata.packages@[i],
            ),
        r matches Ok(p) ==> exists|i: int|
            0 <= i < metadata.packages.len() && *p == metadata.packages@[i] && is_sought(
                metadata,
                package_name,
                metadata.packages@[i],
            ) && forall|j: int|
                0 <= j < i ==> !is_sought(metadata, package_name, #[trigger] metadata.packages@[j]),
        r matches Err(FindPackageError::NotInWorkspace(n)) ==> package_name matches Some(w) && n@
            == w@,
        r matches Err(FindPackageError::NoRoot) ==> package_name is None && metadata.root is None,
        r matches Err(FindPackageError::RootNotFound) ==> package_name is None
            && metadata.root is Some,
{
    let ghost wanted = package_name;
    let mut i: usize = 0;
    match &package_name {
        Some(name) => {
            while i < metadata.packages.len()
                invariant
                    wanted == Some(*name),
                    package_name == wanted,
                    i <= metadata.packages.len(),
                    forall|j: int|
                        0 <= j < i ==> !is_sought(metadata, wanted, #[trigger] metadata.packages@[j]),
                decreases metadata.packages.len() - i,
            {
                if str_eq(metadata.packages[i].name.as_str(), name.as_str()) {
                    proof {
                        assert(is_sought(metadata, wanted, metadata.packages@[i as int]));
                    }
                    return Ok(&metadata.packages[i]);
                }
                i = i + 1;
            }
            Err(FindPackageError::NotInWorkspace(name.clone()))
        },
        None => {
            let root_id = match &metadata.root {
                Some(id) => id,
                None => {
                    return Err(FindPackageError::NoRoot);
                },
            };
            while i < metadata.packages.len()
                invariant
                    wanted is None,
                    package_name == wanted,
                    metadata.root == Some(*root_id),
                    i <= metadata.packages.len(),
                    forall|j: int|
                        0 <= j < i ==> !is_sought(metadata, wanted, #[trigger] metadata.packages@[j]),
                decreases metadata.packages.len() - i,
            {
                if str_eq(metadata.packages[i].id.as_str(), root_id.as_str()) {
                    proof {
                        assert(is_sought(metadata, wanted, metadata.packages@[i as int]));
                    }
                    return Ok(&metadata.packages[i]);
                }
                i = i + 1;
            }
            Err(FindPackageError::RootNotFound)
        },
    }
}

/// The names of the binary targets among `targets`, in order.
pub open spec fn bin_names(targets: Seq<TargetMeta>) -> Seq<Seq<char>>
    decreases targets.len(),
{
    if targets.len() == 0 {
        Seq::empty()
    } else {
        let init = bin_names(targets.drop_last());
        if targets.last().is_bin {
            init.push(targets.last().name@)
        } else {
            init
        }
    }
}

/// The names of a package's binary targets, in order.
pub fn bin_target_names(package: &PackageMeta) -> (r: Vec<String>)
    ensures
        r.deep_view() == bin_names(package.targets@),
{
    let mut r: Vec<String> = Vec::new();
    let mut i: usize = 0;
    while i < package.targets.len()
        invariant
            i <= package.targets.len(),
            r.deep_view() == bin_names(package.targets@.take(i as int)),
        decreases package.targets.len() - i,
    {
        proof {
            assert(package.targets@.take(i + 1).drop_last() =~= package.targets@.take(i as int));
        }
        if package.targets[i].is_bin {
            let ghost before = r.deep_view();
            r.push(package.targets[i].name.clone());
            proof {
                assert(r.deep_view() =~= before.push(package.targets@[i as int].name@));
            }
        }
        i = i + 1;
    }
    proof {
        assert(package.targets@.take(i as int) =~= package.targets@);
    }
    r
}

/// The names of the binary targets of the package sought (see
/// [`find_package`]).
pub fn get_binary_names(metadata: &WorkspaceMetadata, package: Option<String>) -> (r: Result<
    Vec<String>,
    FindPackageError,
>)
    ensures
        r is Ok <==> exists|i: int|
            0 <= i < metadata.packages.len() && is_sought(
                metadata,
                package,
                #[trigger] metadata.packages@[i],
            ),
        r matches Ok(names) ==> exists|i: int|
            0 <= i < metadata.packages.len() && names.deep_view() == bin_names(
                metadata.packages@[i].targets@,
            ) && is_sought(metadata, package, metadata.packages@[i]) && forall|j: int|
                0 <= j < i ==> !is_sought(metadata, package, #[trigger] metadata.packages@[j]),
        r matches Err(FindPackageError::NotInWorkspace(n)) ==> package matches Some(w) && n@
            == w@,
        r matches Err(FindPackageError::NoRoot) ==> package is None && metadata.root is None,
        r matches Err(FindPackageError::RootNotFound) ==> package is None && metadata.root is Some,
{
    let ghost wanted = package;
    match find_package(metadata, package) {
        Ok(p) => Ok(bin_target_names(p)),
        Err(e) => Err(e),
    }
}

} // verus!
