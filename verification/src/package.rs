//! Packages and what is known of them.
use vstd::prelude::*;

use crate::order::Keyed;
use crate::text::own;
use crate::version::{Version, VersionModel};

verus! {

/// Where a package comes from.
#[derive(Debug, Clone, Copy, PartialEq, Eq, Hash, Structural)]
pub enum PackageBackend {
    Pacman,
    Flatpak,
}

impl PackageBackend {
    /// The name of the backend.
    pub fn to_string(&self) -> (out: String)
        ensures
            out@ == (match *self {
                PackageBackend::Pacman => "pacman"@,
                PackageBackend::Flatpak => "flatpak"@,
            }),
    {
        match self {
            PackageBackend::Pacman => own("pacman"),
            PackageBackend::Flatpak => own("flatpak"),
        }
    }
}

/// The state of a package.
#[derive(Debug, Clone, Copy, PartialEq, Eq, Hash, Structural)]
pub enum PackageStatus {
    Installed,
    Available,
    Upgradable,
    Orphan,
}

/// A package.
#[derive(Debug, Clone)]
pub struct Package {
    pub name: String,
    pub version: Version,
    pub description: String,
    pub backend: PackageBackend,
    pub status: PackageStatus,
    pub repository: String,
    /// Whether the user asked for the package.
    pub explicit: bool,
}

impl Package {
    /// A package that is not known to have been asked for.
    pub fn new(
        name: String,
        version: Version,
        description: String,
        backend: PackageBackend,
        status: PackageStatus,
        repository: String,
    ) -> (p: Package)
        ensures
            p.name == name,
            p.version == version,
            p.description == description,
            p.backend == backend,
            p.status == status,
            p.repository == repository,
            !p.explicit,
    {
        Package { name, version, description, backend, status, repository, explicit: false }
    }
}

/// A package.
pub struct PackageModel {
    pub name: Seq<char>,
    pub version: VersionModel,
    pub description: Seq<char>,
    pub backend: PackageBackend,
    pub status: PackageStatus,
    pub repository: Seq<char>,
    pub explicit: bool,
}

impl View for Package {
    type V = PackageModel;

    open spec fn view(&self) -> PackageModel {
        PackageModel {
            name: self.name@,
            version: self.version@,
            description: self.description@,
            backend: self.backend,
            status: self.status,
            repository: self.repository@,
            explicit: self.explicit,
        }
    }
}

/// The contents of a list of packages.
pub open spec fn package_models(list: Seq<Package>) -> Seq<PackageModel> {
    list.map_values(|p: Package| p@)
}

impl Package {
    /// A copy of the package.
    pub fn copied(&self) -> (p: Package)
        ensures
            p@ == self@,
    {
        Package {
            name: own(self.name.as_str()),
            version: self.version.copied(),
            description: own(self.description.as_str()),
            backend: self.backend,
            status: self.status,
            repository: own(self.repository.as_str()),
            explicit: self.explicit,
        }
    }
}

/// Copies a list of packages.
pub fn copy_packages(list: &[Package]) -> (out: Vec<Package>)
    ensures
        package_models(out@) == package_models(list@),
{
    let mut out: Vec<Package> = Vec::new();
    for i in 0..list.len()
        invariant
            out@.len() == i,
            forall|j: int| 0 <= j < i ==> (#[trigger] out@[j])@ == list@[j]@,
    {
        out.push(list[i].copied());
    }
    proof {
        assert(package_models(out@) =~= package_models(list@));
    }
    out
}

impl Keyed for Package {
    open spec fn key_text(&self) -> Seq<char> {
        self.name@
    }

    fn key(&self) -> (r: &str) {
        self.name.as_str()
    }
}

/// Why a package is installed.
#[derive(Debug, Clone, Copy, PartialEq, Eq, Hash, Structural)]
pub enum InstallReason {
    Explicit,
    Dependency,
}

/// All that is known of a package. Dates are seconds since the start of 1970, UTC.
#[derive(Debug, Clone)]
pub struct PackageInfo {
    pub package: Package,
    pub url: Option<String>,
    pub licenses: Vec<String>,
    pub groups: Vec<String>,
    pub depends: Vec<String>,
    pub optdepends: Vec<String>,
    pub provides: Vec<String>,
    pub conflicts: Vec<String>,
    pub replaces: Vec<String>,
    pub installed_size: u64,
    pub download_size: u64,
    pub build_date: Option<i64>,
    pub install_date: Option<i64>,
    pub packager: Option<String>,
    pub arch: String,
    pub reason: Option<InstallReason>,
}

/// A package that a search has found.
#[derive(Debug, Clone)]
pub struct SearchResult {
    pub name: String,
    pub version: Version,
    pub description: String,
    pub backend: PackageBackend,
    pub repository: String,
    pub installed: bool,
    pub installed_version: Option<Version>,
}

impl Keyed for SearchResult {
    open spec fn key_text(&self) -> Seq<char> {
        self.name@
    }

    fn key(&self) -> (r: &str) {
        self.name.as_str()
    }
}

/// A package that can be updated.
#[derive(Debug, Clone)]
pub struct UpdateInfo {
    pub name: String,
    pub current_version: Version,
    pub new_version: Version,
    pub backend: PackageBackend,
    pub repository: String,
    pub download_size: u64,
}

} // verus!
