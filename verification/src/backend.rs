//! The pacman backend: what it makes of the packages that libalpm reports.
use chrono::{DateTime, Utc};
use vstd::prelude::*;

use crate::conf::{config_in, default_config, AlpmConfig};
use crate::error::{Error, ErrorModel};
use crate::operation::{Operation, OperationKind, OperationResult, OperationStatus};
use crate::package::{InstallReason, Package, PackageBackend, PackageInfo, PackageStatus,
    SearchResult, UpdateInfo};
use crate::text::{has_chars, holds, lowered, opt_text, own, own_all, own_option, same_text, texts,
    to_chars, to_lower};
use crate::version::{version_of, Version};

verus! {

// ---------------------------------------------------------------------------
// What libalpm reports

/// Why libalpm has a package installed.
#[derive(Debug, Clone, Copy, PartialEq, Eq, Structural)]
pub enum PackageReason {
    Explicit,
    Depend,
}

/// A package of a database of libalpm. Sizes and dates are as libalpm gives them.
#[derive(Debug, Clone)]
pub struct AlpmPackage {
    pub name: String,
    pub version: String,
    pub desc: Option<String>,
    pub reason: PackageReason,
    pub required_by: Vec<String>,
    pub optional_for: Vec<String>,
    pub url: Option<String>,
    pub licenses: Vec<String>,
    pub groups: Vec<String>,
    pub depends: Vec<String>,
    pub optdepends: Vec<String>,
    pub provides: Vec<String>,
    pub conflicts: Vec<String>,
    pub replaces: Vec<String>,
    pub isize: i64,
    pub download_size: i64,
    pub build_date: i64,
    pub install_date: Option<i64>,
    pub packager: Option<String>,
    pub arch: Option<String>,
}

/// A database of a repository with its packages.
#[derive(Debug, Clone)]
pub struct SyncDatabase {
    pub name: String,
    pub packages: Vec<AlpmPackage>,
}

/// A package of a repository with the name of an installed one.
#[derive(Debug, Clone)]
pub struct UpdateCandidate {
    pub repository: String,
    pub version: String,
    pub download_size: i64,
    /// Whether libalpm holds its version to be newer than the installed one.
    pub newer: bool,
}

/// An installed package with the packages of its name in the repositories, in their order.
#[derive(Debug, Clone)]
pub struct LocalPackage {
    pub name: String,
    pub version: String,
    pub candidates: Vec<UpdateCandidate>,
}

/// What a repository answers when it is asked for a package of a name.
#[derive(Debug, Clone)]
pub struct SyncAnswer {
    pub repository: String,
    pub package: Option<AlpmPackage>,
}

/// The first package among the answers of the repositories, with its repository.
pub open spec fn first_answer(list: Seq<SyncAnswer>) -> Option<(Seq<char>, AlpmPackage)>
    decreases list.len(),
{
    if list.len() == 0 {
        None
    } else {
        match list[0].package {
            Some(pkg) => Some((list[0].repository@, pkg)),
            None => first_answer(list.skip(1)),
        }
    }
}

/// The description of a package, empty where it has none.
pub open spec fn desc_text(desc: Option<String>) -> Seq<char> {
    match desc {
        Some(s) => s@,
        None => seq![],
    }
}

fn description(desc: &Option<String>) -> (out: String)
    ensures
        out@ == desc_text(*desc),
{
    match desc {
        Some(s) => own(s.as_str()),
        None => String::new(),
    }
}

/// Whether a package was installed as a dependency that nothing needs any more.
pub open spec fn is_orphan(pkg: AlpmPackage) -> bool {
    pkg.reason == PackageReason::Depend && pkg.required_by@.len() == 0 && pkg.optional_for@.len()
        == 0
}

/// Finds packages that nothing needs any more.
#[derive(Debug, Clone, Copy)]
pub struct OrphanDetector;

impl OrphanDetector {
    /// A detector.
    pub fn new() -> (d: OrphanDetector)
        ensures
            d == OrphanDetector,
    {
        OrphanDetector
    }

    /// Whether a package was installed as a dependency that nothing needs any more.
    pub fn is_orphan(&self, pkg: &AlpmPackage) -> (r: bool)
        ensures
            r == is_orphan(*pkg),
    {
        if pkg.reason != PackageReason::Depend {
            return false;
        }
        pkg.required_by.len() == 0 && pkg.optional_for.len() == 0
    }
}

impl Default for OrphanDetector {
    fn default() -> (d: OrphanDetector)
        ensures
            d == OrphanDetector,
    {
        OrphanDetector::new()
    }
}

/// The seconds since the start of 1970 that `chrono` can turn into a date: from the start of the
/// year -262143 to the end of the year 262142.
pub open spec fn is_date(secs: i64) -> bool {
    -8_334_601_228_800 <= secs <= 8_210_266_876_799
}

/// `chrono::DateTime::from_timestamp` and back with `DateTime::timestamp`: the seconds themselves,
/// or nothing where they lie outside the dates that `chrono` knows.
#[verifier::external_body]
fn date_from(secs: i64) -> (r: Option<i64>)
    ensures
        r == (if is_date(secs) {
            Some(secs)
        } else {
            None
        }),
{
    DateTime::<Utc>::from_timestamp(secs, 0).map(|d| d.timestamp())
}

/// A date as it is kept: the start of 1970 stands for one that is out of range.
pub open spec fn kept_date(secs: i64) -> i64 {
    if is_date(secs) {
        secs
    } else {
        0
    }
}

fn keep_date(secs: i64) -> (d: i64)
    ensures
        d == kept_date(secs),
{
    match date_from(secs) {
        Some(d) => d,
        None => 0,
    }
}

/// A size of libalpm as it is kept; a negative one wraps around.
pub open spec fn kept_size(size: i64) -> u64 {
    size as u64
}

fn keep_size(size: i64) -> (n: u64)
    ensures
        n == kept_size(size),
{
    #[verifier::truncate]
    (size as u64)
}

// ---------------------------------------------------------------------------
// The backend

/// The pacman backend.
#[derive(Debug)]
pub struct AlpmBackend {
    config: AlpmConfig,
}

impl AlpmBackend {
    /// Where the backend finds the files of pacman.
    pub closed spec fn config_spec(self) -> AlpmConfig {
        self.config
    }

    /// Where the backend finds the files of pacman.
    pub fn config(&self) -> (c: &AlpmConfig)
        ensures
            *c == self.config_spec(),
    {
        &self.config
    }

    /// The backend for the configuration in `/etc/pacman.conf`, where that could be read;
    /// `dbpath_exists` tells whether the directory of the databases exists.
    pub fn new(content: Option<&str>, dbpath_exists: bool) -> (r: Result<AlpmBackend, Error>)
        ensures
            r is Ok == dbpath_exists,
            ({
                let config = match content {
                    Some(text) => config_in(text@),
                    None => default_config(),
                };
                match r {
                    Ok(b) => b.config_spec()@ == config,
                    Err(e) => e@ == ErrorModel::DatabaseError(
                        "Database path does not exist: "@ + config.dbpath,
                    ),
                }
            }),
    {
        AlpmBackend::with_config(AlpmConfig::from_pacman_conf(content), dbpath_exists)
    }

    /// The backend for a configuration; without the directory of the databases there is none.
    pub fn with_config(config: AlpmConfig, dbpath_exists: bool) -> (r: Result<AlpmBackend, Error>)
        ensures
            r is Ok == dbpath_exists,
            match r {
                Ok(b) => b.config_spec() == config,
                Err(e) => e@ == ErrorModel::DatabaseError(
                    "Database path does not exist: "@ + config.dbpath@,
                ),
            },
    {
        if !dbpath_exists {
            let mut message = own("Database path does not exist: ");
            message.append(config.dbpath.as_str());
            return Err(Error::DatabaseError(message));
        }
        Ok(AlpmBackend { config })
    }

    /// The identifier of the backend.
    pub fn source_id(&self) -> (r: &str)
        ensures
            r@ == "pacman"@,
    {
        "pacman"
    }

    /// The name of the backend.
    pub fn display_name(&self) -> (r: &str)
        ensures
            r@ == "Pacman"@,
    {
        "Pacman"
    }

    /// The packages whose name or description contains the query, whatever the case.
    pub fn search(&self, query: &str, databases: &[SyncDatabase], local: &[AlpmPackage]) -> (out:
        Vec<SearchResult>)
        ensures
            found_models(out@) == found_in_all(databases@, local@, query@),
    {
        let mut out: Vec<SearchResult> = Vec::new();
        let lower = to_lower(query);
        let q = to_chars(lower.as_str());
        proof {
            assert(found_models(out@) =~= found_in_all(databases@.take(0), local@, query@));
        }
        for i in 0..databases.len()
            invariant
                q@ == lowered(query@),
                found_models(out@) == found_in_all(databases@.take(i as int), local@, query@),
        {
            let ghost before = found_models(out@);
            let db = &databases[i];
            let ghost all = db.packages@;
            proof {
                assert(databases@.take(i + 1).drop_last() =~= databases@.take(i as int));
                assert(databases@.take(i + 1).last() == *db);
                assert(before + found_in(db.name@, all.take(0), local@, query@) =~= before);
            }
            for j in 0..db.packages.len()
                invariant
                    q@ == lowered(query@),
                    all == db.packages@,
                    found_models(out@) == before + found_in(
                        db.name@,
                        all.take(j as int),
                        local@,
                        query@,
                    ),
            {
                let pkg = &db.packages[j];
                let ghost had = out@;
                proof {
                    assert(all.take(j + 1).drop_last() =~= all.take(j as int));
                    assert(all.take(j + 1).last() == *pkg);
                }
                let desc = description(&pkg.desc);
                let name_lower = to_lower(pkg.name.as_str());
                let desc_lower = to_lower(desc.as_str());
                let n = to_chars(name_lower.as_str());
                let d = to_chars(desc_lower.as_str());
                if has_chars(n.as_slice(), q.as_slice()) || has_chars(d.as_slice(), q.as_slice()) {
                    let installed_version = local_version(local, pkg.name.as_str());
                    let found = SearchResult {
                        name: own(pkg.name.as_str()),
                        version: Version::new(pkg.version.as_str()),
                        description: desc,
                        backend: PackageBackend::Pacman,
                        repository: own(db.name.as_str()),
                        installed: installed_version.is_some(),
                        installed_version,
                    };
                    out.push(found);
                    proof {
                        assert(found_models(out@) =~= found_models(had).push(found_model(found)));
                        assert(found_model(found) == result_of(db.name@, *pkg, local@));
                        assert((before + found_in(db.name@, all.take(j as int), local@, query@)).push(
                            found_model(found),
                        ) =~= before + found_in(db.name@, all.take(j + 1), local@, query@));
                    }
                }
            }
            proof {
                assert(all.take(all.len() as int) =~= all);
            }
        }
        proof {
            assert(databases@.take(databases@.len() as int) =~= databases@);
        }
        out
    }

    /// The installed packages.
    pub fn list_installed(&self, local: &[AlpmPackage]) -> (out: Vec<Package>)
        ensures
            out@.len() == local@.len(),
            forall|i: int| 0 <= i < local@.len() ==> is_installed_as(local@[i], #[trigger] out@[i]),
    {
        let mut out: Vec<Package> = Vec::new();
        for i in 0..local.len()
            invariant
                out@.len() == i,
                forall|j: int| 0 <= j < i ==> is_installed_as(local@[j], #[trigger] out@[j]),
        {
            out.push(installed_package(&local[i]));
        }
        out
    }

    /// The updates: for an installed package, the first newer one in the repositories.
    pub fn list_updates(&self, local: &[LocalPackage]) -> (out: Vec<UpdateInfo>)
        ensures
            update_models(out@) == updates_in(local@),
    {
        let mut out: Vec<UpdateInfo> = Vec::new();
        proof {
            assert(update_models(out@) =~= updates_in(local@.take(0)));
        }
        for i in 0..local.len()
            invariant
                update_models(out@) == updates_in(local@.take(i as int)),
        {
            let pkg = &local[i];
            let ghost had = out@;
            proof {
                assert(local@.take(i + 1).drop_last() =~= local@.take(i as int));
                assert(local@.take(i + 1).last() == *pkg);
                assert(pkg.candidates@.skip(0) =~= pkg.candidates@);
            }
            let mut k: usize = 0;
            while k < pkg.candidates.len() && !pkg.candidates[k].newer
                invariant
                    k <= pkg.candidates@.len(),
                    first_newer(pkg.candidates@) == first_newer(pkg.candidates@.skip(k as int)),
                ensures
                    k < pkg.candidates@.len() ==> pkg.candidates@[k as int].newer,
                decreases pkg.candidates@.len() - k,
            {
                proof {
                    assert(pkg.candidates@.skip(k as int).skip(1) =~= pkg.candidates@.skip(k + 1));
                }
                k = k + 1;
            }
            if k < pkg.candidates.len() {
                let c = &pkg.candidates[k];
                proof {
                    assert(pkg.candidates@.skip(k as int)[0] == *c);
                }
                let update = UpdateInfo {
                    name: own(pkg.name.as_str()),
                    current_version: Version::new(pkg.version.as_str()),
                    new_version: Version::new(c.version.as_str()),
                    backend: PackageBackend::Pacman,
                    repository: own(c.repository.as_str()),
                    download_size: keep_size(c.download_size),
                };
                out.push(update);
                proof {
                    assert(update_models(out@) =~= update_models(had).push(update_model(update)));
                }
            } else {
                proof {
                    assert(pkg.candidates@.skip(k as int).len() == 0);
                }
            }
        }
        proof {
            assert(local@.take(local@.len() as int) =~= local@);
        }
        out
    }

    /// All that is known of a package: of the installed one, else of the first one in the
    /// repositories that has the name.
    pub fn get_package_info(
        &self,
        name: &str,
        local: Option<&AlpmPackage>,
        sync: &[SyncAnswer],
    ) -> (r: Result<PackageInfo, Error>)
        ensures
            match (local, first_answer(sync@)) {
                (Some(pkg), _) => r matches Ok(info) && describes_installed(*pkg, info),
                (None, Some((repository, pkg))) => r matches Ok(info) && describes_available(
                    repository,
                    pkg,
                    info,
                ),
                (None, None) => r matches Err(e) && e@ == ErrorModel::PackageNotFound(name@),
            },
    {
        if let Some(pkg) = local {
            let detector = OrphanDetector::new();
            let status = if detector.is_orphan(pkg) {
                PackageStatus::Orphan
            } else {
                PackageStatus::Installed
            };
            let reason = match pkg.reason {
                PackageReason::Explicit => InstallReason::Explicit,
                PackageReason::Depend => InstallReason::Dependency,
            };
            let install_date = match pkg.install_date {
                Some(secs) => Some(keep_date(secs)),
                None => None,
            };
            return Ok(info_of(pkg, status, own("local"), install_date, Some(reason)));
        }
        proof {
            assert(sync@.skip(0) =~= sync@);
        }
        for i in 0..sync.len()
            invariant
                first_answer(sync@) == first_answer(sync@.skip(i as int)),
                local is None,
        {
            proof {
                assert(sync@.skip(i as int)[0] == sync@[i as int]);
                assert(sync@.skip(i as int).skip(1) =~= sync@.skip(i + 1));
            }
            if let Some(pkg) = &sync[i].package {
                return Ok(
                    info_of(
                        pkg,
                        PackageStatus::Available,
                        own(sync[i].repository.as_str()),
                        None,
                        None,
                    ),
                );
            }
        }
        Err(Error::PackageNotFound(own(name)))
    }

    /// What an operation needs to be done before its result is known.
    pub fn step_for(&self, kind: OperationKind) -> (s: Step)
        ensures
            s == step_of(kind),
    {
        match kind {
            OperationKind::CleanCache => Step::CleanCache,
            OperationKind::RemoveOrphans => Step::ListOrphans,
            _ => Step::Nothing,
        }
    }

    /// The result of an operation, given the outcome of what it needed to be done. Operations that
    /// need root are refused.
    pub fn execute_with_progress(
        &self,
        operation: Operation,
        outcome: StepOutcome,
        elapsed_ms: u64,
    ) -> (r: Result<OperationResult, Error>)
        requires
            outcome_fits(step_of(operation.kind), outcome),
        ensures
            match outcome {
                StepOutcome::Cleaned(Err(e)) => r == Err::<OperationResult, Error>(e),
                StepOutcome::Orphans(Err(e)) => r == Err::<OperationResult, Error>(e),
                _ => r matches Ok(result) && {
                    &&& result.operation == operation
                    &&& result.duration_ms == elapsed_ms
                    &&& result.affected_packages@.len() == 0
                    &&& result.warnings@.len() == 0
                    &&& match refusal_of(operation.kind, outcome) {
                        Some(reason) => result.status == OperationStatus::Failed && opt_text(
                            result.error,
                        ) == Some(reason),
                        None => result.status == OperationStatus::Completed && result.error is None,
                    }
                },
            },
    {
        match operation.kind {
            OperationKind::Install | OperationKind::Remove | OperationKind::RemoveWithDeps
            | OperationKind::Update | OperationKind::SystemUpgrade => Ok(
                OperationResult::failure(
                    operation,
                    own("Package operations require root privileges"),
                    elapsed_ms,
                ),
            ),
            OperationKind::SyncDatabases => Ok(
                OperationResult::failure(
                    operation,
                    own("Database sync requires root privileges"),
                    elapsed_ms,
                ),
            ),
            OperationKind::CleanCache => match outcome {
                StepOutcome::Cleaned(Err(e)) => Err(e),
                _ => Ok(OperationResult::success(operation, Vec::new(), elapsed_ms)),
            },
            OperationKind::RemoveOrphans => match outcome {
                StepOutcome::Orphans(Err(e)) => Err(e),
                StepOutcome::Orphans(Ok(orphans)) => if orphans.len() == 0 {
                    Ok(OperationResult::success(operation, Vec::new(), elapsed_ms))
                } else {
                    Ok(
                        OperationResult::failure(
                            operation,
                            own("Removing orphans requires root privileges"),
                            elapsed_ms,
                        ),
                    )
                },
                _ => Ok(OperationResult::success(operation, Vec::new(), elapsed_ms)),
            },
        }
    }

    /// The installed packages that nothing needs any more.
    pub fn list_orphans(&self, local: &[AlpmPackage]) -> (out: Vec<Package>)
        ensures
            out@.len() == orphans_in(local@).len(),
            forall|i: int|
                0 <= i < out@.len() ==> is_orphan_as(orphans_in(local@)[i], #[trigger] out@[i]),
    {
        let detector = OrphanDetector::new();
        let mut out: Vec<Package> = Vec::new();
        let ghost keep = |p: AlpmPackage| is_orphan(p);
        proof {
            assert(local@.take(0).filter(keep) =~= Seq::<AlpmPackage>::empty()) by {
                reveal(Seq::filter);
            }
        }
        for i in 0..local.len()
            invariant
                keep == (|p: AlpmPackage| is_orphan(p)),
                out@.len() == local@.take(i as int).filter(keep).len(),
                forall|j: int|
                    0 <= j < out@.len() ==> is_orphan_as(
                        local@.take(i as int).filter(keep)[j],
                        #[trigger] out@[j],
                    ),
        {
            let pkg = &local[i];
            proof {
                assert(local@.take(i + 1) =~= local@.take(i as int).push(*pkg));
                local@.take(i as int).lemma_filter_push(*pkg, keep);
            }
            if detector.is_orphan(pkg) {
                out.push(
                    Package::new(
                        own(pkg.name.as_str()),
                        Version::new(pkg.version.as_str()),
                        description(&pkg.desc),
                        PackageBackend::Pacman,
                        PackageStatus::Orphan,
                        own("local"),
                    ),
                );
            }
        }
        proof {
            assert(local@.take(local@.len() as int) =~= local@);
        }
        out
    }
}

// ---------------------------------------------------------------------------
// Searching

/// A package that a search has found.
pub struct FoundModel {
    pub name: Seq<char>,
    pub version: Seq<char>,
    pub description: Seq<char>,
    pub backend: PackageBackend,
    pub repository: Seq<char>,
    pub installed_version: Option<Seq<char>>,
}

/// Whether a result shows the versions of a model, and its state follows from them.
pub open spec fn found_model(r: SearchResult) -> Option<FoundModel> {
    let installed = match r.installed_version {
        Some(v) => Some(v.full@),
        None => None,
    };
    if r.version@ == version_of(r.version.full@) && (r.installed_version matches Some(v) ==> v@
        == version_of(v.full@)) && r.installed == (r.installed_version is Some) {
        Some(
            FoundModel {
                name: r.name@,
                version: r.version.full@,
                description: r.description@,
                backend: r.backend,
                repository: r.repository@,
                installed_version: installed,
            },
        )
    } else {
        None
    }
}

/// The contents of a list of results.
pub open spec fn found_models(list: Seq<SearchResult>) -> Seq<Option<FoundModel>> {
    list.map_values(|r: SearchResult| found_model(r))
}

/// Whether a package matches a query: its name or its description contains it, whatever the case.
pub open spec fn matches_query(pkg: AlpmPackage, query: Seq<char>) -> bool {
    holds(lowered(pkg.name@), lowered(query)) || holds(lowered(desc_text(pkg.desc)), lowered(query))
}

/// The version of the first installed package of a name.
pub open spec fn version_installed(local: Seq<AlpmPackage>, name: Seq<char>) -> Option<Seq<char>>
    decreases local.len(),
{
    if local.len() == 0 {
        None
    } else if local[0].name@ == name {
        Some(local[0].version@)
    } else {
        version_installed(local.skip(1), name)
    }
}

/// The result for a package.
pub open spec fn result_of(
    repository: Seq<char>,
    pkg: AlpmPackage,
    local: Seq<AlpmPackage>,
) -> Option<FoundModel> {
    Some(
        FoundModel {
            name: pkg.name@,
            version: pkg.version@,
            description: desc_text(pkg.desc),
            backend: PackageBackend::Pacman,
            repository,
            installed_version: version_installed(local, pkg.name@),
        },
    )
}

/// The results of a search among the packages of a repository.
pub open spec fn found_in(
    repository: Seq<char>,
    packages: Seq<AlpmPackage>,
    local: Seq<AlpmPackage>,
    query: Seq<char>,
) -> Seq<Option<FoundModel>>
    decreases packages.len(),
{
    if packages.len() == 0 {
        seq![]
    } else {
        let front = found_in(repository, packages.drop_last(), local, query);
        if matches_query(packages.last(), query) {
            front.push(result_of(repository, packages.last(), local))
        } else {
            front
        }
    }
}

/// The results of a search in all repositories.
pub open spec fn found_in_all(
    databases: Seq<SyncDatabase>,
    local: Seq<AlpmPackage>,
    query: Seq<char>,
) -> Seq<Option<FoundModel>>
    decreases databases.len(),
{
    if databases.len() == 0 {
        seq![]
    } else {
        found_in_all(databases.drop_last(), local, query) + found_in(
            databases.last().name@,
            databases.last().packages@,
            local,
            query,
        )
    }
}

fn local_version(local: &[AlpmPackage], name: &str) -> (r: Option<Version>)
    ensures
        match r {
            Some(v) => version_installed(local@, name@) == Some(v.full@) && v@ == version_of(
                v.full@,
            ),
            None => version_installed(local@, name@) is None,
        },
{
    proof {
        assert(local@.skip(0) =~= local@);
    }
    for i in 0..local.len()
        invariant
            version_installed(local@, name@) == version_installed(local@.skip(i as int), name@),
    {
        proof {
            assert(local@.skip(i as int)[0] == local@[i as int]);
            assert(local@.skip(i as int).skip(1) =~= local@.skip(i + 1));
        }
        if same_text(local[i].name.as_str(), name) {
            return Some(Version::new(local[i].version.as_str()));
        }
    }
    None
}

// ---------------------------------------------------------------------------
// Installed packages

/// Whether `p` is what is shown of an installed package.
pub open spec fn is_installed_as(pkg: AlpmPackage, p: Package) -> bool {
    &&& p.name@ == pkg.name@
    &&& p.version@ == version_of(pkg.version@)
    &&& p.description@ == desc_text(pkg.desc)
    &&& p.backend == PackageBackend::Pacman
    &&& p.status == (if is_orphan(pkg) {
        PackageStatus::Orphan
    } else {
        PackageStatus::Installed
    })
    &&& p.repository@ == "local"@
    &&& p.explicit == (pkg.reason == PackageReason::Explicit)
}

fn installed_package(pkg: &AlpmPackage) -> (p: Package)
    ensures
        is_installed_as(*pkg, p),
{
    let detector = OrphanDetector::new();
    let status = if detector.is_orphan(pkg) {
        PackageStatus::Orphan
    } else {
        PackageStatus::Installed
    };
    let p = Package::new(
        own(pkg.name.as_str()),
        Version::new(pkg.version.as_str()),
        description(&pkg.desc),
        PackageBackend::Pacman,
        status,
        own("local"),
    );
    Package { explicit: pkg.reason == PackageReason::Explicit, ..p }
}

/// The installed packages that nothing needs any more.
pub open spec fn orphans_in(local: Seq<AlpmPackage>) -> Seq<AlpmPackage> {
    local.filter(|p: AlpmPackage| is_orphan(p))
}

/// Whether `p` is what is shown of a package that nothing needs any more.
pub open spec fn is_orphan_as(pkg: AlpmPackage, p: Package) -> bool {
    &&& p.name@ == pkg.name@
    &&& p.version@ == version_of(pkg.version@)
    &&& p.description@ == desc_text(pkg.desc)
    &&& p.backend == PackageBackend::Pacman
    &&& p.status == PackageStatus::Orphan
    &&& p.repository@ == "local"@
    &&& !p.explicit
}

// ---------------------------------------------------------------------------
// Updates

/// An update.
pub struct UpdateModel {
    pub name: Seq<char>,
    pub current: Seq<char>,
    pub new: Seq<char>,
    pub backend: PackageBackend,
    pub repository: Seq<char>,
    pub download_size: u64,
}

/// The contents of an update, whose versions are those that their texts write.
pub open spec fn update_model(u: UpdateInfo) -> Option<UpdateModel> {
    if u.current_version@ == version_of(u.current_version.full@) && u.new_version@ == version_of(
        u.new_version.full@,
    ) {
        Some(
            UpdateModel {
                name: u.name@,
                current: u.current_version.full@,
                new: u.new_version.full@,
                backend: u.backend,
                repository: u.repository@,
                download_size: u.download_size,
            },
        )
    } else {
        None
    }
}

/// The contents of a list of updates.
pub open spec fn update_models(list: Seq<UpdateInfo>) -> Seq<Option<UpdateModel>> {
    list.map_values(|u: UpdateInfo| update_model(u))
}

/// The first candidate that is newer.
pub open spec fn first_newer(list: Seq<UpdateCandidate>) -> Option<UpdateCandidate>
    decreases list.len(),
{
    if list.len() == 0 {
        None
    } else if list[0].newer {
        Some(list[0])
    } else {
        first_newer(list.skip(1))
    }
}

/// The updates of installed packages.
pub open spec fn updates_in(local: Seq<LocalPackage>) -> Seq<Option<UpdateModel>>
    decreases local.len(),
{
    if local.len() == 0 {
        seq![]
    } else {
        let front = updates_in(local.drop_last());
        let pkg = local.last();
        match first_newer(pkg.candidates@) {
            Some(c) => front.push(
                Some(
                    UpdateModel {
                        name: pkg.name@,
                        current: pkg.version@,
                        new: c.version@,
                        backend: PackageBackend::Pacman,
                        repository: c.repository@,
                        download_size: kept_size(c.download_size),
                    },
                ),
            ),
            None => front,
        }
    }
}

// ---------------------------------------------------------------------------
// Package information

/// Whether `info` holds what a package says of itself.
pub open spec fn describes(pkg: AlpmPackage, info: PackageInfo) -> bool {
    &&& info.package.name@ == pkg.name@
    &&& info.package.version@ == version_of(pkg.version@)
    &&& info.package.description@ == desc_text(pkg.desc)
    &&& info.package.backend == PackageBackend::Pacman
    &&& !info.package.explicit
    &&& opt_text(info.url) == opt_text(pkg.url)
    &&& texts(info.licenses@) == texts(pkg.licenses@)
    &&& texts(info.groups@) == texts(pkg.groups@)
    &&& texts(info.depends@) == texts(pkg.depends@)
    &&& texts(info.optdepends@) == texts(pkg.optdepends@)
    &&& texts(info.provides@) == texts(pkg.provides@)
    &&& texts(info.conflicts@) == texts(pkg.conflicts@)
    &&& texts(info.replaces@) == texts(pkg.replaces@)
    &&& info.installed_size == kept_size(pkg.isize)
    &&& info.download_size == kept_size(pkg.download_size)
    &&& info.build_date == Some(kept_date(pkg.build_date))
    &&& opt_text(info.packager) == opt_text(pkg.packager)
    &&& info.arch@ == (match pkg.arch {
        Some(s) => s@,
        None => "any"@,
    })
}

/// Whether `info` is what is known of an installed package.
pub open spec fn describes_installed(pkg: AlpmPackage, info: PackageInfo) -> bool {
    &&& describes(pkg, info)
    &&& info.package.status == (if is_orphan(pkg) {
        PackageStatus::Orphan
    } else {
        PackageStatus::Installed
    })
    &&& info.package.repository@ == "local"@
    &&& info.install_date == (match pkg.install_date {
        Some(secs) => Some(kept_date(secs)),
        None => None,
    })
    &&& info.reason == Some(
        match pkg.reason {
            PackageReason::Explicit => InstallReason::Explicit,
            PackageReason::Depend => InstallReason::Dependency,
        },
    )
}

/// Whether `info` is what is known of a package of a repository.
pub open spec fn describes_available(
    repository: Seq<char>,
    pkg: AlpmPackage,
    info: PackageInfo,
) -> bool {
    &&& describes(pkg, info)
    &&& info.package.status == PackageStatus::Available
    &&& info.package.repository@ == repository
    &&& info.install_date is None
    &&& info.reason is None
}

fn info_of(
    pkg: &AlpmPackage,
    status: PackageStatus,
    repository: String,
    install_date: Option<i64>,
    reason: Option<InstallReason>,
) -> (info: PackageInfo)
    ensures
        describes(*pkg, info),
        info.package.status == status,
        info.package.repository == repository,
        info.install_date == install_date,
        info.reason == reason,
{
    PackageInfo {
        package: Package::new(
            own(pkg.name.as_str()),
            Version::new(pkg.version.as_str()),
            description(&pkg.desc),
            PackageBackend::Pacman,
            status,
            repository,
        ),
        url: own_option(&pkg.url),
        licenses: own_all(pkg.licenses.as_slice()),
        groups: own_all(pkg.groups.as_slice()),
        depends: own_all(pkg.depends.as_slice()),
        optdepends: own_all(pkg.optdepends.as_slice()),
        provides: own_all(pkg.provides.as_slice()),
        conflicts: own_all(pkg.conflicts.as_slice()),
        replaces: own_all(pkg.replaces.as_slice()),
        installed_size: keep_size(pkg.isize),
        download_size: keep_size(pkg.download_size),
        build_date: Some(keep_date(pkg.build_date)),
        install_date,
        packager: own_option(&pkg.packager),
        arch: match &pkg.arch {
            Some(s) => own(s.as_str()),
            None => own("any"),
        },
        reason,
    }
}

// ---------------------------------------------------------------------------
// Operations

/// What an operation needs to be done before its result is known.
#[derive(Debug, Clone, Copy, PartialEq, Eq, Structural)]
pub enum Step {
    Nothing,
    /// Clean the cache and keep three versions of each package.
    CleanCache,
    ListOrphans,
}

/// The outcome of what an operation needed to be done.
#[derive(Debug)]
pub enum StepOutcome {
    Nothing,
    /// The bytes that were freed.
    Cleaned(Result<u64, Error>),
    Orphans(Result<Vec<Package>, Error>),
}

/// What an operation needs to be done.
pub open spec fn step_of(kind: OperationKind) -> Step {
    match kind {
        OperationKind::CleanCache => Step::CleanCache,
        OperationKind::RemoveOrphans => Step::ListOrphans,
        _ => Step::Nothing,
    }
}

/// Whether an outcome is that of a step.
pub open spec fn outcome_fits(step: Step, outcome: StepOutcome) -> bool {
    match step {
        Step::Nothing => outcome is Nothing,
        Step::CleanCache => outcome is Cleaned,
        Step::ListOrphans => outcome is Orphans,
    }
}

/// Why an operation is refused, if it is.
pub open spec fn refusal_of(kind: OperationKind, outcome: StepOutcome) -> Option<Seq<char>> {
    match kind {
        OperationKind::SyncDatabases => Some("Database sync requires root privileges"@),
        OperationKind::CleanCache => None,
        OperationKind::RemoveOrphans => match outcome {
            StepOutcome::Orphans(Ok(list)) => if list@.len() > 0 {
                Some("Removing orphans requires root privileges"@)
            } else {
                None
            },
            _ => None,
        },
        _ => Some("Package operations require root privileges"@),
    }
}

// ---------------------------------------------------------------------------
// Laws

/// Packages that are shown as orphans.
pub open spec fn shown_as_orphan() -> spec_fn(Package) -> bool {
    |p: Package| p.status == PackageStatus::Orphan
}

/// As many installed packages are shown as orphans as are listed as orphans.
pub proof fn orphans_agree(local: Seq<AlpmPackage>, installed: Seq<Package>)
    requires
        installed.len() == local.len(),
        forall|i: int| 0 <= i < local.len() ==> is_installed_as(local[i], #[trigger] installed[i]),
    ensures
        installed.filter(shown_as_orphan()).len() == orphans_in(local).len(),
    decreases local.len(),
{
    reveal(Seq::filter);
    if local.len() > 0 {
        let (a, b) = (local.drop_last(), installed.drop_last());
        assert forall|i: int| 0 <= i < a.len() implies is_installed_as(a[i], #[trigger] b[i]) by {
            assert(is_installed_as(local[i], installed[i]));
        }
        orphans_agree(a, b);
        assert(is_installed_as(local.last(), installed.last()));
    }
}

/// The results of a search in two lists of packages follow one another.
pub proof fn results_follow(
    repository: Seq<char>,
    a: Seq<AlpmPackage>,
    b: Seq<AlpmPackage>,
    local: Seq<AlpmPackage>,
    query: Seq<char>,
)
    ensures
        found_in(repository, a + b, local, query) == found_in(repository, a, local, query)
            + found_in(repository, b, local, query),
    decreases b.len(),
{
    let (x, y) = (found_in(repository, a, local, query), found_in(repository, b, local, query));
    if b.len() == 0 {
        assert(a + b =~= a);
        assert(x + y =~= x);
    } else {
        results_follow(repository, a, b.drop_last(), local, query);
        assert((a + b).drop_last() =~= a + b.drop_last());
        assert((a + b).last() == b.last());
        assert(found_in(repository, a + b, local, query) =~= x + y);
    }
}

/// A package is found where its name or its description contains the query, whatever the case, and
/// only then; it is shown with its repository and with the installed version.
pub proof fn packages_are_found(
    repository: Seq<char>,
    pkg: AlpmPackage,
    local: Seq<AlpmPackage>,
    query: Seq<char>,
)
    ensures
        ({
            let found = found_in(repository, seq![pkg], local, query);
            let fits = holds(lowered(pkg.name@), lowered(query)) || (pkg.desc matches Some(d)
                && holds(lowered(d@), lowered(query)));
            &&& fits ==> found.len() == 1 && found[0] is Some && found[0]->0.name == pkg.name@
                && found[0]->0.version == pkg.version@ && found[0]->0.repository == repository
                && found[0]->0.installed_version == version_installed(local, pkg.name@)
            &&& !fits && pkg.desc is Some ==> found.len() == 0
        }),
{
    let one = seq![pkg];
    assert(one.drop_last() =~= Seq::<AlpmPackage>::empty());
    assert(found_in(repository, one.drop_last(), local, query) =~= Seq::<
        Option<FoundModel>,
    >::empty());
    let found = found_in(repository, one, local, query);
    if matches_query(pkg, query) {
        assert(found =~= seq![result_of(repository, pkg, local)]);
    }
}

/// The results of several repositories follow one another in the order of the repositories.
pub proof fn repositories_follow(
    databases: Seq<SyncDatabase>,
    last: SyncDatabase,
    local: Seq<AlpmPackage>,
    query: Seq<char>,
)
    ensures
        found_in_all(databases.push(last), local, query) == found_in_all(databases, local, query)
            + found_in(last.name@, last.packages@, local, query),
{
    assert(databases.push(last).drop_last() =~= databases);
}

/// The version of an installed package is that of the first one of its name; a package that is not
/// there has none.
pub proof fn installed_versions_are_found(local: Seq<AlpmPackage>, i: int, name: Seq<char>)
    ensures
        0 <= i < local.len() && (forall|j: int|
            0 <= j < i ==> (#[trigger] local[j]).name@ != local[i].name@) ==> version_installed(
            local,
            local[i].name@,
        ) == Some(local[i].version@),
        (forall|j: int| 0 <= j < local.len() ==> (#[trigger] local[j]).name@ != name)
            ==> version_installed(local, name) is None,
    decreases local.len(),
{
    if local.len() > 0 {
        let rest = local.skip(1);
        installed_versions_are_found(rest, i - 1, name);
        if 0 <= i < local.len() && (forall|j: int|
            0 <= j < i ==> (#[trigger] local[j]).name@ != local[i].name@) {
            if i > 0 {
                assert(local[0].name@ != local[i].name@);
                assert(rest[i - 1] == local[i]);
                assert forall|j: int| 0 <= j < i - 1 implies (#[trigger] rest[j]).name@
                    != rest[i - 1].name@ by {
                    assert(rest[j] == local[j + 1]);
                }
            }
        }
        if forall|j: int| 0 <= j < local.len() ==> (#[trigger] local[j]).name@ != name {
            assert(local[0].name@ != name);
            assert forall|j: int| 0 <= j < rest.len() implies (#[trigger] rest[j]).name@ != name by {
                assert(rest[j] == local[j + 1]);
            }
        }
    }
}

/// An installed package has an update where a repository has a newer version: the first one counts.
pub proof fn newer_versions_are_updates(front: Seq<LocalPackage>, pkg: LocalPackage, i: int)
    ensures
        0 <= i < pkg.candidates@.len() && pkg.candidates@[i].newer && (forall|j: int|
            0 <= j < i ==> !(#[trigger] pkg.candidates@[j]).newer) ==> updates_in(front.push(pkg))
            == updates_in(front).push(
            Some(
                UpdateModel {
                    name: pkg.name@,
                    current: pkg.version@,
                    new: pkg.candidates@[i].version@,
                    backend: PackageBackend::Pacman,
                    repository: pkg.candidates@[i].repository@,
                    download_size: pkg.candidates@[i].download_size as u64,
                },
            ),
        ),
        (forall|j: int| 0 <= j < pkg.candidates@.len() ==> !(#[trigger] pkg.candidates@[j]).newer)
            ==> updates_in(front.push(pkg)) == updates_in(front),
{
    assert(front.push(pkg).drop_last() =~= front);
    newer_is_found(pkg.candidates@, i);
}

proof fn newer_is_found(list: Seq<UpdateCandidate>, i: int)
    ensures
        0 <= i < list.len() && list[i].newer && (forall|j: int|
            0 <= j < i ==> !(#[trigger] list[j]).newer) ==> first_newer(list) == Some(list[i]),
        (forall|j: int| 0 <= j < list.len() ==> !(#[trigger] list[j]).newer) ==> first_newer(
            list,
        ) is None,
    decreases list.len(),
{
    if list.len() > 0 {
        let rest = list.skip(1);
        newer_is_found(rest, i - 1);
        if 0 < i < list.len() && list[i].newer && (forall|j: int|
            0 <= j < i ==> !(#[trigger] list[j]).newer) {
            assert(!list[0].newer);
            assert(rest[i - 1] == list[i]);
            assert forall|j: int| 0 <= j < i - 1 implies !(#[trigger] rest[j]).newer by {
                assert(rest[j] == list[j + 1]);
            }
        }
        if forall|j: int| 0 <= j < list.len() ==> !(#[trigger] list[j]).newer {
            assert(!list[0].newer);
            assert forall|j: int| 0 <= j < rest.len() implies !(#[trigger] rest[j]).newer by {
                assert(rest[j] == list[j + 1]);
            }
        }
    }
}

/// A package is an orphan exactly where it came as a dependency and nothing requires it or can use it.
pub proof fn orphans_are_not_needed(pkg: AlpmPackage)
    ensures
        pkg.reason == PackageReason::Explicit ==> !is_orphan(pkg),
        pkg.required_by@.len() > 0 ==> !is_orphan(pkg),
        pkg.optional_for@.len() > 0 ==> !is_orphan(pkg),
        pkg.reason == PackageReason::Depend && pkg.required_by@.len() == 0
            && pkg.optional_for@.len() == 0 ==> is_orphan(pkg),
{
}

/// What is told of an installed package says whether it was asked for and whether it is an orphan;
/// what is told of another says that it is available, and from where.
pub proof fn information_tells_the_state(pkg: AlpmPackage, info: PackageInfo, repository: Seq<char>)
    ensures
        describes_installed(pkg, info) ==> {
            &&& info.package.name@ == pkg.name@ && info.package.version.full@ == pkg.version@
            &&& pkg.reason == PackageReason::Explicit ==> info.reason == Some(
                InstallReason::Explicit,
            ) && info.package.status == PackageStatus::Installed
            &&& pkg.reason == PackageReason::Depend ==> info.reason == Some(
                InstallReason::Dependency,
            )
            &&& texts(info.depends@) == texts(pkg.depends@)
            &&& texts(info.optdepends@) == texts(pkg.optdepends@)
        },
        describes_available(repository, pkg, info) ==> {
            &&& info.package.status == PackageStatus::Available
            &&& info.package.repository@ == repository
            &&& info.reason is None && info.install_date is None
            &&& info.package.name@ == pkg.name@ && info.package.version.full@ == pkg.version@
        },
{
    assert(info.package.version@.full == info.package.version.full@);
}

/// The first repository that has a package answers for it.
pub proof fn first_repository_answers(list: Seq<SyncAnswer>, i: int)
    requires
        0 <= i < list.len(),
        list[i].package is Some,
        forall|j: int| 0 <= j < i ==> (#[trigger] list[j]).package is None,
    ensures
        first_answer(list) == Some((list[i].repository@, list[i].package->0)),
    decreases i,
{
    if i > 0 {
        assert(list[0].package is None);
        let rest = list.skip(1);
        assert(rest[i - 1] == list[i]);
        assert forall|j: int| 0 <= j < i - 1 implies (#[trigger] rest[j]).package is None by {
            assert(rest[j] == list[j + 1]);
        }
        first_repository_answers(rest, i - 1);
    }
}

/// Without the rights of the administrator nothing that changes packages is carried out; cleaning the
/// cache is, and removing orphans where there are none.
pub proof fn changes_are_refused(kind: OperationKind, outcome: StepOutcome)
    ensures
        kind != OperationKind::CleanCache && kind != OperationKind::RemoveOrphans ==> refusal_of(
            kind,
            outcome,
        ) is Some,
        kind == OperationKind::CleanCache ==> refusal_of(kind, outcome) is None,
        kind == OperationKind::RemoveOrphans ==> (refusal_of(kind, outcome) is Some == (
        outcome matches StepOutcome::Orphans(Ok(list)) && list@.len() > 0)),
{
}

} // verus!
