//! Operations on packages, their results and their progress.
use vstd::prelude::*;

use crate::float::{complete_is_a_hundred_percent, nothing_is_zero_percent,
    parts_are_at_most_a_hundred_percent, percent, percent_is_close, percent_never_goes_down,
    percent_of};
use crate::package::{copy_packages, package_models, Package, PackageBackend, PackageModel};
use crate::text::{opt_text, own, own_all, own_option, texts};

verus! {

/// What is done to packages.
#[derive(Debug, Clone, Copy, PartialEq, Eq, Hash, Structural)]
pub enum OperationKind {
    Install,
    Remove,
    RemoveWithDeps,
    Update,
    SystemUpgrade,
    SyncDatabases,
    CleanCache,
    RemoveOrphans,
}

impl OperationKind {
    /// The operation in words.
    pub open spec fn words(self) -> Seq<char> {
        match self {
            OperationKind::Install => "Install"@,
            OperationKind::Remove => "Remove"@,
            OperationKind::RemoveWithDeps => "Remove with dependencies"@,
            OperationKind::Update => "Update"@,
            OperationKind::SystemUpgrade => "System upgrade"@,
            OperationKind::SyncDatabases => "Sync databases"@,
            OperationKind::CleanCache => "Clean cache"@,
            OperationKind::RemoveOrphans => "Remove orphans"@,
        }
    }

    /// The operation in words.
    pub fn to_string(&self) -> (out: String)
        ensures
            out@ == self.words(),
    {
        match self {
            OperationKind::Install => own("Install"),
            OperationKind::Remove => own("Remove"),
            OperationKind::RemoveWithDeps => own("Remove with dependencies"),
            OperationKind::Update => own("Update"),
            OperationKind::SystemUpgrade => own("System upgrade"),
            OperationKind::SyncDatabases => own("Sync databases"),
            OperationKind::CleanCache => own("Clean cache"),
            OperationKind::RemoveOrphans => own("Remove orphans"),
        }
    }
}

/// How an operation is carried out.
#[derive(Debug, Clone, Copy, PartialEq, Eq, Structural)]
pub struct OperationOptions {
    pub no_confirm: bool,
    pub download_only: bool,
    pub force: bool,
    pub recursive: bool,
    pub keep_config: bool,
    pub no_deps: bool,
}

impl OperationOptions {
    /// No option is set.
    pub open spec fn none() -> OperationOptions {
        OperationOptions {
            no_confirm: false,
            download_only: false,
            force: false,
            recursive: false,
            keep_config: false,
            no_deps: false,
        }
    }
}

impl Default for OperationOptions {
    fn default() -> (o: OperationOptions)
        ensures
            o == OperationOptions::none(),
    {
        OperationOptions {
            no_confirm: false,
            download_only: false,
            force: false,
            recursive: false,
            keep_config: false,
            no_deps: false,
        }
    }
}

/// An operation on packages of a backend.
#[derive(Debug, Clone)]
pub struct Operation {
    pub kind: OperationKind,
    pub packages: Vec<String>,
    pub backend: PackageBackend,
    pub options: OperationOptions,
}

impl Operation {
    /// Whether an operation is of that kind, on those packages, without options.
    pub open spec fn is_plain(
        self,
        kind: OperationKind,
        packages: Seq<String>,
        backend: PackageBackend,
    ) -> bool {
        &&& self.kind == kind
        &&& self.packages@ == packages
        &&& self.backend == backend
        &&& self.options == OperationOptions::none()
    }

    /// Installs packages.
    pub fn install(packages: Vec<String>, backend: PackageBackend) -> (op: Operation)
        ensures
            op.is_plain(OperationKind::Install, packages@, backend),
    {
        Operation {
            kind: OperationKind::Install,
            packages,
            backend,
            options: OperationOptions::default(),
        }
    }

    /// Removes packages.
    pub fn remove(packages: Vec<String>, backend: PackageBackend) -> (op: Operation)
        ensures
            op.is_plain(OperationKind::Remove, packages@, backend),
    {
        Operation {
            kind: OperationKind::Remove,
            packages,
            backend,
            options: OperationOptions::default(),
        }
    }

    /// Updates packages.
    pub fn update(packages: Vec<String>, backend: PackageBackend) -> (op: Operation)
        ensures
            op.is_plain(OperationKind::Update, packages@, backend),
    {
        Operation {
            kind: OperationKind::Update,
            packages,
            backend,
            options: OperationOptions::default(),
        }
    }

    /// Upgrades the whole system.
    pub fn system_upgrade(backend: PackageBackend) -> (op: Operation)
        ensures
            op.is_plain(OperationKind::SystemUpgrade, seq![], backend),
    {
        Operation {
            kind: OperationKind::SystemUpgrade,
            packages: Vec::new(),
            backend,
            options: OperationOptions::default(),
        }
    }

    /// Brings the databases up to date.
    pub fn sync_databases(backend: PackageBackend) -> (op: Operation)
        ensures
            op.is_plain(OperationKind::SyncDatabases, seq![], backend),
    {
        Operation {
            kind: OperationKind::SyncDatabases,
            packages: Vec::new(),
            backend,
            options: OperationOptions::default(),
        }
    }

    /// The operation with other options.
    pub fn with_options(self, options: OperationOptions) -> (op: Operation)
        ensures
            op == (Operation { options, ..self }),
    {
        Operation {
            kind: self.kind,
            packages: self.packages,
            backend: self.backend,
            options,
        }
    }
}

/// An operation on packages of a backend.
pub struct OperationModel {
    pub kind: OperationKind,
    pub packages: Seq<Seq<char>>,
    pub backend: PackageBackend,
    pub options: OperationOptions,
}

impl View for Operation {
    type V = OperationModel;

    open spec fn view(&self) -> OperationModel {
        OperationModel {
            kind: self.kind,
            packages: texts(self.packages@),
            backend: self.backend,
            options: self.options,
        }
    }
}

/// How far an operation has come.
#[derive(Debug, Clone, Copy, PartialEq, Eq, Structural)]
pub enum OperationStatus {
    Pending,
    ResolvingDeps,
    Downloading,
    Verifying,
    Processing,
    RunningHooks,
    Completed,
    Failed,
    Cancelled,
}

/// The result of an operation.
#[derive(Debug, Clone)]
pub struct OperationResult {
    pub operation: Operation,
    pub status: OperationStatus,
    pub affected_packages: Vec<Package>,
    pub warnings: Vec<String>,
    pub error: Option<String>,
    pub duration_ms: u64,
}

impl OperationResult {
    /// The operation has been completed.
    pub fn success(operation: Operation, affected: Vec<Package>, duration_ms: u64) -> (r:
        OperationResult)
        ensures
            r.operation == operation,
            r.status == OperationStatus::Completed,
            r.affected_packages == affected,
            r.warnings@.len() == 0,
            r.error is None,
            r.duration_ms == duration_ms,
    {
        OperationResult {
            operation,
            status: OperationStatus::Completed,
            affected_packages: affected,
            warnings: Vec::new(),
            error: None,
            duration_ms,
        }
    }

    /// The operation has failed.
    pub fn failure(operation: Operation, error: String, duration_ms: u64) -> (r: OperationResult)
        ensures
            r.operation == operation,
            r.status == OperationStatus::Failed,
            r.affected_packages@.len() == 0,
            r.warnings@.len() == 0,
            r.error == Some(error),
            r.duration_ms == duration_ms,
    {
        OperationResult {
            operation,
            status: OperationStatus::Failed,
            affected_packages: Vec::new(),
            warnings: Vec::new(),
            error: Some(error),
            duration_ms,
        }
    }

    /// Whether the operation has been completed.
    pub fn is_success(&self) -> (r: bool)
        ensures
            r == (self.status == OperationStatus::Completed),
    {
        self.status == OperationStatus::Completed
    }

    /// The result with one more warning.
    pub fn with_warning(self, warning: String) -> (r: OperationResult)
        ensures
            r.warnings@ == self.warnings@.push(warning),
            r == (OperationResult { warnings: r.warnings, ..self }),
    {
        let mut warnings = self.warnings;
        warnings.push(warning);
        OperationResult {
            operation: self.operation,
            status: self.status,
            affected_packages: self.affected_packages,
            warnings,
            error: self.error,
            duration_ms: self.duration_ms,
        }
    }
}

/// The result of an operation.
pub struct ResultModel {
    pub operation: OperationModel,
    pub status: OperationStatus,
    pub affected_packages: Seq<PackageModel>,
    pub warnings: Seq<Seq<char>>,
    pub error: Option<Seq<char>>,
    pub duration_ms: u64,
}

impl View for OperationResult {
    type V = ResultModel;

    open spec fn view(&self) -> ResultModel {
        ResultModel {
            operation: self.operation@,
            status: self.status,
            affected_packages: package_models(self.affected_packages@),
            warnings: texts(self.warnings@),
            error: opt_text(self.error),
            duration_ms: self.duration_ms,
        }
    }
}

impl OperationResult {
    /// A copy of the result.
    pub fn copied(&self) -> (r: OperationResult)
        ensures
            r@ == self@,
    {
        OperationResult {
            operation: Operation {
                kind: self.operation.kind,
                packages: own_all(self.operation.packages.as_slice()),
                backend: self.operation.backend,
                options: self.operation.options,
            },
            status: self.status,
            affected_packages: copy_packages(self.affected_packages.as_slice()),
            warnings: own_all(self.warnings.as_slice()),
            error: own_option(&self.error),
            duration_ms: self.duration_ms,
        }
    }
}

/// The progress of an operation.
#[derive(Debug, Clone)]
pub struct OperationProgress {
    pub status: OperationStatus,
    pub current_package: Option<String>,
    pub total_packages: usize,
    pub completed_packages: usize,
    pub total_bytes: u64,
    pub downloaded_bytes: u64,
    pub message: String,
}

impl OperationProgress {
    /// Before anything has been done.
    pub fn new(total_packages: usize, total_bytes: u64) -> (p: OperationProgress)
        ensures
            p.status == OperationStatus::Pending,
            p.current_package is None,
            p.total_packages == total_packages,
            p.completed_packages == 0,
            p.total_bytes == total_bytes,
            p.downloaded_bytes == 0,
            p.message@ == Seq::<char>::empty(),
    {
        OperationProgress {
            status: OperationStatus::Pending,
            current_package: None,
            total_packages,
            completed_packages: 0,
            total_bytes,
            downloaded_bytes: 0,
            message: String::new(),
        }
    }

    /// How many percent have been downloaded; all of nothing.
    pub open spec fn downloaded_share(self) -> u8 {
        if self.total_bytes == 0 {
            100
        } else {
            percent_of(self.downloaded_bytes as nat, self.total_bytes as nat)
        }
    }

    /// How many percent have been downloaded; all of nothing.
    pub fn download_percent(&self) -> (p: u8)
        ensures
            p == self.downloaded_share(),
            self.downloaded_bytes <= self.total_bytes ==> p <= 100,
            self.downloaded_bytes == self.total_bytes ==> p == 100,
            0 == self.downloaded_bytes < self.total_bytes ==> p == 0,
            self.downloaded_bytes <= self.total_bytes && self.total_bytes > 0 ==> {
                let share = (100 * self.downloaded_bytes) / (self.total_bytes as int);
                share - 1 <= p <= share + 1
            },
    {
        if self.total_bytes == 0 {
            return 100;
        }
        proof {
            let (part, whole) = (self.downloaded_bytes as nat, self.total_bytes as nat);
            if part <= whole {
                parts_are_at_most_a_hundred_percent(part, whole);
                percent_is_close(part, whole);
            }
            if part == whole {
                complete_is_a_hundred_percent(whole);
            }
            nothing_is_zero_percent(whole);
        }
        percent(self.downloaded_bytes, self.total_bytes)
    }

    /// How many percent of the packages have been dealt with; all of none.
    pub open spec fn completed_share(self) -> u8 {
        if self.total_packages == 0 {
            100
        } else {
            percent_of(self.completed_packages as nat, self.total_packages as nat)
        }
    }

    /// How many percent of the packages have been dealt with; all of none.
    pub fn package_percent(&self) -> (p: u8)
        ensures
            p == self.completed_share(),
            self.completed_packages <= self.total_packages ==> p <= 100,
            self.completed_packages == self.total_packages ==> p == 100,
            0 == self.completed_packages < self.total_packages ==> p == 0,
            self.completed_packages <= self.total_packages && self.total_packages > 0 ==> {
                let share = (100 * self.completed_packages) / (self.total_packages as int);
                share - 1 <= p <= share + 1
            },
    {
        if self.total_packages == 0 {
            return 100;
        }
        proof {
            let (part, whole) = (self.completed_packages as nat, self.total_packages as nat);
            if part <= whole {
                parts_are_at_most_a_hundred_percent(part, whole);
                percent_is_close(part, whole);
            }
            if part == whole {
                complete_is_a_hundred_percent(whole);
            }
            nothing_is_zero_percent(whole);
        }
        percent(self.completed_packages as u64, self.total_packages as u64)
    }
}

// ---------------------------------------------------------------------------
// Laws

/// While the total stays, the percentage of a download never goes down as more bytes arrive.
pub proof fn downloads_never_go_back(p: OperationProgress, q: OperationProgress)
    requires
        p.total_bytes == q.total_bytes,
        p.downloaded_bytes <= q.downloaded_bytes,
    ensures
        p.downloaded_share() <= q.downloaded_share(),
{
    if p.total_bytes > 0 {
        percent_never_goes_down(
            p.downloaded_bytes as nat,
            q.downloaded_bytes as nat,
            p.total_bytes as nat,
        );
    }
}

/// While the total stays, the percentage of packages never goes down as more are dealt with.
pub proof fn packages_never_go_back(p: OperationProgress, q: OperationProgress)
    requires
        p.total_packages == q.total_packages,
        p.completed_packages <= q.completed_packages,
    ensures
        p.completed_share() <= q.completed_share(),
{
    if p.total_packages > 0 {
        percent_never_goes_down(
            p.completed_packages as nat,
            q.completed_packages as nat,
            p.total_packages as nat,
        );
    }
}

} // verus!
