//! Putting the backends together.
use vstd::prelude::*;

use crate::error::{Error, ErrorModel};
use crate::operation::{OperationProgress, OperationResult};
use crate::order::{ascending, key_of, sort_by_key, sorting_is_stable, stable_sorted};
use crate::package::{Package, PackageBackend, PackageInfo, SearchResult, UpdateInfo};
use crate::state::AppState;
use crate::text::{own, same_text};

verus! {

/// What is broadcast while an operation runs.
#[derive(Debug, Clone)]
pub enum ProgressMessage {
    Progress(OperationProgress),
    Completed(OperationResult),
    Error(String),
}

/// Which backends there are, and the state of the application. What a backend answers is given to
/// the methods; `None` stands for a backend that was not asked, since it does not exist.
#[derive(Debug)]
pub struct PackageManager {
    pub alpm: bool,
    pub flatpak: bool,
    pub state: AppState,
}

/// What a backend has listed: nothing where it failed or does not exist.
pub open spec fn listed<T>(answer: Option<Result<Vec<T>, Error>>) -> Seq<T> {
    match answer {
        Some(Ok(list)) => list@,
        _ => Seq::empty(),
    }
}

/// What a backend counts: nothing where it failed or does not exist.
pub open spec fn counted(answer: Option<Result<u64, Error>>) -> u64 {
    match answer {
        Some(Ok(n)) => n,
        _ => 0,
    }
}

fn list_of<T>(answer: Option<Result<Vec<T>, Error>>) -> (out: Vec<T>)
    ensures
        out@ == listed(answer),
{
    match answer {
        Some(Ok(list)) => list,
        _ => Vec::new(),
    }
}

fn count_of(answer: Option<Result<u64, Error>>) -> (n: u64)
    ensures
        n == counted(answer),
{
    match answer {
        Some(Ok(n)) => n,
        _ => 0,
    }
}

/// The name of a backend in an error.
pub open spec fn backend_name(backend: PackageBackend) -> Seq<char> {
    match backend {
        PackageBackend::Pacman => "Pacman"@,
        PackageBackend::Flatpak => "Flatpak"@,
    }
}

impl PackageManager {
    /// Whether there is a backend.
    pub open spec fn has_backend(self, backend: PackageBackend) -> bool {
        match backend {
            PackageBackend::Pacman => self.alpm,
            PackageBackend::Flatpak => self.flatpak,
        }
    }

    /// Whether an error says that a backend does not exist.
    pub open spec fn is_unavailable(e: Error, backend: PackageBackend) -> bool {
        e@ == ErrorModel::BackendUnavailable(backend_name(backend))
    }

    /// A manager of the backends that could be started.
    pub fn new(alpm: bool, flatpak: bool) -> (r: Result<PackageManager, Error>)
        ensures
            r matches Ok(m) && m.alpm == alpm && m.flatpak == flatpak && m.state.is_new(),
    {
        Ok(PackageManager { alpm, flatpak, state: AppState::new() })
    }

    /// The state of the application.
    pub fn state(&self) -> (s: &AppState)
        ensures
            *s == self.state,
    {
        &self.state
    }

    /// Refuses to go on without a backend.
    pub fn get_backend(&self, backend: PackageBackend) -> (r: Result<PackageBackend, Error>)
        ensures
            r is Ok == self.has_backend(backend),
            match r {
                Ok(b) => b == backend,
                Err(e) => PackageManager::is_unavailable(e, backend),
            },
    {
        match backend {
            PackageBackend::Pacman => if self.alpm {
                Ok(backend)
            } else {
                Err(Error::BackendUnavailable(own("Pacman")))
            },
            PackageBackend::Flatpak => if self.flatpak {
                Ok(backend)
            } else {
                Err(Error::BackendUnavailable(own("Flatpak")))
            },
        }
    }

    /// The backends that exist and are ready.
    pub fn available_backends(&self, pacman_ready: bool, flatpak_ready: bool) -> (out: Vec<
        PackageBackend,
    >)
        ensures
            out@ == (if self.alpm && pacman_ready {
                seq![PackageBackend::Pacman]
            } else {
                seq![]
            }) + (if self.flatpak && flatpak_ready {
                seq![PackageBackend::Flatpak]
            } else {
                seq![]
            }),
    {
        let mut out: Vec<PackageBackend> = Vec::new();
        if self.alpm && pacman_ready {
            out.push(PackageBackend::Pacman);
        }
        if self.flatpak && flatpak_ready {
            out.push(PackageBackend::Flatpak);
        }
        out
    }

    /// What all backends have found, sorted by name. A backend that failed is left out.
    pub fn search(
        &self,
        pacman: Option<Result<Vec<SearchResult>, Error>>,
        flatpak: Option<Result<Vec<SearchResult>, Error>>,
    ) -> (r: Result<Vec<SearchResult>, Error>)
        ensures
            r matches Ok(out) && out@ == stable_sorted(
                listed(pacman) + listed(flatpak),
                key_of::<SearchResult>(),
            ) && ascending(out@, key_of::<SearchResult>()),
    {
        let mut all = list_of(pacman);
        let mut more = list_of(flatpak);
        all.append(&mut more);
        proof {
            sorting_is_stable(all@, key_of::<SearchResult>());
        }
        Ok(sort_by_key(all))
    }

    /// What one backend has found.
    pub fn search_backend(
        &self,
        backend: PackageBackend,
        answer: Result<Vec<SearchResult>, Error>,
    ) -> (r: Result<Vec<SearchResult>, Error>)
        ensures
            if self.has_backend(backend) {
                r == answer
            } else {
                r matches Err(e) && PackageManager::is_unavailable(e, backend)
            },
    {
        match self.get_backend(backend) {
            Ok(_) => answer,
            Err(e) => Err(e),
        }
    }

    /// The installed packages of all backends, sorted by name. A backend that failed is left out.
    pub fn list_installed(
        &self,
        pacman: Option<Result<Vec<Package>, Error>>,
        flatpak: Option<Result<Vec<Package>, Error>>,
    ) -> (r: Result<Vec<Package>, Error>)
        ensures
            r matches Ok(out) && out@ == stable_sorted(
                listed(pacman) + listed(flatpak),
                key_of::<Package>(),
            ) && ascending(out@, key_of::<Package>()),
    {
        let mut all = list_of(pacman);
        let mut more = list_of(flatpak);
        all.append(&mut more);
        proof {
            sorting_is_stable(all@, key_of::<Package>());
        }
        Ok(sort_by_key(all))
    }

    /// The installed packages of one backend.
    pub fn list_installed_backend(
        &self,
        backend: PackageBackend,
        answer: Result<Vec<Package>, Error>,
    ) -> (r: Result<Vec<Package>, Error>)
        ensures
            if self.has_backend(backend) {
                r == answer
            } else {
                r matches Err(e) && PackageManager::is_unavailable(e, backend)
            },
    {
        match self.get_backend(backend) {
            Ok(_) => answer,
            Err(e) => Err(e),
        }
    }

    /// The updates of all backends. A backend that failed is left out.
    pub fn list_updates(
        &self,
        pacman: Option<Result<Vec<UpdateInfo>, Error>>,
        flatpak: Option<Result<Vec<UpdateInfo>, Error>>,
    ) -> (r: Result<Vec<UpdateInfo>, Error>)
        ensures
            r matches Ok(out) && out@ == listed(pacman) + listed(flatpak),
    {
        let mut all = list_of(pacman);
        let mut more = list_of(flatpak);
        all.append(&mut more);
        Ok(all)
    }

    /// What a backend knows of a package.
    pub fn get_package_info(
        &self,
        backend: PackageBackend,
        answer: Result<PackageInfo, Error>,
    ) -> (r: Result<PackageInfo, Error>)
        ensures
            if self.has_backend(backend) {
                r == answer
            } else {
                r matches Err(e) && PackageManager::is_unavailable(e, backend)
            },
    {
        match self.get_backend(backend) {
            Ok(_) => answer,
            Err(e) => Err(e),
        }
    }

    /// Takes in what a backend made of an operation: a result is kept as that of the last
    /// operation, returned, and broadcast.
    pub fn execute(
        &mut self,
        backend: PackageBackend,
        answer: Result<OperationResult, Error>,
    ) -> (r: Result<(OperationResult, ProgressMessage), Error>)
        ensures
            if !old(self).has_backend(backend) {
                &&& r matches Err(e) && PackageManager::is_unavailable(e, backend)
                &&& *final(self) == *old(self)
            } else {
                match answer {
                    Ok(result) => {
                        &&& r matches Ok((given, message)) && given@ == result@ && (
                        message matches ProgressMessage::Completed(sent) && sent@ == result@)
                        &&& final(self).state.last_operation == Some(result)
                        &&& *final(self) == (PackageManager {
                            state: AppState {
                                last_operation: Some(result),
                                ..old(self).state
                            },
                            ..*old(self)
                        })
                    },
                    Err(e) => {
                        &&& r matches Err(x) && x == e
                        &&& *final(self) == *old(self)
                    },
                }
            },
    {
        if let Err(e) = self.get_backend(backend) {
            return Err(e);
        }
        match answer {
            Ok(result) => {
                let given = result.copied();
                let sent = result.copied();
                self.state.last_operation = Some(result);
                Ok((given, ProgressMessage::Completed(sent)))
            },
            Err(e) => Err(e),
        }
    }

    /// The result of bringing the databases up to date, which only pacman has.
    pub fn sync_databases(&self, pacman: Option<Result<(), Error>>) -> (r: Result<(), Error>)
        ensures
            r == (match pacman {
                Some(answer) => answer,
                None => Ok(()),
            }),
    {
        match pacman {
            Some(answer) => answer,
            None => Ok(()),
        }
    }

    /// The size of all caches. The sum wraps around.
    pub fn get_cache_size(
        &self,
        pacman: Option<Result<u64, Error>>,
        flatpak: Option<Result<u64, Error>>,
    ) -> (r: Result<u64, Error>)
        ensures
            r == Ok::<u64, Error>(counted(pacman).wrapping_add(counted(flatpak))),
    {
        Ok(count_of(pacman).wrapping_add(count_of(flatpak)))
    }

    /// The bytes that cleaning all caches has freed. The sum wraps around.
    pub fn clean_caches(
        &self,
        pacman: Option<Result<u64, Error>>,
        flatpak: Option<Result<u64, Error>>,
    ) -> (r: Result<u64, Error>)
        ensures
            r == Ok::<u64, Error>(counted(pacman).wrapping_add(counted(flatpak))),
    {
        Ok(count_of(pacman).wrapping_add(count_of(flatpak)))
    }

    /// The packages that nothing needs any more, which only pacman knows.
    pub fn list_orphans(&self, pacman: Option<Result<Vec<Package>, Error>>) -> (r: Result<
        Vec<Package>,
        Error,
    >)
        ensures
            r matches Ok(out) && out@ == listed(pacman),
    {
        Ok(list_of(pacman))
    }

    /// How many packages, updates and orphans there are.
    pub fn get_stats(
        &self,
        pacman: Option<BackendLists>,
        flatpak: Option<BackendLists>,
    ) -> (s: PackageStats)
        ensures
            s.pacman_installed == (match pacman {
                Some(p) => count_listed(p.installed),
                None => 0,
            }),
            s.pacman_updates == (match pacman {
                Some(p) => count_updates(p.updates),
                None => 0,
            }),
            s.orphans == (match pacman {
                Some(p) => count_listed(p.orphans),
                None => 0,
            }),
            s.flatpak_installed == (match flatpak {
                Some(p) => count_listed(p.installed),
                None => 0,
            }),
            s.flatpak_updates == (match flatpak {
                Some(p) => count_updates(p.updates),
                None => 0,
            }),
    {
        let mut s = PackageStats::default();
        if let Some(p) = pacman {
            if let Ok(list) = p.installed {
                s.pacman_installed = list.len();
            }
            if let Ok(list) = p.updates {
                s.pacman_updates = list.len();
            }
            if let Ok(list) = p.orphans {
                s.orphans = list.len();
            }
        }
        if let Some(p) = flatpak {
            if let Ok(list) = p.installed {
                s.flatpak_installed = list.len();
            }
            if let Ok(list) = p.updates {
                s.flatpak_updates = list.len();
            }
        }
        s
    }
}

/// What a backend lists.
#[derive(Debug)]
pub struct BackendLists {
    pub installed: Result<Vec<Package>, Error>,
    pub updates: Result<Vec<UpdateInfo>, Error>,
    pub orphans: Result<Vec<Package>, Error>,
}

/// How many packages a backend lists; none where it fails.
pub open spec fn count_listed(answer: Result<Vec<Package>, Error>) -> nat {
    match answer {
        Ok(list) => list@.len(),
        Err(_) => 0,
    }
}

/// How many updates a backend lists; none where it fails.
pub open spec fn count_updates(answer: Result<Vec<UpdateInfo>, Error>) -> nat {
    match answer {
        Ok(list) => list@.len(),
        Err(_) => 0,
    }
}

/// How many packages, updates and orphans there are.
#[derive(Debug, Clone, Copy, PartialEq, Eq, Structural)]
pub struct PackageStats {
    pub pacman_installed: usize,
    pub pacman_updates: usize,
    pub flatpak_installed: usize,
    pub flatpak_updates: usize,
    pub orphans: usize,
}

impl Default for PackageStats {
    fn default() -> (s: PackageStats)
        ensures
            s.pacman_installed == 0,
            s.pacman_updates == 0,
            s.flatpak_installed == 0,
            s.flatpak_updates == 0,
            s.orphans == 0,
    {
        PackageStats {
            pacman_installed: 0,
            pacman_updates: 0,
            flatpak_installed: 0,
            flatpak_updates: 0,
            orphans: 0,
        }
    }
}

impl PackageStats {
    /// All installed packages.
    pub fn total_installed(&self) -> (n: usize)
        requires
            self.pacman_installed + self.flatpak_installed <= usize::MAX,
        ensures
            n == self.pacman_installed + self.flatpak_installed,
    {
        self.pacman_installed + self.flatpak_installed
    }

    /// All updates.
    pub fn total_updates(&self) -> (n: usize)
        requires
            self.pacman_updates + self.flatpak_updates <= usize::MAX,
        ensures
            n == self.pacman_updates + self.flatpak_updates,
    {
        self.pacman_updates + self.flatpak_updates
    }
}

// ---------------------------------------------------------------------------
// Questions about what a backend lists

/// Whether a package of a name is among the installed ones; an error of the backend is passed on.
pub fn is_installed(installed: Result<Vec<Package>, Error>, name: &str) -> (r: Result<bool, Error>)
    ensures
        match installed {
            Ok(list) => r == Ok::<bool, Error>(
                exists|i: int| 0 <= i < list@.len() && (#[trigger] list@[i]).name@ == name@,
            ),
            Err(e) => r == Err::<bool, Error>(e),
        },
{
    match installed {
        Ok(list) => {
            for i in 0..list.len()
                invariant
                    installed == Ok::<Vec<Package>, Error>(list),
                    forall|j: int| 0 <= j < i ==> (#[trigger] list@[j]).name@ != name@,
            {
                if same_text(list[i].name.as_str(), name) {
                    return Ok(true);
                }
            }
            Ok(false)
        },
        Err(e) => Err(e),
    }
}

/// How many packages are installed; an error of the backend is passed on.
pub fn installed_count(installed: Result<Vec<Package>, Error>) -> (r: Result<usize, Error>)
    ensures
        match installed {
            Ok(list) => r matches Ok(n) && n == list@.len(),
            Err(e) => r == Err::<usize, Error>(e),
        },
{
    match installed {
        Ok(list) => Ok(list.len()),
        Err(e) => Err(e),
    }
}

/// How many updates there are; an error of the backend is passed on.
pub fn update_count(updates: Result<Vec<UpdateInfo>, Error>) -> (r: Result<usize, Error>)
    ensures
        match updates {
            Ok(list) => r matches Ok(n) && n == list@.len(),
            Err(e) => r == Err::<usize, Error>(e),
        },
{
    match updates {
        Ok(list) => Ok(list.len()),
        Err(e) => Err(e),
    }
}

// ---------------------------------------------------------------------------
// Laws

/// What both backends list is shown, each package as often as they list it; a backend that fails or
/// does not exist takes nothing from the other.
pub proof fn answers_are_put_together(
    a: Vec<Package>,
    b: Vec<Package>,
    failed: Option<Result<Vec<Package>, Error>>,
)
    requires
        failed matches Some(r) ==> r is Err,
    ensures
        stable_sorted(
            listed(Some(Ok::<Vec<Package>, Error>(a))) + listed(Some(Ok::<Vec<Package>, Error>(b))),
            key_of::<Package>(),
        ).to_multiset() == a@.to_multiset().add(b@.to_multiset()),
        stable_sorted(
            listed(Some(Ok::<Vec<Package>, Error>(a))) + listed(failed),
            key_of::<Package>(),
        ).to_multiset() == a@.to_multiset(),
        stable_sorted(
            listed(failed) + listed(Some(Ok::<Vec<Package>, Error>(b))),
            key_of::<Package>(),
        ).to_multiset() == b@.to_multiset(),
{
    sorting_is_stable(a@ + b@, key_of::<Package>());
    vstd::seq_lib::lemma_multiset_commutative(a@, b@);
    let none = Seq::<Package>::empty();
    assert(listed(failed) =~= none);
    assert(a@ + none =~= a@);
    assert(none + b@ =~= b@);
    sorting_is_stable(a@, key_of::<Package>());
    sorting_is_stable(b@, key_of::<Package>());
}

/// A backend counts what it lists, and nothing where it fails.
pub proof fn answers_are_counted(list: Vec<Package>, updates: Vec<UpdateInfo>, e: Error, n: u64)
    ensures
        count_listed(Ok(list)) == list@.len(),
        count_listed(Err(e)) == 0,
        count_updates(Ok(updates)) == updates@.len(),
        count_updates(Err(e)) == 0,
        counted(Some(Ok(n))) == n,
        counted(Some(Err(e))) == 0,
        counted(None) == 0,
{
}

} // verus!
