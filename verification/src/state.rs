//! The state of the application.
use vstd::prelude::*;

use crate::operation::OperationResult;
use crate::package::{Package, PackageBackend, SearchResult, UpdateInfo};
use crate::text::{begins, filled, has_chars, holds, is_ascii_text, lowered, to_chars, to_lower};

verus! {

/// What is shown.
#[derive(Debug, Clone, Copy, PartialEq, Eq, Structural)]
pub enum ViewState {
    Installed,
    Updates,
    Search,
    Flatpak,
    Settings,
    Maintenance,
}

impl Default for ViewState {
    /// The view on startup.
    fn default() -> (v: ViewState)
        ensures
            v == ViewState::Installed,
    {
        ViewState::Installed
    }
}

/// Which packages are shown.
#[derive(Debug, Clone)]
pub struct FilterOptions {
    pub search_text: String,
    pub backend: Option<PackageBackend>,
    pub explicit_only: bool,
    pub updates_only: bool,
}

impl FilterOptions {
    /// Whether everything is shown.
    pub open spec fn is_open(self) -> bool {
        &&& self.search_text@ == Seq::<char>::empty()
        &&& self.backend is None
        &&& !self.explicit_only
        &&& !self.updates_only
    }
}

impl Default for FilterOptions {
    fn default() -> (f: FilterOptions)
        ensures
            f.is_open(),
    {
        FilterOptions {
            search_text: String::new(),
            backend: None,
            explicit_only: false,
            updates_only: false,
        }
    }
}

/// The state of the application.
#[derive(Debug, Clone)]
pub struct AppState {
    pub view: ViewState,
    pub filter: FilterOptions,
    pub selected_package: Option<String>,
    pub installed_packages: Vec<Package>,
    pub updates: Vec<UpdateInfo>,
    pub search_results: Vec<SearchResult>,
    pub last_operation: Option<OperationResult>,
    pub operation_in_progress: bool,
    pub error_message: Option<String>,
}

/// Whether a package passes the filter: its name or its description contains the text, whatever
/// the case, and it belongs to the backend, where one is chosen.
pub open spec fn passes(f: FilterOptions, p: Package) -> bool {
    &&& f.search_text@.len() == 0 || holds(lowered(p.name@), lowered(f.search_text@)) || holds(
        lowered(p.description@),
        lowered(f.search_text@),
    )
    &&& f.backend matches Some(b) ==> p.backend == b
}

impl AppState {
    /// Whether this is the state on startup.
    pub open spec fn is_new(self) -> bool {
        &&& self.view == ViewState::Installed
        &&& self.filter.is_open()
        &&& self.selected_package is None
        &&& self.installed_packages@.len() == 0
        &&& self.updates@.len() == 0
        &&& self.search_results@.len() == 0
        &&& self.last_operation is None
        &&& !self.operation_in_progress
        &&& self.error_message is None
    }

    /// The state on startup.
    pub fn new() -> (s: AppState)
        ensures
            s.is_new(),
    {
        AppState {
            view: ViewState::Installed,
            filter: FilterOptions::default(),
            selected_package: None,
            installed_packages: Vec::new(),
            updates: Vec::new(),
            search_results: Vec::new(),
            last_operation: None,
            operation_in_progress: false,
            error_message: None,
        }
    }

    /// Shows another view; no package is selected there.
    pub fn set_view(&mut self, view: ViewState)
        ensures
            *final(self) == (AppState { view, selected_package: None, ..*old(self) }),
    {
        self.view = view;
        self.selected_package = None;
    }

    /// Sets the text that is searched for.
    pub fn set_search(&mut self, text: String)
        ensures
            *final(self) == (AppState {
                filter: FilterOptions { search_text: text, ..old(self).filter },
                ..*old(self)
            }),
    {
        self.filter.search_text = text;
    }

    /// Forgets the error.
    pub fn clear_error(&mut self)
        ensures
            *final(self) == (AppState { error_message: None, ..*old(self) }),
    {
        self.error_message = None;
    }

    /// Keeps an error.
    pub fn set_error(&mut self, message: String)
        ensures
            *final(self) == (AppState { error_message: Some(message), ..*old(self) }),
    {
        self.error_message = Some(message);
    }

    /// The installed packages that pass the filter, in their order.
    pub fn filtered_installed(&self) -> (out: Vec<&Package>)
        ensures
            out@.map_values(|p: &Package| *p) == self.installed_packages@.filter(
                |p: Package| passes(self.filter, p),
            ),
    {
        let mut out: Vec<&Package> = Vec::new();
        let ghost all = self.installed_packages@;
        let ghost keep = |p: Package| passes(self.filter, p);
        let ghost own_value = |p: &Package| *p;
        let search = to_lower(self.filter.search_text.as_str());
        let q = to_chars(search.as_str());
        let has_text = filled(self.filter.search_text.as_str());
        proof {
            assert(out@.map_values(own_value) =~= all.take(0).filter(keep)) by {
                reveal(Seq::filter);
            }
        }
        for i in 0..self.installed_packages.len()
            invariant
                all == self.installed_packages@,
                keep == (|p: Package| passes(self.filter, p)),
                own_value == (|p: &Package| *p),
                q@ == lowered(self.filter.search_text@),
                has_text == (self.filter.search_text@.len() > 0),
                out@.map_values(own_value) == all.take(i as int).filter(keep),
        {
            let p = &self.installed_packages[i];
            let ghost had = out@;
            proof {
                assert(all.take(i + 1) =~= all.take(i as int).push(*p));
                all.take(i as int).lemma_filter_push(*p, keep);
            }
            let mut wanted = true;
            if has_text {
                let name = to_lower(p.name.as_str());
                let description = to_lower(p.description.as_str());
                let n = to_chars(name.as_str());
                let d = to_chars(description.as_str());
                wanted = has_chars(n.as_slice(), q.as_slice()) || has_chars(
                    d.as_slice(),
                    q.as_slice(),
                );
            }
            if let Some(backend) = self.filter.backend {
                if p.backend != backend {
                    wanted = false;
                }
            }
            if wanted {
                out.push(p);
                proof {
                    assert(out@.map_values(own_value) =~= had.map_values(own_value).push(*p));
                }
            }
        }
        proof {
            assert(all.take(all.len() as int) =~= all);
        }
        out
    }

    /// How many installed packages belong to a backend.
    pub fn installed_count_by_backend(&self, backend: PackageBackend) -> (n: usize)
        ensures
            n == self.installed_packages@.filter(|p: Package| p.backend == backend).len(),
    {
        let ghost all = self.installed_packages@;
        let ghost keep = |p: Package| p.backend == backend;
        let mut n: usize = 0;
        proof {
            assert(all.take(0).filter(keep).len() == 0) by {
                reveal(Seq::filter);
            }
        }
        for i in 0..self.installed_packages.len()
            invariant
                all == self.installed_packages@,
                keep == (|p: Package| p.backend == backend),
                n == all.take(i as int).filter(keep).len(),
                n <= i,
        {
            let p = &self.installed_packages[i];
            proof {
                assert(all.take(i + 1) =~= all.take(i as int).push(*p));
                all.take(i as int).lemma_filter_push(*p, keep);
            }
            if p.backend == backend {
                n = n + 1;
            }
        }
        proof {
            assert(all.take(all.len() as int) =~= all);
        }
        n
    }
}

impl Default for AppState {
    fn default() -> (s: AppState)
        ensures
            s.is_new(),
    {
        AppState::new()
    }
}

// ---------------------------------------------------------------------------
// Laws

/// An open filter keeps every package.
pub proof fn open_filter_keeps_all(f: FilterOptions, list: Seq<Package>)
    requires
        f.is_open(),
    ensures
        list.filter(|p: Package| passes(f, p)) == list,
    decreases list.len(),
{
    reveal(Seq::filter);
    let keep = |p: Package| passes(f, p);
    if list.len() > 0 {
        open_filter_keeps_all(f, list.drop_last());
        assert(list =~= list.drop_last().push(list.last()));
        list.drop_last().lemma_filter_push(list.last(), keep);
    } else {
        assert(list.filter(keep) =~= list);
    }
}

/// The counts of the backends add up to the number of installed packages.
pub proof fn counts_add_up(list: Seq<Package>)
    ensures
        list.filter(|p: Package| p.backend == PackageBackend::Pacman).len() + list.filter(
            |p: Package| p.backend == PackageBackend::Flatpak,
        ).len() == list.len(),
    decreases list.len(),
{
    reveal(Seq::filter);
    if list.len() > 0 {
        let (front, last) = (list.drop_last(), list.last());
        counts_add_up(front);
        assert(list =~= front.push(last));
        front.lemma_filter_push(last, |p: Package| p.backend == PackageBackend::Pacman);
        front.lemma_filter_push(last, |p: Package| p.backend == PackageBackend::Flatpak);
    }
}

/// A package is found by a part of its name or of its description, whatever the case of the letters,
/// in the chosen backend or where none is chosen; another backend's packages are not shown.
pub proof fn packages_pass_by_their_parts(
    f: FilterOptions,
    p: Package,
    front: Seq<char>,
    part: Seq<char>,
    tail: Seq<char>,
)
    requires
        is_ascii_text(front + part + tail),
        is_ascii_text(part),
        f.search_text@ == part,
        p.name@ == front + part + tail || p.description@ == front + part + tail,
    ensures
        f.backend is None ==> passes(f, p),
        f.backend == Some(p.backend) ==> passes(f, p),
        f.backend is Some && f.backend != Some(p.backend) ==> !passes(f, p),
{
    let whole = front + part + tail;
    let lower = |c: char| crate::text::ascii_lower(c);
    let n = front.len() as int;
    let low = whole.map_values(lower);
    assert(low.skip(n).take(part.len() as int) =~= part.map_values(lower));
    assert(begins(low.skip(n), lowered(part)));
}

/// A package that does not contain what is typed is not shown.
pub proof fn others_do_not_pass(f: FilterOptions, p: Package)
    requires
        f.search_text@.len() > 0,
        !holds(lowered(p.name@), lowered(f.search_text@)),
        !holds(lowered(p.description@), lowered(f.search_text@)),
    ensures
        !passes(f, p),
{
}

} // verus!
