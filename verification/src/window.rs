//! The lists of packages in the window.
use vstd::prelude::*;

use crate::filters::{installed_or_not, not_among, removed_are_gone, split_installed,
    without_removed};
use crate::listing::{copy_data, data_models, first_row_is_marked, first_row_tells, installed_row,
    missing_rows_change_nothing, row_installed, update_selection_in_model, with_selection,
    DataModel, PackageData};
use crate::number::shown_count;
use crate::pages::{first_page, page_count, rows_from, rows_stand_on_their_page, PAGE_SIZE};
use crate::repos::{group_installed_by_repo, grouped};
use crate::selection::{counts_of, selected_models, toggled, SelectedModel, Selection,
    SelectionCounts};
use crate::text::{same_text, texts};

verus! {

/// The lists of packages in the window.
#[derive(Debug)]
pub struct PackageLists {
    /// All installed packages; the page that is shown follows.
    pub full_installed: Vec<PackageData>,
    pub installed: Vec<PackageData>,
    pub current_page: i32,
    pub total_pages: i32,
    pub updates: Vec<PackageData>,
    pub flatpak_updates: Vec<PackageData>,
    pub flatpak: Vec<PackageData>,
    pub search_installed: Vec<PackageData>,
    pub search_available: Vec<PackageData>,
    pub repo: Vec<PackageData>,
    /// All installed packages by repository; those that are shown follow.
    pub full_grouped: Vec<PackageData>,
    pub grouped: Vec<PackageData>,
    pub installed_flatpaks: Vec<PackageData>,
}

/// The lists of packages in the window.
pub struct ListsModel {
    pub full_installed: Seq<DataModel>,
    pub installed: Seq<DataModel>,
    pub current_page: i32,
    pub total_pages: i32,
    pub updates: Seq<DataModel>,
    pub flatpak_updates: Seq<DataModel>,
    pub flatpak: Seq<DataModel>,
    pub search_installed: Seq<DataModel>,
    pub search_available: Seq<DataModel>,
    pub repo: Seq<DataModel>,
    pub full_grouped: Seq<DataModel>,
    pub grouped: Seq<DataModel>,
    pub installed_flatpaks: Seq<DataModel>,
}

impl View for PackageLists {
    type V = ListsModel;

    open spec fn view(&self) -> ListsModel {
        ListsModel {
            full_installed: data_models(self.full_installed@),
            installed: data_models(self.installed@),
            current_page: self.current_page,
            total_pages: self.total_pages,
            updates: data_models(self.updates@),
            flatpak_updates: data_models(self.flatpak_updates@),
            flatpak: data_models(self.flatpak@),
            search_installed: data_models(self.search_installed@),
            search_available: data_models(self.search_available@),
            repo: data_models(self.repo@),
            full_grouped: data_models(self.full_grouped@),
            grouped: data_models(self.grouped@),
            installed_flatpaks: data_models(self.installed_flatpaks@),
        }
    }
}

/// The lists with other installed packages, of which the first page is shown.
pub open spec fn with_installed(m: ListsModel, list: Seq<DataModel>) -> ListsModel {
    ListsModel {
        full_installed: list,
        installed: rows_from(list, 0, PAGE_SIZE as int),
        current_page: 0,
        total_pages: shown_count(page_count(list.len() as int, PAGE_SIZE as int) as nat),
        ..m
    }
}

/// The lists with the installed packages by repository.
pub open spec fn with_groups(m: ListsModel) -> ListsModel {
    let all = grouped(m.full_installed);
    ListsModel { full_grouped: all, grouped: all, ..m }
}

/// Whether an action removes packages.
pub open spec fn removes(action: Seq<char>) -> bool {
    action == "remove"@ || action == "bulk-remove"@
}

/// The lists after an operation on packages has succeeded: those that it has removed are gone at
/// once. Packages of Flatpak are told by their backend.
pub open spec fn after_operation(
    m: ListsModel,
    action: Seq<char>,
    names: Seq<Seq<char>>,
    backend: i32,
) -> ListsModel {
    if !removes(action) || names.len() == 0 {
        m
    } else if backend == 1 {
        ListsModel { installed_flatpaks: m.installed_flatpaks.filter(not_among(names)), ..m }
    } else {
        with_installed(m, m.full_installed.filter(not_among(names)))
    }
}

/// Whether a package is installed according to the lists that are shown.
pub open spec fn shown_installed(m: ListsModel, name: Seq<char>, backend: i32) -> bool {
    match row_installed(m.installed, name, backend) {
        Some(r) => r,
        None => match row_installed(m.updates, name, backend) {
            Some(r) => r,
            None => match row_installed(m.search_installed, name, backend) {
                Some(r) => r,
                None => match row_installed(m.search_available, name, backend) {
                    Some(r) => r,
                    None => match row_installed(m.flatpak, name, backend) {
                        Some(r) => r,
                        None => false,
                    },
                },
            },
        },
    }
}

/// The lists with a package selected or not.
pub open spec fn with_selected(m: ListsModel, name: Seq<char>, backend: i32, selected: bool) -> ListsModel {
    ListsModel {
        installed: with_selection(m.installed, name, backend, selected),
        updates: with_selection(m.updates, name, backend, selected),
        search_installed: with_selection(m.search_installed, name, backend, selected),
        search_available: with_selection(m.search_available, name, backend, selected),
        flatpak: with_selection(m.flatpak, name, backend, selected),
        repo: with_selection(m.repo, name, backend, selected),
        ..m
    }
}

/// The lists with none of some packages selected.
pub open spec fn with_unselected(m: ListsModel, list: Seq<SelectedModel>) -> ListsModel
    decreases list.len(),
{
    if list.len() == 0 {
        m
    } else {
        with_selected(
            with_unselected(m, list.drop_last()),
            list.last().name,
            list.last().backend,
            false,
        )
    }
}

/// Before anything is loaded.
pub open spec fn no_lists() -> ListsModel {
    ListsModel {
        full_installed: seq![],
        installed: seq![],
        current_page: 0,
        total_pages: 1,
        updates: seq![],
        flatpak_updates: seq![],
        flatpak: seq![],
        search_installed: seq![],
        search_available: seq![],
        repo: seq![],
        full_grouped: seq![],
        grouped: seq![],
        installed_flatpaks: seq![],
    }
}

fn nothing() -> (list: Vec<PackageData>)
    ensures
        data_models(list@) == Seq::<DataModel>::empty(),
{
    let list: Vec<PackageData> = Vec::new();
    proof {
        assert(data_models(list@) =~= Seq::<DataModel>::empty());
    }
    list
}

impl PackageLists {
    /// Before anything is loaded.
    pub fn new() -> (l: PackageLists)
        ensures
            l@ == no_lists(),
    {
        PackageLists {
            full_installed: nothing(),
            installed: nothing(),
            current_page: 0,
            total_pages: 1,
            updates: nothing(),
            flatpak_updates: nothing(),
            flatpak: nothing(),
            search_installed: nothing(),
            search_available: nothing(),
            repo: nothing(),
            full_grouped: nothing(),
            grouped: nothing(),
            installed_flatpaks: nothing(),
        }
    }

    fn set_installed(&mut self, list: Vec<PackageData>)
        ensures
            final(self)@ == with_installed(old(self)@, data_models(list@)),
    {
        let page = first_page(list.as_slice());
        proof {
            assert(data_models(list@).len() == list@.len());
        }
        self.full_installed = list;
        self.installed = page.rows;
        self.current_page = 0;
        self.total_pages = page.total_pages;
    }

    /// Shows packages that were loaded.
    pub fn packages_loaded(
        &mut self,
        installed: Vec<PackageData>,
        updates: Vec<PackageData>,
        flatpak_updates: Vec<PackageData>,
        flatpak: Vec<PackageData>,
    )
        ensures
            final(self)@ == with_groups(
                with_installed(
                    ListsModel {
                        updates: data_models(updates@),
                        flatpak_updates: data_models(flatpak_updates@),
                        flatpak: data_models(flatpak@),
                        ..old(self)@
                    },
                    data_models(installed@),
                ),
            ),
    {
        self.set_installed(installed);
        self.updates = updates;
        self.flatpak_updates = flatpak_updates;
        self.flatpak = flatpak;
        self.load_all_grouped();
    }

    /// Shows all installed packages by repository.
    pub fn load_all_grouped(&mut self)
        ensures
            final(self)@ == with_groups(old(self)@),
    {
        let all = group_installed_by_repo(copy_data(self.full_installed.as_slice()));
        self.grouped = copy_data(all.as_slice());
        self.full_grouped = all;
    }

    /// Shows the installed packages of the page by repository.
    pub fn load_page_grouped(&mut self)
        ensures
            final(self)@ == (ListsModel {
                full_grouped: grouped(old(self)@.installed),
                grouped: grouped(old(self)@.installed),
                ..old(self)@
            }),
    {
        let all = group_installed_by_repo(copy_data(self.installed.as_slice()));
        self.grouped = copy_data(all.as_slice());
        self.full_grouped = all;
    }

    /// Shows what a search has found: the installed packages, and the others.
    pub fn search_finished(&mut self, results: &[PackageData])
        ensures
            final(self)@ == (ListsModel {
                search_installed: data_models(results@).filter(installed_or_not(true)),
                search_available: data_models(results@).filter(installed_or_not(false)),
                ..old(self)@
            }),
    {
        let (installed, available) = split_installed(results);
        self.search_installed = installed;
        self.search_available = available;
    }

    /// Takes packages out of the lists that an operation has removed.
    pub fn operation_succeeded(&mut self, action: &str, names: &[String], backend: i32)
        ensures
            final(self)@ == after_operation(old(self)@, action@, texts(names@), backend),
    {
        let removing = same_text(action, "remove") || same_text(action, "bulk-remove");
        if !removing || names.len() == 0 {
            return;
        }
        if backend == 1 {
            self.installed_flatpaks = without_removed(self.installed_flatpaks.as_slice(), names);
        } else {
            let rest = without_removed(self.full_installed.as_slice(), names);
            self.set_installed(rest);
        }
    }

    /// Whether a package is installed according to the lists that are shown.
    pub fn find_package_installed(&self, name: &str, backend: i32) -> (r: bool)
        ensures
            r == shown_installed(self@, name@, backend),
    {
        if let Some(r) = installed_row(&self.installed, name, backend) {
            return r;
        }
        if let Some(r) = installed_row(&self.updates, name, backend) {
            return r;
        }
        if let Some(r) = installed_row(&self.search_installed, name, backend) {
            return r;
        }
        if let Some(r) = installed_row(&self.search_available, name, backend) {
            return r;
        }
        if let Some(r) = installed_row(&self.flatpak, name, backend) {
            return r;
        }
        false
    }

    /// Marks a package as selected or not in all lists that are shown.
    pub fn update_selection_in_models(&mut self, name: &str, backend: i32, selected: bool)
        ensures
            final(self)@ == with_selected(old(self)@, name@, backend, selected),
    {
        update_selection_in_model(&mut self.installed, name, backend, selected);
        update_selection_in_model(&mut self.updates, name, backend, selected);
        update_selection_in_model(&mut self.search_installed, name, backend, selected);
        update_selection_in_model(&mut self.search_available, name, backend, selected);
        update_selection_in_model(&mut self.flatpak, name, backend, selected);
        update_selection_in_model(&mut self.repo, name, backend, selected);
    }

    /// Selects a package or takes it out, in the lists and among the selected packages.
    pub fn toggle_selected(
        &mut self,
        selection: &mut Selection,
        name: &str,
        backend: i32,
        selected: bool,
    ) -> (c: SelectionCounts)
        ensures
            final(self)@ == with_selected(old(self)@, name@, backend, selected),
            final(selection)@ == toggled(
                old(selection)@,
                name@,
                backend,
                shown_installed(old(self)@, name@, backend),
                selected,
            ),
            c == counts_of(final(selection)@),
    {
        let installed = self.find_package_installed(name, backend);
        selection.toggle(name, backend, installed, selected);
        self.update_selection_in_models(name, backend, selected);
        selection.counts()
    }

    /// Takes all packages out of the selection, in the lists too.
    pub fn clear_selection(&mut self, selection: &mut Selection)
        ensures
            final(self)@ == with_unselected(old(self)@, old(selection)@),
            final(selection)@ == Seq::<SelectedModel>::empty(),
    {
        let list = selection.clear();
        let ghost all = selected_models(list@);
        let ghost before = self@;
        for i in 0..list.len()
            invariant
                all == selected_models(list@),
                self@ == with_unselected(before, all.take(i as int)),
        {
            proof {
                assert(all.take(i + 1).drop_last() =~= all.take(i as int));
                assert(all.take(i + 1).last() == list@[i as int]@);
            }
            self.update_selection_in_models(list[i].name.as_str(), list[i].backend, false);
        }
        proof {
            assert(all.take(all.len() as int) =~= all);
        }
    }
}

// ---------------------------------------------------------------------------
// Laws

/// When packages were removed they leave the list of their backend at once, and everything else
/// stays; any other action, and one without packages, leaves all lists as they are.
pub proof fn removed_packages_leave(
    m: ListsModel,
    action: Seq<char>,
    names: Seq<Seq<char>>,
    backend: i32,
    d: DataModel,
)
    ensures
        ({
            let after = after_operation(m, action, names, backend);
            let removing = action == "remove"@ || action == "bulk-remove"@;
            &&& removing && backend != 1 ==> (after.full_installed.contains(d)
                <==> m.full_installed.contains(d) && !names.contains(d.name))
            &&& removing && backend == 1 ==> (after.installed_flatpaks.contains(d)
                <==> m.installed_flatpaks.contains(d) && !names.contains(d.name))
            &&& backend == 1 ==> after.full_installed == m.full_installed && after.installed
                == m.installed
            &&& backend != 1 ==> after.installed_flatpaks == m.installed_flatpaks
            &&& after.updates == m.updates && after.flatpak == m.flatpak && after.repo == m.repo
            &&& !removing || names.len() == 0 ==> after == m
        }),
{
    removed_are_gone(m.full_installed, names, d);
    removed_are_gone(m.installed_flatpaks, names, d);
}

/// After packages were removed the first page of what is left is shown.
pub proof fn first_page_is_shown(m: ListsModel, action: Seq<char>, names: Seq<Seq<char>>)
    requires
        action == "remove"@ || action == "bulk-remove"@,
        names.len() > 0,
    ensures
        ({
            let after = after_operation(m, action, names, 0);
            &&& after.current_page == 0
            &&& after.installed.len() <= PAGE_SIZE
            &&& after.installed.len() <= after.full_installed.len()
            &&& after.full_installed.len() <= PAGE_SIZE ==> after.installed == after.full_installed
            &&& forall|i: int|
                0 <= i < after.installed.len() ==> #[trigger] after.installed[i]
                    == after.full_installed[i]
        }),
{
    let after = after_operation(m, action, names, 0);
    assert(after.full_installed.skip(0) =~= after.full_installed);
    rows_stand_on_their_page(after.full_installed, 0, PAGE_SIZE as int);
    assert(after.full_installed.len() <= PAGE_SIZE ==> after.installed =~= after.full_installed);
}

/// A package is marked in every list that shows packages, and in no other way: the rows stay where
/// they are, and other packages keep their marks.
pub proof fn marks_are_set_everywhere(
    m: ListsModel,
    name: Seq<char>,
    backend: i32,
    selected: bool,
)
    ensures
        ({
            let after = with_selected(m, name, backend, selected);
            &&& is_marked(m.installed, after.installed, name, backend, selected)
            &&& is_marked(m.updates, after.updates, name, backend, selected)
            &&& is_marked(m.search_installed, after.search_installed, name, backend, selected)
            &&& is_marked(m.search_available, after.search_available, name, backend, selected)
            &&& is_marked(m.flatpak, after.flatpak, name, backend, selected)
            &&& is_marked(m.repo, after.repo, name, backend, selected)
            &&& after.full_installed == m.full_installed
            &&& after.installed_flatpaks == m.installed_flatpaks
        }),
{
    marking(m.installed, name, backend, selected);
    marking(m.updates, name, backend, selected);
    marking(m.search_installed, name, backend, selected);
    marking(m.search_available, name, backend, selected);
    marking(m.flatpak, name, backend, selected);
    marking(m.repo, name, backend, selected);
}

/// Whether a list was marked: its first row of a package carries the mark, and all else is as it
/// was.
pub open spec fn is_marked(
    before: Seq<DataModel>,
    after: Seq<DataModel>,
    name: Seq<char>,
    backend: i32,
    selected: bool,
) -> bool {
    &&& after.len() == before.len()
    &&& forall|i: int|
        #![trigger after[i]]
        0 <= i < before.len() ==> after[i] == (if is_first_row(before, name, backend, i) {
            DataModel { selected, ..before[i] }
        } else {
            before[i]
        })
}

/// Whether a row is the first one of a package.
pub open spec fn is_first_row(
    list: Seq<DataModel>,
    name: Seq<char>,
    backend: i32,
    i: int,
) -> bool {
    &&& list[i].name == name
    &&& list[i].backend == backend
    &&& forall|j: int|
        0 <= j < i ==> !((#[trigger] list[j]).name == name && list[j].backend == backend)
}

proof fn marking(list: Seq<DataModel>, name: Seq<char>, backend: i32, selected: bool)
    ensures
        is_marked(list, with_selection(list, name, backend, selected), name, backend, selected),
{
    if exists|i: int| 0 <= i < list.len() && #[trigger] is_first_row(list, name, backend, i) {
        let i = choose|i: int|
            0 <= i < list.len() && #[trigger] is_first_row(list, name, backend, i);
        first_row_is_marked(list, name, backend, selected, i);
        assert forall|k: int| 0 <= k < list.len() && k != i implies !is_first_row(
            list,
            name,
            backend,
            k,
        ) by {
            if k < i {
                assert(!(list[k].name == name && list[k].backend == backend));
            } else {
                assert(list[i].name == name && list[i].backend == backend);
            }
        }
    } else {
        assert forall|j: int| 0 <= j < list.len() implies !((#[trigger] list[j]).name == name
            && list[j].backend == backend) by {
            if list[j].name == name && list[j].backend == backend {
                some_first_row(list, name, backend, j);
            }
        }
        missing_rows_change_nothing(list, name, backend, selected);
    }
}

proof fn some_first_row(list: Seq<DataModel>, name: Seq<char>, backend: i32, j: int)
    requires
        0 <= j < list.len(),
        list[j].name == name && list[j].backend == backend,
    ensures
        exists|i: int| 0 <= i < list.len() && #[trigger] is_first_row(list, name, backend, i),
    decreases j,
{
    if exists|k: int| 0 <= k < j && (#[trigger] list[k]).name == name && list[k].backend == backend {
        let k = choose|k: int|
            0 <= k < j && (#[trigger] list[k]).name == name && list[k].backend == backend;
        some_first_row(list, name, backend, k);
    } else {
        assert(is_first_row(list, name, backend, j));
    }
}

/// A package counts as installed where its first row in the list of installed packages says so,
/// whatever other lists say; the row of a search counts where the lists before it show none, and
/// where no list shows the package, it does not count as installed.
pub proof fn shown_rows_tell(m: ListsModel, name: Seq<char>, backend: i32, i: int)
    ensures
        0 <= i < m.installed.len() && is_first_row(m.installed, name, backend, i)
            ==> shown_installed(m, name, backend) == m.installed[i].installed,
        !shows(m.installed, name, backend) && !shows(m.updates, name, backend) && !shows(
            m.search_installed,
            name,
            backend,
        ) && !shows(m.search_available, name, backend) && !shows(m.flatpak, name, backend)
            ==> !shown_installed(m, name, backend),
        !shows(m.installed, name, backend) && !shows(m.updates, name, backend) && !shows(
            m.search_installed,
            name,
            backend,
        ) && 0 <= i < m.search_available.len() && is_first_row(
            m.search_available,
            name,
            backend,
            i,
        ) ==> shown_installed(m, name, backend) == m.search_available[i].installed,
{
    if 0 <= i < m.installed.len() && is_first_row(m.installed, name, backend, i) {
        first_row_tells(m.installed, name, backend, i);
    }
    if 0 <= i < m.search_available.len() && is_first_row(m.search_available, name, backend, i) {
        first_row_tells(m.search_available, name, backend, i);
    }
    not_shown(m.installed, name, backend);
    not_shown(m.updates, name, backend);
    not_shown(m.search_installed, name, backend);
    not_shown(m.search_available, name, backend);
    not_shown(m.flatpak, name, backend);
}

/// Whether a list shows a package.
pub open spec fn shows(list: Seq<DataModel>, name: Seq<char>, backend: i32) -> bool {
    exists|i: int|
        0 <= i < list.len() && (#[trigger] list[i]).name == name && list[i].backend == backend
}

proof fn not_shown(list: Seq<DataModel>, name: Seq<char>, backend: i32)
    ensures
        !shows(list, name, backend) ==> row_installed(list, name, backend) is None,
{
    if !shows(list, name, backend) {
        missing_rows_change_nothing(list, name, backend, false);
    }
}

/// Before anything is loaded all lists are empty, and there is one page.
pub proof fn new_lists_are_empty(d: DataModel)
    ensures
        !no_lists().full_installed.contains(d),
        !no_lists().updates.contains(d),
        !no_lists().flatpak_updates.contains(d),
        !no_lists().flatpak.contains(d),
        !no_lists().installed_flatpaks.contains(d),
        no_lists().total_pages == 1,
{
}

/// Once the selection is cleared no row of what was selected is marked, and every row is where it
/// was.
pub proof fn cleared_rows_are_unmarked(
    m: ListsModel,
    list: Seq<SelectedModel>,
    k: int,
    i: int,
)
    requires
        0 <= k < list.len(),
    ensures
        with_unselected(m, list).installed.len() == m.installed.len(),
        with_unselected(m, list).full_installed == m.full_installed,
        0 <= i < m.installed.len() && is_first_row(m.installed, list[k].name, list[k].backend, i)
            ==> !with_unselected(m, list).installed[i].selected,
{
    clearing(m, list);
    if 0 <= i < m.installed.len() && is_first_row(m.installed, list[k].name, list[k].backend, i) {
        clearing_unmarks(m, list, k, i);
    }
}

proof fn clearing(m: ListsModel, list: Seq<SelectedModel>)
    ensures
        ({
            let after = with_unselected(m, list);
            &&& after.full_installed == m.full_installed
            &&& after.installed.len() == m.installed.len()
            &&& forall|j: int|
                0 <= j < m.installed.len() ==> (#[trigger] after.installed[j]).name
                    == m.installed[j].name && after.installed[j].backend == m.installed[j].backend
        }),
    decreases list.len(),
{
    if list.len() > 0 {
        clearing(m, list.drop_last());
        let before = with_unselected(m, list.drop_last());
        marks_are_set_everywhere(before, list.last().name, list.last().backend, false);
    }
}

proof fn clearing_unmarks(m: ListsModel, list: Seq<SelectedModel>, k: int, i: int)
    requires
        0 <= k < list.len(),
        0 <= i < m.installed.len(),
        is_first_row(m.installed, list[k].name, list[k].backend, i),
    ensures
        !with_unselected(m, list).installed[i].selected,
    decreases list.len(),
{
    let front = list.drop_last();
    let before = with_unselected(m, front);
    let (name, backend) = (list.last().name, list.last().backend);
    clearing(m, front);
    marks_are_set_everywhere(before, name, backend, false);
    let after = with_unselected(m, list);
    assert(after == with_selected(before, name, backend, false));
    if k < front.len() {
        assert(front[k] == list[k]);
        clearing_unmarks(m, front, k, i);
        assert(!after.installed[i].selected);
    } else {
        assert(before.installed[i].name == m.installed[i].name);
        assert forall|j: int| 0 <= j < i implies !((#[trigger] before.installed[j]).name == name
            && before.installed[j].backend == backend) by {
            assert(!(m.installed[j].name == name && m.installed[j].backend == backend));
        }
        assert(is_first_row(before.installed, name, backend, i));
        assert(!after.installed[i].selected);
    }
}

/// The groups are those of all installed packages, and all of them are shown.
pub proof fn groups_follow_the_packages(m: ListsModel)
    ensures
        with_groups(m).full_grouped == grouped(m.full_installed),
        with_groups(m).grouped == with_groups(m).full_grouped,
        with_groups(m).full_installed == m.full_installed,
        with_groups(m).installed == m.installed,
        with_groups(m).updates == m.updates,
{
}

} // verus!
