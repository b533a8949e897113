//! The packages that the user has selected, and what is done to all of them at once.
use vstd::prelude::*;

use crate::filters::{chosen, selected_rows};
use crate::listing::{data_models, DataModel, PackageData};
use crate::number::{decimal, decimal_text, shown_count, to_count};
use crate::text::{join_texts, joined, own, push_text, same_text, texts};

verus! {

// ---------------------------------------------------------------------------
// Selected packages

/// A selected package: its name, its backend, and whether it was installed when it was selected.
#[derive(Debug, Clone)]
pub struct Selected {
    pub name: String,
    pub backend: i32,
    pub installed: bool,
}

/// A selected package.
pub struct SelectedModel {
    pub name: Seq<char>,
    pub backend: i32,
    pub installed: bool,
}

impl View for Selected {
    type V = SelectedModel;

    open spec fn view(&self) -> SelectedModel {
        SelectedModel { name: self.name@, backend: self.backend, installed: self.installed }
    }
}

impl Selected {
    /// A copy.
    pub fn copied(&self) -> (s: Selected)
        ensures
            s@ == self@,
    {
        Selected {
            name: own(self.name.as_str()),
            backend: self.backend,
            installed: self.installed,
        }
    }
}

/// The contents of a list of selected packages.
pub open spec fn selected_models(list: Seq<Selected>) -> Seq<SelectedModel> {
    list.map_values(|s: Selected| s@)
}

/// Other packages than the one with a name and a backend.
pub open spec fn other_packages(name: Seq<char>, backend: i32) -> spec_fn(SelectedModel) -> bool {
    |s: SelectedModel| !(s.name == name && s.backend == backend)
}

/// Selected packages that were installed, or those that were not.
pub open spec fn were_installed(wanted: bool) -> spec_fn(SelectedModel) -> bool {
    |s: SelectedModel| s.installed == wanted
}

/// Whether a package is in a list.
pub open spec fn is_selected(list: Seq<SelectedModel>, name: Seq<char>, backend: i32) -> bool {
    exists|i: int|
        0 <= i < list.len() && (#[trigger] list[i]).name == name && list[i].backend == backend
}

/// The list after a package was selected or taken out.
pub open spec fn toggled(
    list: Seq<SelectedModel>,
    name: Seq<char>,
    backend: i32,
    installed: bool,
    selected: bool,
) -> Seq<SelectedModel> {
    if !selected {
        list.filter(other_packages(name, backend))
    } else if is_selected(list, name, backend) {
        list
    } else {
        list.push(SelectedModel { name, backend, installed })
    }
}

/// What is done to several packages at once.
#[derive(Debug, Clone)]
pub struct BulkOperation {
    pub title: String,
    pub names: Vec<String>,
    pub backend: i32,
}

/// Whether no package is in a list twice.
pub open spec fn no_doubles(list: Seq<SelectedModel>) -> bool {
    forall|i: int, j: int|
        0 <= i < j < list.len() ==> !((#[trigger] list[i]).name == (#[trigger] list[j]).name
            && list[i].backend == list[j].backend)
}

proof fn filter_is_within(list: Seq<SelectedModel>, keep: spec_fn(SelectedModel) -> bool)
    ensures
        forall|i: int|
            0 <= i < list.filter(keep).len() ==> list.contains(#[trigger] list.filter(keep)[i]),
    decreases list.len(),
{
    reveal(Seq::filter);
    if list.len() > 0 {
        let most = list.drop_last();
        filter_is_within(most, keep);
        let had = most.filter(keep);
        let out = list.filter(keep);
        assert forall|i: int| 0 <= i < out.len() implies list.contains(#[trigger] out[i]) by {
            if i < had.len() {
                assert(most.contains(had[i]));
                let k = choose|k: int| 0 <= k < most.len() && most[k] == had[i];
                assert(list[k] == out[i]);
            } else {
                assert(list[list.len() - 1] == out[i]);
            }
        }
    }
}

proof fn filter_keeps_no_doubles(list: Seq<SelectedModel>, keep: spec_fn(SelectedModel) -> bool)
    requires
        no_doubles(list),
    ensures
        no_doubles(list.filter(keep)),
    decreases list.len(),
{
    reveal(Seq::filter);
    if list.len() > 0 {
        let most = list.drop_last();
        filter_keeps_no_doubles(most, keep);
        filter_is_within(most, keep);
        let had = most.filter(keep);
        let out = list.filter(keep);
        assert forall|i: int, j: int| 0 <= i < j < out.len() implies !((#[trigger] out[i]).name == (
        #[trigger] out[j]).name && out[i].backend == out[j].backend) by {
            assert(had[i] == out[i]);
            if j == had.len() {
                assert(most.contains(had[i]));
                let k = choose|k: int| 0 <= k < most.len() && most[k] == had[i];
                assert(list[k] == out[i]);
                assert(list[list.len() - 1] == out[j]);
            } else {
                assert(had[j] == out[j]);
            }
        }
    }
}

/// Selecting and taking out packages never makes one of them stand in the list twice.
pub proof fn selecting_makes_no_doubles(
    list: Seq<SelectedModel>,
    name: Seq<char>,
    backend: i32,
    installed: bool,
    selected: bool,
)
    requires
        no_doubles(list),
    ensures
        no_doubles(toggled(list, name, backend, installed, selected)),
{
    if !selected {
        filter_keeps_no_doubles(list, other_packages(name, backend));
    }
}

/// A package is in the list just when it was the last to be selected and not taken out; no other
/// package is touched.
pub proof fn toggling_decides(
    list: Seq<SelectedModel>,
    name: Seq<char>,
    backend: i32,
    installed: bool,
    selected: bool,
    other: Seq<char>,
    other_backend: i32,
)
    ensures
        is_selected(toggled(list, name, backend, installed, selected), name, backend) == selected,
        !(other == name && other_backend == backend) ==> is_selected(
            toggled(list, name, backend, installed, selected),
            other,
            other_backend,
        ) == is_selected(list, other, other_backend),
{
    let out = toggled(list, name, backend, installed, selected);
    if !selected {
        let keep = other_packages(name, backend);
        broadcast use vstd::seq_lib::group_filter_ensures;

        assert forall|i: int| 0 <= i < out.len() implies keep(#[trigger] out[i]) by {}
        filter_is_within(list, keep);
        if is_selected(out, other, other_backend) {
            let i = choose|i: int|
                0 <= i < out.len() && (#[trigger] out[i]).name == other && out[i].backend
                    == other_backend;
            assert(list.contains(out[i]));
            let k = choose|k: int| 0 <= k < list.len() && list[k] == out[i];
            assert(list[k].name == other);
        }
        if !(other == name && other_backend == backend) && is_selected(
            list,
            other,
            other_backend,
        ) {
            let i = choose|i: int|
                0 <= i < list.len() && (#[trigger] list[i]).name == other && list[i].backend
                    == other_backend;
            assert(keep(list[i]));
            assert(out.contains(list[i]));
            let k = choose|k: int| 0 <= k < out.len() && out[k] == list[i];
            assert(out[k].name == other);
        }
    } else if !is_selected(list, name, backend) {
        assert(out[list.len() as int].name == name);
        if is_selected(list, other, other_backend) {
            let i = choose|i: int|
                0 <= i < list.len() && (#[trigger] list[i]).name == other && list[i].backend
                    == other_backend;
            assert(out[i].name == other);
        }
        if !(other == name && other_backend == backend) && is_selected(out, other, other_backend) {
            let i = choose|i: int|
                0 <= i < out.len() && (#[trigger] out[i]).name == other && out[i].backend
                    == other_backend;
            assert(list[i] == out[i]);
        }
    }
}

/// How many packages are selected, how many of them were installed, and how many were not.
#[derive(Debug, Clone, Copy, PartialEq, Eq, Structural)]
pub struct SelectionCounts {
    pub total: i32,
    pub installed: i32,
    pub uninstalled: i32,
}

/// The counts for a list of selected packages.
pub open spec fn counts_of(list: Seq<SelectedModel>) -> SelectionCounts {
    let total = shown_count(list.len());
    let installed = shown_count(list.filter(were_installed(true)).len());
    SelectionCounts { total, installed, uninstalled: total.wrapping_sub(installed) }
}

/// The title of what is done to several packages at once.
pub open spec fn bulk_title(removing: bool, n: nat) -> Seq<char> {
    if removing {
        "Removing "@ + decimal(n) + " packages"@
    } else {
        "Installing "@ + decimal(n) + " packages"@
    }
}

/// The names of selected packages.
pub open spec fn selected_names(list: Seq<SelectedModel>) -> Seq<Seq<char>> {
    list.map_values(|s: SelectedModel| s.name)
}

/// The packages that the user has selected, none of them twice.
#[derive(Debug)]
pub struct Selection {
    list: Vec<Selected>,
}

impl View for Selection {
    type V = Seq<SelectedModel>;

    closed spec fn view(&self) -> Seq<SelectedModel> {
        selected_models(self.list@)
    }
}

impl Selection {
    #[verifier::type_invariant]
    spec fn well_formed(self) -> bool {
        no_doubles(selected_models(self.list@))
    }

    /// No packages.
    pub fn new() -> (s: Selection)
        ensures
            s@ == Seq::<SelectedModel>::empty(),
    {
        let s = Selection { list: Vec::new() };
        proof {
            assert(s@ =~= Seq::<SelectedModel>::empty());
        }
        s
    }

    /// The selected packages in the order in which they were selected.
    pub fn entries(&self) -> (out: &Vec<Selected>)
        ensures
            selected_models(out@) == self@,
            no_doubles(self@),
    {
        proof {
            use_type_invariant(self);
        }
        &self.list
    }

    /// The rows for which a package was installed, or was not.
    fn picked(&self, installed: bool) -> (out: Vec<String>)
        ensures
            texts(out@) == selected_names(self@.filter(were_installed(installed))),
    {
        let ghost all = self@;
        let ghost keep = were_installed(installed);
        let mut out: Vec<String> = Vec::new();
        proof {
            assert(texts(out@) =~= selected_names(all.take(0).filter(keep))) by {
                reveal(Seq::filter);
            }
        }
        for i in 0..self.list.len()
            invariant
                all == selected_models(self.list@),
                keep == were_installed(installed),
                texts(out@) == selected_names(all.take(i as int).filter(keep)),
        {
            let ghost had = all.take(i as int);
            proof {
                assert(all.take(i + 1) =~= had.push(all[i as int]));
                had.lemma_filter_push(all[i as int], keep);
            }
            if self.list[i].installed == installed {
                push_text(&mut out, own(self.list[i].name.as_str()));
                proof {
                    assert(selected_names(had.filter(keep).push(all[i as int])) =~= selected_names(
                        had.filter(keep),
                    ).push(all[i as int].name));
                }
            }
        }
        proof {
            assert(all.take(all.len() as int) =~= all);
        }
        out
    }

    /// The numbers of selected packages.
    pub fn counts(&self) -> (c: SelectionCounts)
        ensures
            c == counts_of(self@),
    {
        let names = self.picked(true);
        proof {
            assert(texts(names@).len() == self@.filter(were_installed(true)).len());
        }
        let total: i32 = to_count(self.list.len() as u128);
        let installed: i32 = to_count(names.len() as u128);
        SelectionCounts { total, installed, uninstalled: total.wrapping_sub(installed) }
    }

    /// Selects a package, or takes it out.
    pub fn toggle(&mut self, name: &str, backend: i32, installed: bool, selected: bool)
        ensures
            final(self)@ == toggled(old(self)@, name@, backend, installed, selected),
    {
        proof {
            use_type_invariant(&*self);
        }
        let ghost all = self@;
        let ghost keep = other_packages(name@, backend);
        let mut rest: Vec<Selected> = Vec::new();
        let mut found = false;
        proof {
            assert(selected_models(rest@) =~= all.take(0).filter(keep)) by {
                reveal(Seq::filter);
            }
        }
        for i in 0..self.list.len()
            invariant
                all == selected_models(self.list@),
                keep == other_packages(name@, backend),
                selected_models(rest@) == all.take(i as int).filter(keep),
                found == is_selected(all.take(i as int), name@, backend),
        {
            let s = &self.list[i];
            let ghost had = all.take(i as int);
            proof {
                assert(all.take(i + 1) =~= had.push(s@));
                had.lemma_filter_push(s@, keep);
            }
            let ghost before = rest@;
            if s.backend == backend && same_text(s.name.as_str(), name) {
                found = true;
                proof {
                    assert(all.take(i + 1)[i as int].name == name@);
                }
            } else {
                rest.push(s.copied());
                proof {
                    assert(selected_models(rest@) =~= selected_models(before).push(s@));
                    if found {
                        let k = choose|k: int|
                            0 <= k < had.len() && (#[trigger] had[k]).name == name@
                                && had[k].backend == backend;
                        assert(all.take(i + 1)[k].name == name@);
                    }
                    if is_selected(all.take(i + 1), name@, backend) {
                        let k = choose|k: int|
                            0 <= k < i + 1 && (#[trigger] all.take(i + 1)[k]).name == name@
                                && all.take(i + 1)[k].backend == backend;
                        assert(had[k].name == name@);
                    }
                }
            }
        }
        proof {
            assert(all.take(all.len() as int) =~= all);
            selecting_makes_no_doubles(all, name@, backend, installed, selected);
        }
        if !selected {
            self.list = rest;
        } else if !found {
            let mut list: Vec<Selected> = Vec::new();
            for i in 0..self.list.len()
                invariant
                    list@.len() == i,
                    forall|j: int| 0 <= j < i ==> (#[trigger] list@[j])@ == self.list@[j]@,
            {
                list.push(self.list[i].copied());
            }
            list.push(Selected { name: own(name), backend, installed });
            proof {
                assert(selected_models(list@) =~= all.push(
                    SelectedModel { name: name@, backend, installed },
                ));
            }
            self.list = list;
        }
    }

    /// Takes all packages out.
    pub fn clear(&mut self) -> (out: Vec<Selected>)
        ensures
            selected_models(out@) == old(self)@,
            final(self)@ == Seq::<SelectedModel>::empty(),
    {
        let mut out: Vec<Selected> = Vec::new();
        for i in 0..self.list.len()
            invariant
                self@ == old(self)@,
                out@.len() == i,
                forall|j: int| 0 <= j < i ==> (#[trigger] out@[j])@ == self.list@[j]@,
        {
            out.push(self.list[i].copied());
        }
        proof {
            assert(selected_models(out@) =~= self@);
        }
        self.list = Vec::new();
        proof {
            assert(self@ =~= Seq::<SelectedModel>::empty());
        }
        out
    }

    /// Removes all selected packages that were installed, or installs all that were not, by the
    /// backend of the first of them. Where there is none, nothing is done.
    pub fn bulk(&self, removing: bool) -> (r: Option<BulkOperation>)
        ensures
            ({
                let picked = self@.filter(were_installed(removing));
                match r {
                    Some(op) => {
                        &&& picked.len() > 0
                        &&& texts(op.names@) == selected_names(picked)
                        &&& op.backend == picked[0].backend
                        &&& op.title@ == bulk_title(removing, picked.len())
                    },
                    None => picked.len() == 0,
                }
            }),
    {
        let names = self.picked(removing);
        let ghost all = self@;
        let ghost keep = were_installed(removing);
        proof {
            assert(texts(names@).len() == all.filter(keep).len());
        }
        if names.len() == 0 {
            return None;
        }
        let mut i: usize = 0;
        proof {
            assert(all.take(0).filter(keep).len() == 0) by {
                reveal(Seq::filter);
            }
        }
        while i < self.list.len() && self.list[i].installed != removing
            invariant
                all == selected_models(self.list@),
                keep == were_installed(removing),
                i <= self.list@.len(),
                all.take(i as int).filter(keep).len() == 0,
            decreases self.list@.len() - i,
        {
            proof {
                assert(all.take(i + 1) =~= all.take(i as int).push(all[i as int]));
                all.take(i as int).lemma_filter_push(all[i as int], keep);
            }
            i = i + 1;
        }
        proof {
            assert(all =~= all.take(i as int) + all.skip(i as int));
            Seq::filter_distributes_over_add(all.take(i as int), all.skip(i as int), keep);
            if i == all.len() {
                assert(all.take(i as int) =~= all);
            } else {
                let one = seq![all[i as int]];
                assert(all.skip(i as int) =~= one + all.skip(i + 1));
                Seq::filter_distributes_over_add(one, all.skip(i + 1), keep);
                assert(one.filter(keep) =~= one) by {
                    reveal_with_fuel(Seq::filter, 2);
                    assert(one.drop_last() =~= seq![]);
                }
                assert(all.filter(keep)[0] == all[i as int]);
            }
        }
        let count = decimal_text(names.len() as u64);
        let mut title = if removing {
            own("Removing ")
        } else {
            own("Installing ")
        };
        title.append(count.as_str());
        title.append(" packages");
        Some(BulkOperation { title, names, backend: self.list[i].backend })
    }
}

// ---------------------------------------------------------------------------
// Applications of a remote

/// A row with its selection changed where it has a name.
pub open spec fn row_marked(d: DataModel, name: Seq<char>, checked: bool) -> DataModel {
    if d.name == name {
        DataModel { selected: checked, ..d }
    } else {
        d
    }
}

/// The list with all rows of a name selected or not.
pub open spec fn rows_marked(list: Seq<DataModel>, name: Seq<char>, checked: bool) -> Seq<DataModel> {
    list.map_values(|d: DataModel| row_marked(d, name, checked))
}

/// The numbers of selected rows.
pub open spec fn row_counts(list: Seq<DataModel>) -> SelectionCounts {
    SelectionCounts {
        total: shown_count(list.filter(selected()).len()),
        installed: shown_count(list.filter(chosen(true)).len()),
        uninstalled: shown_count(list.filter(chosen(false)).len()),
    }
}

/// Selected rows.
pub open spec fn selected() -> spec_fn(DataModel) -> bool {
    |d: DataModel| d.selected
}

/// Every selected row is installed or not.
pub proof fn selected_rows_add_up(list: Seq<DataModel>)
    ensures
        list.filter(selected()).len() == list.filter(chosen(true)).len() + list.filter(
            chosen(false),
        ).len(),
    decreases list.len(),
{
    reveal(Seq::filter);
    if list.len() > 0 {
        selected_rows_add_up(list.drop_last());
    }
}

/// Selects all rows of an application, or takes their selection back, and counts.
pub fn toggle_flatpak_selected(list: &mut Vec<PackageData>, name: &str, checked: bool) -> (c:
    SelectionCounts)
    ensures
        data_models(final(list)@) == rows_marked(data_models(old(list)@), name@, checked),
        c == row_counts(data_models(final(list)@)),
{
    let ghost all = data_models(list@);
    let n: usize = list.len();
    for i in 0..n
        invariant
            n == list@.len(),
            n == all.len(),
            all == data_models(old(list)@),
            forall|j: int|
                0 <= j < i ==> (#[trigger] list@[j])@ == row_marked(all[j], name@, checked),
            forall|j: int| i <= j < n ==> (#[trigger] list@[j])@ == all[j],
    {
        if same_text(list[i].name.as_str(), name) {
            let mut row = list[i].copied();
            row.selected = checked;
            list.set(i, row);
        }
    }
    proof {
        assert(data_models(list@) =~= rows_marked(all, name@, checked));
    }
    let installed = selected_rows(list.as_slice(), true);
    let others = selected_rows(list.as_slice(), false);
    proof {
        selected_rows_add_up(data_models(list@));
        assert(data_models(installed@).len() == installed@.len());
        assert(data_models(others@).len() == others@.len());
    }
    SelectionCounts {
        total: to_count(installed.len() as u128 + others.len() as u128),
        installed: to_count(installed.len() as u128),
        uninstalled: to_count(others.len() as u128),
    }
}

/// A command that runs in the terminal: its title, the program and the arguments.
#[derive(Debug, Clone)]
pub struct TerminalCommand {
    pub title: String,
    pub program: String,
    pub args: Vec<String>,
}

/// The names of rows.
pub open spec fn row_names(list: Seq<DataModel>) -> Seq<Seq<char>> {
    list.map_values(|d: DataModel| d.name)
}

/// The title of what is done to several Flatpaks at once.
pub open spec fn batch_title(removing: bool, n: nat) -> Seq<char> {
    if removing {
        "Removing "@ + decimal(n) + " Flatpak(s)..."@
    } else {
        "Installing "@ + decimal(n) + " Flatpak(s)..."@
    }
}

/// The first arguments of what is done to several Flatpaks at once.
pub open spec fn batch_args(removing: bool) -> Seq<Seq<char>> {
    if removing {
        seq!["uninstall"@, "-y"@]
    } else {
        seq!["install"@, "-y"@, "flathub"@]
    }
}

/// Adds the names of rows to arguments.
fn add_names(args: &mut Vec<String>, rows: &[PackageData])
    ensures
        texts(final(args)@) == texts(old(args)@) + row_names(data_models(rows@)),
{
    let ghost before = texts(args@);
    let ghost names = row_names(data_models(rows@));
    proof {
        assert(before + names.take(0) =~= before);
    }
    for i in 0..rows.len()
        invariant
            names == row_names(data_models(rows@)),
            texts(args@) == before + names.take(i as int),
    {
        push_text(args, own(rows[i].name.as_str()));
        proof {
            assert((before + names.take(i as int)).push(names[i as int]) =~= before + names.take(
                i + 1,
            ));
        }
    }
    proof {
        assert(names.take(names.len() as int) =~= names);
    }
}

/// Installs the selected applications that are not installed, or removes those that are. Where there
/// is none, nothing is done.
pub fn batch_flatpaks(list: &[PackageData], removing: bool) -> (r: Option<TerminalCommand>)
    ensures
        ({
            let picked = data_models(list@).filter(chosen(removing));
            match r {
                Some(c) => {
                    &&& picked.len() > 0
                    &&& c.title@ == batch_title(removing, picked.len())
                    &&& c.program@ == "flatpak"@
                    &&& texts(c.args@) == batch_args(removing) + row_names(picked)
                },
                None => picked.len() == 0,
            }
        }),
{
    let rows = selected_rows(list, removing);
    proof {
        assert(data_models(rows@).len() == rows@.len());
    }
    if rows.len() == 0 {
        return None;
    }
    let mut args: Vec<String> = Vec::new();
    let mut title = if removing {
        push_text(&mut args, own("uninstall"));
        push_text(&mut args, own("-y"));
        own("Removing ")
    } else {
        push_text(&mut args, own("install"));
        push_text(&mut args, own("-y"));
        push_text(&mut args, own("flathub"));
        own("Installing ")
    };
    proof {
        assert(texts(args@) =~= batch_args(removing));
    }
    add_names(&mut args, rows.as_slice());
    let count = decimal_text(rows.len() as u64);
    title.append(count.as_str());
    title.append(" Flatpak(s)...");
    Some(TerminalCommand { title, program: own("flatpak"), args })
}

// ---------------------------------------------------------------------------
// Check boxes

/// The number of ticks.
pub open spec fn ticks(list: Seq<bool>) -> nat {
    list.filter(ticked()).len()
}

/// A tick.
pub open spec fn ticked() -> spec_fn(bool) -> bool {
    |b: bool| b
}

fn count_ticks(list: &[bool]) -> (n: usize)
    ensures
        n == ticks(list@),
{
    let mut n: usize = 0;
    proof {
        assert(list@.take(0).filter(ticked()).len() == 0) by {
            reveal(Seq::filter);
        }
    }
    for i in 0..list.len()
        invariant
            n == ticks(list@.take(i as int)),
            n <= i,
    {
        proof {
            assert(list@.take(i + 1) =~= list@.take(i as int).push(list@[i as int]));
            list@.take(i as int).lemma_filter_push(list@[i as int], ticked());
        }
        if list[i] {
            n = n + 1;
        }
    }
    proof {
        assert(list@.take(list@.len() as int) =~= list@);
    }
    n
}

/// Ticks or clears a check box, and counts the ticks; a box that is not there changes nothing.
pub fn orphan_toggle(checked: &mut Vec<bool>, idx: i32) -> (r: Option<i32>)
    ensures
        match r {
            Some(count) => {
                &&& 0 <= idx < old(checked)@.len()
                &&& final(checked)@ == old(checked)@.update(idx as int, !old(checked)@[idx as int])
                &&& count == shown_count(ticks(final(checked)@))
            },
            None => {
                &&& !(0 <= idx < old(checked)@.len())
                &&& final(checked)@ == old(checked)@
            },
        },
{
    if idx < 0 || idx as usize >= checked.len() {
        return None;
    }
    let i: usize = idx as usize;
    let now = !checked[i];
    checked.set(i, now);
    let n: usize = count_ticks(checked.as_slice());
    Some(to_count(n as u128))
}

/// Check boxes that are all ticked or all clear, and the number of ticks.
pub fn tick_all(len: usize, select: bool) -> (r: (Vec<bool>, i32))
    ensures
        r.0@ == Seq::new(len as nat, |i: int| select),
        r.1 == (if select {
            shown_count(len as nat)
        } else {
            0
        }),
        r.1 == shown_count(ticks(r.0@)),
{
    let mut list: Vec<bool> = Vec::new();
    for i in 0..len
        invariant
            list@ =~= Seq::new(i as nat, |j: int| select),
    {
        list.push(select);
    }
    proof {
        all_ticks(len as nat, select);
    }
    let count: i32 = if select {
        to_count(len as u128)
    } else {
        0
    };
    (list, count)
}

proof fn all_ticks(n: nat, select: bool)
    ensures
        ticks(Seq::new(n, |i: int| select)) == (if select {
            n
        } else {
            0
        }),
    decreases n,
{
    reveal(Seq::filter);
    let list = Seq::new(n, |i: int| select);
    if n > 0 {
        all_ticks((n - 1) as nat, select);
        assert(list.drop_last() =~= Seq::new((n - 1) as nat, |i: int| select));
    }
}

/// Ticks or clears the box of an add-on. The count of ticks goes up or down by one and never below
/// none; a box that is not there changes nothing.
pub fn toggle_addon_selected(boxes: &mut Vec<bool>, count: i32, idx: i32) -> (r: i32)
    ensures
        0 <= idx < old(boxes)@.len() ==> {
            &&& final(boxes)@ == old(boxes)@.update(idx as int, !old(boxes)@[idx as int])
            &&& ({
                let next = if old(boxes)@[idx as int] {
                    count.wrapping_sub(1)
                } else {
                    count.wrapping_add(1)
                };
                r == (if next < 0 {
                    0
                } else {
                    next
                })
            })
        },
        !(0 <= idx < old(boxes)@.len()) ==> final(boxes)@ == old(boxes)@ && r == count,
{
    if idx < 0 || idx as usize >= boxes.len() {
        return count;
    }
    let i: usize = idx as usize;
    let was = boxes[i];
    boxes.set(i, !was);
    let next: i32 = if was {
        count.wrapping_sub(1)
    } else {
        count.wrapping_add(1)
    };
    if next < 0 {
        0
    } else {
        next
    }
}

/// One more tick is one more to count, and one less is one less.
pub proof fn toggling_counts(list: Seq<bool>, i: int)
    requires
        0 <= i < list.len(),
    ensures
        list[i] ==> ticks(list.update(i, false)) == ticks(list) - 1,
        !list[i] ==> ticks(list.update(i, true)) == ticks(list) + 1,
{
    let now = list.update(i, !list[i]);
    let a = list.take(i);
    let b = list.skip(i + 1);
    assert(list =~= a + seq![list[i]] + b);
    assert(now =~= a + seq![!list[i]] + b);
    Seq::filter_distributes_over_add(a + seq![list[i]], b, ticked());
    Seq::filter_distributes_over_add(a, seq![list[i]], ticked());
    Seq::filter_distributes_over_add(a + seq![!list[i]], b, ticked());
    Seq::filter_distributes_over_add(a, seq![!list[i]], ticked());
    one_box(true);
    one_box(false);
}

proof fn one_box(b: bool)
    ensures
        ticks(seq![b]) == (if b {
            1nat
        } else {
            0nat
        }),
{
    reveal_with_fuel(Seq::filter, 2);
    assert(seq![b].drop_last() =~= seq![]);
}

/// The names of the rows whose box is ticked; a row without a box does not count.
pub open spec fn ticked_names(rows: Seq<DataModel>, boxes: Seq<bool>) -> Seq<Seq<char>>
    decreases rows.len(),
{
    if rows.len() == 0 {
        seq![]
    } else {
        let had = ticked_names(rows.drop_last(), boxes);
        if rows.len() <= boxes.len() && boxes[rows.len() - 1] {
            had.push(rows.last().name)
        } else {
            had
        }
    }
}

fn ticked_rows(rows: &[PackageData], boxes: &[bool]) -> (out: Vec<String>)
    ensures
        texts(out@) == ticked_names(data_models(rows@), boxes@),
{
    let ghost all = data_models(rows@);
    let mut out: Vec<String> = Vec::new();
    proof {
        assert(texts(out@) =~= ticked_names(all.take(0), boxes@));
    }
    for i in 0..rows.len()
        invariant
            all == data_models(rows@),
            texts(out@) == ticked_names(all.take(i as int), boxes@),
    {
        proof {
            assert(all.take(i + 1).drop_last() =~= all.take(i as int));
        }
        if i < boxes.len() && boxes[i] {
            push_text(&mut out, own(rows[i].name.as_str()));
        }
    }
    proof {
        assert(all.take(all.len() as int) =~= all);
    }
    out
}

/// Removes the orphans that are ticked. Where there is none, nothing is done.
pub fn remove_selected_orphans(rows: &[PackageData], boxes: &[bool]) -> (r: Option<TerminalCommand>)
    ensures
        ({
            let names = ticked_names(data_models(rows@), boxes@);
            match r {
                Some(c) => {
                    &&& names.len() > 0
                    &&& c.title@ == "Removing Orphan Packages"@
                    &&& c.program@ == "pkexec"@
                    &&& texts(c.args@) == seq![
                        "bash"@,
                        "-c"@,
                        "pacman -Rns "@ + joined(names, " "@),
                    ]
                },
                None => names.len() == 0,
            }
        }),
{
    let names = ticked_rows(rows, boxes);
    proof {
        assert(texts(names@).len() == names@.len());
    }
    if names.len() == 0 {
        return None;
    }
    let list = join_texts(names.as_slice(), " ");
    let mut script = own("pacman -Rns ");
    script.append(list.as_str());
    let mut args: Vec<String> = Vec::new();
    push_text(&mut args, own("bash"));
    push_text(&mut args, own("-c"));
    let ghost words = script@;
    push_text(&mut args, script);
    proof {
        assert(texts(args@) =~= seq!["bash"@, "-c"@, words]);
    }
    Some(TerminalCommand { title: own("Removing Orphan Packages"), program: own("pkexec"), args })
}

/// Installs the add-ons that are ticked. Where there is none, nothing is done.
pub fn install_selected_addons(rows: &[PackageData], boxes: &[bool]) -> (r: Option<TerminalCommand>)
    ensures
        ({
            let names = ticked_names(data_models(rows@), boxes@);
            match r {
                Some(c) => {
                    &&& names.len() > 0
                    &&& c.title@ == "Installing "@ + decimal(names.len()) + " add-on(s)"@
                    &&& c.program@ == "flatpak"@
                    &&& texts(c.args@) == seq!["install"@, "--noninteractive"@, "--assumeyes"@]
                        + names
                },
                None => names.len() == 0,
            }
        }),
{
    let names = ticked_rows(rows, boxes);
    proof {
        assert(texts(names@).len() == names@.len());
    }
    if names.len() == 0 {
        return None;
    }
    let count = decimal_text(names.len() as u64);
    let mut title = own("Installing ");
    title.append(count.as_str());
    title.append(" add-on(s)");
    let mut args: Vec<String> = Vec::new();
    push_text(&mut args, own("install"));
    push_text(&mut args, own("--noninteractive"));
    push_text(&mut args, own("--assumeyes"));
    let ghost first = args@;
    let ghost last = names@;
    let mut names = names;
    args.append(&mut names);
    proof {
        assert(texts(first) =~= seq!["install"@, "--noninteractive"@, "--assumeyes"@]);
        assert(texts(args@) =~= texts(first) + texts(last));
    }
    Some(TerminalCommand { title, program: own("flatpak"), args })
}

// ---------------------------------------------------------------------------
// Laws

/// A row counts exactly where its box is ticked, and the names keep the order of the rows.
pub proof fn ticked_rows_count(rows: Seq<DataModel>, boxes: Seq<bool>, row: DataModel, tick: bool)
    requires
        rows.len() == boxes.len(),
    ensures
        ticked_names(rows.push(row), boxes.push(tick)) == (if tick {
            ticked_names(rows, boxes).push(row.name)
        } else {
            ticked_names(rows, boxes)
        }),
        ticked_names(rows.push(row), boxes) == ticked_names(rows, boxes),
        ticked_names(Seq::<DataModel>::empty(), boxes) == Seq::<Seq<char>>::empty(),
{
    assert(rows.push(row).drop_last() =~= rows);
    more_boxes(rows, boxes, tick);
}

proof fn more_boxes(rows: Seq<DataModel>, boxes: Seq<bool>, tick: bool)
    requires
        rows.len() <= boxes.len(),
    ensures
        ticked_names(rows, boxes.push(tick)) == ticked_names(rows, boxes),
    decreases rows.len(),
{
    if rows.len() > 0 {
        more_boxes(rows.drop_last(), boxes, tick);
    }
}

/// The selected packages are those that were installed and those that were not.
pub proof fn selected_packages_add_up(list: Seq<SelectedModel>)
    ensures
        list.filter(were_installed(true)).len() + list.filter(were_installed(false)).len()
            == list.len(),
        list.len() <= i32::MAX ==> counts_of(list).total == list.len() && counts_of(list).installed
            + counts_of(list).uninstalled == counts_of(list).total && counts_of(list).installed
            == list.filter(were_installed(true)).len(),
    decreases list.len(),
{
    reveal(Seq::filter);
    if list.len() > 0 {
        selected_packages_add_up(list.drop_last());
    }
}

/// Removing several Flatpaks uninstalls them, and installing several installs them from Flathub.
pub proof fn batches_do_as_asked(names: Seq<Seq<char>>)
    ensures
        batch_args(true) + names == seq!["uninstall"@, "-y"@] + names,
        batch_args(false) + names == seq!["install"@, "-y"@, "flathub"@] + names,
        !batch_args(true).contains("install"@),
        !batch_args(false).contains("uninstall"@),
{
    reveal_strlit("install");
    reveal_strlit("uninstall");
    reveal_strlit("-y");
    reveal_strlit("flathub");
    assert("install"@.len() == 7 && "uninstall"@.len() == 9 && "-y"@.len() == 2 && "flathub"@.len()
        == 7);
    assert("flathub"@[0] == 'f' && "install"@[0] == 'i');
}

/// Marking the rows of a name changes their selection and nothing else, and no other row.
pub proof fn marking_changes_selection(
    list: Seq<DataModel>,
    name: Seq<char>,
    checked: bool,
    i: int,
)
    requires
        0 <= i < list.len(),
    ensures
        rows_marked(list, name, checked).len() == list.len(),
        list[i].name == name ==> rows_marked(list, name, checked)[i] == (DataModel {
            selected: checked,
            ..list[i]
        }),
        list[i].name != name ==> rows_marked(list, name, checked)[i] == list[i],
{
}

} // verus!
