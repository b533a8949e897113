//! Lists narrowed to what is looked for.
use vstd::prelude::*;

use crate::listing::{copy_data, data_models, push_data, DataModel, PackageData};
use crate::number::shown_count;
use crate::pages::{first_page, page_count, rows_from, PAGE_SIZE, Page};
use crate::text::{begins, has_chars, holds, is_ascii_text, list_has, lowered, texts, to_chars,
    to_lower};

verus! {

/// Packages whose name, or name for people, contains a text in lower case, whatever their own case.
pub open spec fn named(lower: Seq<char>) -> spec_fn(DataModel) -> bool {
    |d: DataModel| holds(lowered(d.name), lower) || holds(lowered(d.display_name), lower)
}

/// Packages that contain a text in lower case in a name or in their description.
pub open spec fn described(lower: Seq<char>) -> spec_fn(DataModel) -> bool {
    |d: DataModel| named(lower)(d) || holds(lowered(d.description), lower)
}

/// Packages that were installed on purpose, or those that were not.
pub open spec fn explicitly(wanted: bool) -> spec_fn(DataModel) -> bool {
    |d: DataModel| d.explicit == wanted
}

/// Packages that are installed, or those that are not.
pub open spec fn installed_or_not(wanted: bool) -> spec_fn(DataModel) -> bool {
    |d: DataModel| d.installed == wanted
}

/// Selected packages that are installed, or those that are not.
pub open spec fn chosen(wanted: bool) -> spec_fn(DataModel) -> bool {
    |d: DataModel| d.selected && d.installed == wanted
}

/// Packages whose name is not in a list.
pub open spec fn not_among(names: Seq<Seq<char>>) -> spec_fn(DataModel) -> bool {
    |d: DataModel| !names.contains(d.name)
}

/// What is looked for.
enum Wanted<'a> {
    Named(Vec<char>),
    Described(Vec<char>),
    Explicit(bool),
    Installed(bool),
    Chosen(bool),
    NotAmong(&'a [String]),
}

impl<'a> Wanted<'a> {
    spec fn keep(self) -> spec_fn(DataModel) -> bool {
        match self {
            Wanted::Named(lower) => named(lower@),
            Wanted::Described(lower) => described(lower@),
            Wanted::Explicit(b) => explicitly(b),
            Wanted::Installed(b) => installed_or_not(b),
            Wanted::Chosen(b) => chosen(b),
            Wanted::NotAmong(names) => not_among(texts(names@)),
        }
    }

    fn keeps(&self, p: &PackageData) -> (r: bool)
        ensures
            r == (self.keep())(p@),
    {
        match self {
            Wanted::Named(lower) => is_named(p, lower.as_slice()),
            Wanted::Described(lower) => is_named(p, lower.as_slice()) || text_has(
                p.description.as_str(),
                lower.as_slice(),
            ),
            Wanted::Explicit(b) => p.explicit == *b,
            Wanted::Installed(b) => p.installed == *b,
            Wanted::Chosen(b) => p.selected && p.installed == *b,
            Wanted::NotAmong(names) => !list_has(names, p.name.as_str()),
        }
    }
}

fn text_has(text: &str, lower: &[char]) -> (r: bool)
    ensures
        r == holds(lowered(text@), lower@),
{
    let low = to_lower(text);
    let chars = to_chars(low.as_str());
    has_chars(chars.as_slice(), lower)
}

fn is_named(p: &PackageData, lower: &[char]) -> (r: bool)
    ensures
        r == named(lower@)(p@),
{
    text_has(p.name.as_str(), lower) || text_has(p.display_name.as_str(), lower)
}

fn lower_chars(query: &str) -> (out: Vec<char>)
    ensures
        out@ == lowered(query@),
{
    let lower = to_lower(query);
    to_chars(lower.as_str())
}

/// Adds the rows from `start` to `end` that are wanted.
fn add_wanted(
    list: &[PackageData],
    start: usize,
    end: usize,
    w: &Wanted,
    out: &mut Vec<PackageData>,
)
    requires
        start <= end <= list@.len(),
    ensures
        data_models(final(out)@) == data_models(old(out)@) + data_models(list@).subrange(
            start as int,
            end as int,
        ).filter(w.keep()),
{
    let ghost before = data_models(out@);
    let ghost all = data_models(list@);
    proof {
        assert(all.subrange(start as int, start as int) =~= seq![]);
        assert(before + all.subrange(start as int, start as int).filter(w.keep()) =~= before) by {
            reveal(Seq::filter);
        }
    }
    for i in start..end
        invariant
            all == data_models(list@),
            start <= end <= list@.len(),
            data_models(out@) == before + all.subrange(start as int, i as int).filter(w.keep()),
    {
        let ghost had = all.subrange(start as int, i as int);
        proof {
            assert(all.subrange(start as int, i + 1) =~= had.push(all[i as int]));
            had.lemma_filter_push(all[i as int], w.keep());
        }
        if w.keeps(&list[i]) {
            push_data(out, list[i].copied());
            proof {
                assert((before + had.filter(w.keep())).push(all[i as int]) =~= before + had.filter(
                    w.keep(),
                ).push(all[i as int]));
            }
        }
    }
}

fn wanted_rows(list: &[PackageData], w: &Wanted) -> (out: Vec<PackageData>)
    ensures
        data_models(out@) == data_models(list@).filter(w.keep()),
{
    let mut out: Vec<PackageData> = Vec::new();
    add_wanted(list, 0, list.len(), w, &mut out);
    proof {
        let all = data_models(list@);
        assert(all.subrange(0, all.len() as int) =~= all);
        assert(data_models(out@) =~= all.filter(w.keep()));
    }
    out
}

// ---------------------------------------------------------------------------
// Plain lists

/// The packages that are installed, and those that are not.
pub fn split_installed(list: &[PackageData]) -> (r: (Vec<PackageData>, Vec<PackageData>))
    ensures
        data_models(r.0@) == data_models(list@).filter(installed_or_not(true)),
        data_models(r.1@) == data_models(list@).filter(installed_or_not(false)),
{
    (wanted_rows(list, &Wanted::Installed(true)), wanted_rows(list, &Wanted::Installed(false)))
}

/// The page of installed packages for what is typed: the first page of all of them for nothing, and
/// else all those with the text in a name on one page.
pub fn filter_installed(list: &[PackageData], query: &str) -> (p: Page)
    ensures
        lowered(query@).len() == 0 ==> {
            &&& data_models(p.rows@) == rows_from(data_models(list@), 0, PAGE_SIZE as int)
            &&& p.total_pages == shown_count(
                page_count(list@.len() as int, PAGE_SIZE as int) as nat,
            )
        },
        lowered(query@).len() > 0 ==> {
            &&& data_models(p.rows@) == data_models(list@).filter(named(lowered(query@)))
            &&& p.total_pages == 1
        },
{
    let lower = lower_chars(query);
    if lower.len() == 0 {
        return first_page(list);
    }
    Page { rows: wanted_rows(list, &Wanted::Named(lower)), total_pages: 1 }
}

/// The rows of a list for what is typed: all of them for nothing, and else those that a test keeps.
pub open spec fn narrowed_by(
    list: Seq<DataModel>,
    lower: Seq<char>,
    keep: spec_fn(DataModel) -> bool,
) -> Seq<DataModel> {
    if lower.len() == 0 {
        list
    } else {
        list.filter(keep)
    }
}

/// The installed Flatpaks for what is typed: those with the text in a name.
pub fn filter_installed_flatpaks(list: &[PackageData], query: &str) -> (out: Vec<PackageData>)
    ensures
        data_models(out@) == narrowed_by(
            data_models(list@),
            lowered(query@),
            named(lowered(query@)),
        ),
{
    let lower = lower_chars(query);
    if lower.len() == 0 {
        return copy_data(list);
    }
    wanted_rows(list, &Wanted::Named(lower))
}

/// The packages of a repository for what is typed: those with the text in a name or in the
/// description.
pub fn filter_repo(list: &[PackageData], query: &str) -> (out: Vec<PackageData>)
    ensures
        data_models(out@) == narrowed_by(
            data_models(list@),
            lowered(query@),
            described(lowered(query@)),
        ),
{
    let lower = lower_chars(query);
    if lower.len() == 0 {
        return copy_data(list);
    }
    wanted_rows(list, &Wanted::Described(lower))
}

/// The packages of a list that are not among those just removed.
pub fn without_removed(list: &[PackageData], names: &[String]) -> (out: Vec<PackageData>)
    ensures
        data_models(out@) == data_models(list@).filter(not_among(texts(names@))),
{
    wanted_rows(list, &Wanted::NotAmong(names))
}

/// The selected packages of a list that are installed, or those that are not.
pub fn selected_rows(list: &[PackageData], installed: bool) -> (out: Vec<PackageData>)
    ensures
        data_models(out@) == data_models(list@).filter(chosen(installed)),
{
    wanted_rows(list, &Wanted::Chosen(installed))
}

// ---------------------------------------------------------------------------
// Lists with headers

/// Whether a row is the header of a group.
pub open spec fn is_header(d: DataModel) -> bool {
    d.backend == -1
}

/// The number of rows before the first header.
pub open spec fn group_len(list: Seq<DataModel>) -> nat
    decreases list.len(),
{
    if list.len() == 0 || is_header(list[0]) {
        0
    } else {
        1 + group_len(list.skip(1))
    }
}

/// What is shown of a group: its header before the kept rows, and where groups are closed the header
/// once more behind them. Without kept rows the header is left out.
pub open spec fn shown_group(
    header: DataModel,
    found: Seq<DataModel>,
    closing: bool,
) -> Seq<DataModel> {
    if found.len() == 0 {
        seq![]
    } else if closing {
        seq![header] + found + seq![header]
    } else {
        seq![header] + found
    }
}

/// What is kept of groups, one after the other.
pub open spec fn kept_groups(
    list: Seq<DataModel>,
    keep: spec_fn(DataModel) -> bool,
    closing: bool,
) -> Seq<DataModel>
    decreases list.len(),
{
    if list.len() == 0 {
        seq![]
    } else {
        let n = group_len(list.skip(1)) as int;
        let found = list.skip(1).take(n).filter(keep);
        let rest = list.skip(1).skip(n);
        let shown = shown_group(list[0], found, closing);
        if n <= list.len() - 1 {
            shown + kept_groups(rest, keep, closing)
        } else {
            shown
        }
    }
}

/// What is kept of a list with headers; rows before the first header have none.
pub open spec fn kept_of_groups(
    list: Seq<DataModel>,
    keep: spec_fn(DataModel) -> bool,
    closing: bool,
) -> Seq<DataModel> {
    let n = group_len(list) as int;
    list.take(n).filter(keep) + kept_groups(list.skip(n), keep, closing)
}

proof fn group_len_bound(list: Seq<DataModel>)
    ensures
        group_len(list) <= list.len(),
        group_len(list) < list.len() ==> is_header(list[group_len(list) as int]),
        forall|i: int| 0 <= i < group_len(list) ==> !is_header(#[trigger] list[i]),
    decreases list.len(),
{
    if list.len() > 0 && !is_header(list[0]) {
        let rest = list.skip(1);
        group_len_bound(rest);
        assert forall|i: int| 0 <= i < group_len(list) implies !is_header(#[trigger] list[i]) by {
            if i > 0 {
                assert(list[i] == rest[i - 1]);
            }
        }
    }
}

fn group_end(list: &[PackageData], from: usize) -> (k: usize)
    requires
        from <= list@.len(),
    ensures
        from <= k <= list@.len(),
        k == from + group_len(data_models(list@).skip(from as int)),
{
    let ghost all = data_models(list@);
    let mut k: usize = from;
    while k < list.len() && list[k].backend != -1
        invariant
            all == data_models(list@),
            from <= k <= list@.len(),
            group_len(all.skip(from as int)) == (k - from) + group_len(all.skip(k as int)),
        decreases list@.len() - k,
    {
        proof {
            assert(all.skip(k as int)[0] == list@[k as int]@);
            assert(all.skip(k as int).skip(1) =~= all.skip(k + 1));
        }
        k = k + 1;
    }
    proof {
        if k < list@.len() {
            assert(all.skip(k as int)[0] == list@[k as int]@);
        } else {
            assert(all.skip(k as int).len() == 0);
        }
    }
    k
}

fn keep_groups(list: &[PackageData], w: &Wanted, closing: bool) -> (out: Vec<PackageData>)
    ensures
        data_models(out@) == kept_of_groups(data_models(list@), w.keep(), closing),
{
    let ghost all = data_models(list@);
    let ghost keep = w.keep();
    let mut out: Vec<PackageData> = Vec::new();
    let first = group_end(list, 0);
    add_wanted(list, 0, first, w, &mut out);
    let mut i: usize = first;
    let n: usize = list.len();
    proof {
        assert(all.skip(0) =~= all);
        assert(all.subrange(0, first as int) =~= all.take(first as int));
        assert(data_models(out@) =~= all.take(first as int).filter(keep));
    }
    while i < n
        invariant
            all == data_models(list@),
            keep == w.keep(),
            n == list@.len(),
            i <= n,
            data_models(out@) + kept_groups(all.skip(i as int), keep, closing) == kept_of_groups(
                all,
                keep,
                closing,
            ),
        decreases n - i,
    {
        let ghost before = data_models(out@);
        let ghost rows = all.skip(i as int);
        let end = group_end(list, i + 1);
        let mut found: Vec<PackageData> = Vec::new();
        add_wanted(list, i + 1, end, w, &mut found);
        let some = found.len() > 0;
        let ghost kept = data_models(found@);
        proof {
            assert(rows.skip(1) =~= all.skip(i + 1));
            assert(rows.skip(1).take(end - i - 1) =~= all.subrange(i + 1, end as int));
            assert(rows.skip(1).skip(end - i - 1) =~= all.skip(end as int));
            assert(kept =~= rows.skip(1).take(end - i - 1).filter(keep));
            assert(rows[0] == list@[i as int]@);
        }
        if some {
            push_data(&mut out, list[i].copied());
            let ghost had = out@;
            let ghost more = found@;
            out.append(&mut found);
            proof {
                assert(data_models(out@) =~= data_models(had) + data_models(more));
            }
            if closing {
                push_data(&mut out, list[i].copied());
            }
        }
        proof {
            let rest = kept_groups(all.skip(end as int), keep, closing);
            assert(data_models(out@) =~= before + shown_group(rows[0], kept, closing));
            assert(data_models(out@) + rest =~= before + kept_groups(rows, keep, closing));
        }
        i = end;
    }
    proof {
        assert(all.skip(i as int).len() == 0);
        assert(data_models(out@) + kept_groups(all.skip(i as int), keep, closing) =~= data_models(
            out@,
        ));
    }
    out
}

/// The installed packages by repository for what is typed: those with the text in a name, each group
/// under the header of its repository.
pub fn filter_installed_grouped(list: &[PackageData], query: &str) -> (out: Vec<PackageData>)
    ensures
        data_models(out@) == (if lowered(query@).len() == 0 {
            data_models(list@)
        } else {
            kept_of_groups(data_models(list@), named(lowered(query@)), false)
        }),
{
    let lower = lower_chars(query);
    if lower.len() == 0 {
        return copy_data(list);
    }
    keep_groups(list, &Wanted::Named(lower), false)
}

/// The installed packages by repository: all of them in mode 0, those installed on purpose in mode
/// 1, and the others in any other mode. Outside mode 0 the header of a repository stands both before
/// and behind its packages.
pub fn apply_explicit_filter(list: &[PackageData], mode: i32) -> (out: Vec<PackageData>)
    ensures
        data_models(out@) == (if mode == 0 {
            data_models(list@)
        } else {
            kept_of_groups(data_models(list@), explicitly(mode == 1), true)
        }),
{
    if mode == 0 {
        return copy_data(list);
    }
    keep_groups(list, &Wanted::Explicit(mode == 1), true)
}

// ---------------------------------------------------------------------------
// Laws

/// Packages of a list with headers.
pub open spec fn packages() -> spec_fn(DataModel) -> bool {
    |d: DataModel| !is_header(d)
}

/// Packages that a test keeps.
pub open spec fn packages_kept(keep: spec_fn(DataModel) -> bool) -> spec_fn(DataModel) -> bool {
    |d: DataModel| !is_header(d) && keep(d)
}

proof fn rows_without_headers(rows: Seq<DataModel>, keep: spec_fn(DataModel) -> bool)
    requires
        forall|i: int| 0 <= i < rows.len() ==> !is_header(#[trigger] rows[i]),
    ensures
        rows.filter(keep).filter(packages()) == rows.filter(packages_kept(keep)),
    decreases rows.len(),
{
    reveal(Seq::filter);
    if rows.len() > 0 {
        rows_without_headers(rows.drop_last(), keep);
        let had = rows.drop_last().filter(keep);
        if keep(rows.last()) {
            had.lemma_filter_push(rows.last(), packages());
        }
    }
}

proof fn header_alone(d: DataModel, keep: spec_fn(DataModel) -> bool)
    requires
        is_header(d),
    ensures
        seq![d].filter(packages()) == Seq::<DataModel>::empty(),
        seq![d].filter(packages_kept(keep)) == Seq::<DataModel>::empty(),
{
    reveal_with_fuel(Seq::filter, 2);
    assert(seq![d].drop_last() =~= seq![]);
}

proof fn groups_show_what_is_kept(
    list: Seq<DataModel>,
    keep: spec_fn(DataModel) -> bool,
    closing: bool,
)
    requires
        list.len() > 0 ==> is_header(list[0]),
    ensures
        kept_groups(list, keep, closing).filter(packages()) == list.filter(packages_kept(keep)),
    decreases list.len(),
{
    if list.len() == 0 {
        reveal(Seq::filter);
    } else {
        let tail = list.skip(1);
        group_len_bound(tail);
        let n = group_len(tail) as int;
        let rows = tail.take(n);
        let rest = tail.skip(n);
        let found = rows.filter(keep);
        let head = seq![list[0]];
        if rest.len() > 0 {
            assert(rest[0] == tail[n]);
        }
        groups_show_what_is_kept(rest, keep, closing);
        assert(list =~= (head + rows) + rest);
        Seq::filter_distributes_over_add(head + rows, rest, packages_kept(keep));
        Seq::filter_distributes_over_add(head, rows, packages_kept(keep));
        header_alone(list[0], keep);
        rows_without_headers(rows, keep);
        let shown = shown_group(list[0], found, closing);
        Seq::filter_distributes_over_add(shown, kept_groups(rest, keep, closing), packages());
        Seq::filter_distributes_over_add(head, found, packages());
        Seq::filter_distributes_over_add(head + found, head, packages());
        assert(found.filter(packages()) =~= rows.filter(packages_kept(keep)));
        if found.len() == 0 {
            reveal(Seq::filter);
            assert(found =~= seq![]);
        }
        assert(shown.filter(packages()) =~= rows.filter(packages_kept(keep)));
        assert(list.filter(packages_kept(keep)) =~= rows.filter(packages_kept(keep))
            + rest.filter(packages_kept(keep)));
    }
}

/// Narrowing a list with headers shows exactly the packages that are kept, in their order.
pub proof fn kept_packages_are_shown(
    list: Seq<DataModel>,
    keep: spec_fn(DataModel) -> bool,
    closing: bool,
)
    ensures
        kept_of_groups(list, keep, closing).filter(packages()) == list.filter(packages_kept(keep)),
{
    group_len_bound(list);
    let n = group_len(list) as int;
    let rows = list.take(n);
    let rest = list.skip(n);
    if rest.len() > 0 {
        assert(rest[0] == list[n]);
    }
    assert(list =~= rows + rest);
    rows_without_headers(rows, keep);
    groups_show_what_is_kept(rest, keep, closing);
    Seq::filter_distributes_over_add(rows, rest, packages_kept(keep));
    Seq::filter_distributes_over_add(
        rows.filter(keep),
        kept_groups(rest, keep, closing),
        packages(),
    );
}

/// Whether a list has a package at an index that a test keeps.
pub open spec fn kept_at(list: Seq<DataModel>, keep: spec_fn(DataModel) -> bool, i: int) -> bool {
    0 <= i < list.len() && !is_header(list[i]) && keep(list[i])
}

/// Whether every header of a list has a package right beneath it that a test keeps, or where groups
/// are closed right above it.
pub open spec fn headers_have_packages(
    list: Seq<DataModel>,
    keep: spec_fn(DataModel) -> bool,
    closing: bool,
) -> bool {
    forall|i: int|
        0 <= i < list.len() && is_header(#[trigger] list[i]) ==> kept_at(list, keep, i + 1)
            || closing && kept_at(list, keep, i - 1)
}

proof fn kept_rows_are_packages(rows: Seq<DataModel>, keep: spec_fn(DataModel) -> bool)
    requires
        forall|i: int| 0 <= i < rows.len() ==> !is_header(#[trigger] rows[i]),
    ensures
        forall|i: int|
            0 <= i < rows.filter(keep).len() ==> !is_header(#[trigger] rows.filter(keep)[i])
                && keep(rows.filter(keep)[i]),
    decreases rows.len(),
{
    reveal(Seq::filter);
    if rows.len() > 0 {
        kept_rows_are_packages(rows.drop_last(), keep);
        let had = rows.drop_last().filter(keep);
        let out = rows.filter(keep);
        assert(out == if keep(rows.last()) {
            had.push(rows.last())
        } else {
            had
        });
        assert forall|i: int| 0 <= i < out.len() implies !is_header(#[trigger] out[i]) && keep(
            out[i],
        ) by {
            if i < had.len() {
                assert(out[i] == had[i]);
            }
        }
    }
}

/// Lists in which every header has its package have it when one is put behind the other.
proof fn headers_of_both(
    a: Seq<DataModel>,
    b: Seq<DataModel>,
    keep: spec_fn(DataModel) -> bool,
    closing: bool,
)
    requires
        headers_have_packages(a, keep, closing),
        headers_have_packages(b, keep, closing),
    ensures
        headers_have_packages(a + b, keep, closing),
{
    let all = a + b;
    let n = a.len() as int;
    assert forall|i: int| 0 <= i < all.len() && is_header(#[trigger] all[i]) implies kept_at(
        all,
        keep,
        i + 1,
    ) || closing && kept_at(all, keep, i - 1) by {
        if i < n {
            assert(all[i] == a[i]);
            if kept_at(a, keep, i + 1) {
                assert(all[i + 1] == a[i + 1]);
            } else {
                assert(all[i - 1] == a[i - 1]);
            }
        } else {
            assert(all[i] == b[i - n]);
            if kept_at(b, keep, i - n + 1) {
                assert(all[i + 1] == b[i - n + 1]);
            } else {
                assert(all[i - 1] == b[i - n - 1]);
            }
        }
    }
}

proof fn header_of_group(
    header: DataModel,
    rows: Seq<DataModel>,
    keep: spec_fn(DataModel) -> bool,
    closing: bool,
)
    requires
        forall|i: int| 0 <= i < rows.len() ==> !is_header(#[trigger] rows[i]),
    ensures
        headers_have_packages(shown_group(header, rows.filter(keep), closing), keep, closing),
{
    let found = rows.filter(keep);
    let all = shown_group(header, found, closing);
    kept_rows_are_packages(rows, keep);
    assert forall|i: int| 0 <= i < all.len() && is_header(#[trigger] all[i]) implies kept_at(
        all,
        keep,
        i + 1,
    ) || closing && kept_at(all, keep, i - 1) by {
        if i == 0 {
            assert(all[1] == found[0]);
        } else if i <= found.len() {
            assert(all[i] == found[i - 1]);
        } else {
            assert(all[i - 1] == found[found.len() - 1]);
        }
    }
}

proof fn kept_headers_have_packages(
    list: Seq<DataModel>,
    keep: spec_fn(DataModel) -> bool,
    closing: bool,
)
    requires
        list.len() > 0 ==> is_header(list[0]),
    ensures
        headers_have_packages(kept_groups(list, keep, closing), keep, closing),
    decreases list.len(),
{
    if list.len() > 0 {
        let tail = list.skip(1);
        group_len_bound(tail);
        let n = group_len(tail) as int;
        let rows = tail.take(n);
        let rest = tail.skip(n);
        if rest.len() > 0 {
            assert(rest[0] == tail[n]);
        }
        header_of_group(list[0], rows, keep, closing);
        kept_headers_have_packages(rest, keep, closing);
        headers_of_both(
            shown_group(list[0], rows.filter(keep), closing),
            kept_groups(rest, keep, closing),
            keep,
            closing,
        );
    }
}

/// Narrowing a list keeps a header only with a kept package of its group right beneath it, or where
/// groups are closed right above it.
pub proof fn headers_stand_by_packages(
    list: Seq<DataModel>,
    keep: spec_fn(DataModel) -> bool,
    closing: bool,
)
    ensures
        headers_have_packages(kept_of_groups(list, keep, closing), keep, closing),
{
    group_len_bound(list);
    let n = group_len(list) as int;
    let rows = list.take(n);
    let rest = list.skip(n);
    if rest.len() > 0 {
        assert(rest[0] == list[n]);
    }
    kept_rows_are_packages(rows, keep);
    kept_headers_have_packages(rest, keep, closing);
    headers_of_both(rows.filter(keep), kept_groups(rest, keep, closing), keep, closing);
}

/// Every package is either among the installed ones or among the others.
pub proof fn installed_and_others(list: Seq<DataModel>)
    ensures
        list.filter(installed_or_not(true)).len() + list.filter(installed_or_not(false)).len()
            == list.len(),
    decreases list.len(),
{
    reveal(Seq::filter);
    if list.len() > 0 {
        installed_and_others(list.drop_last());
    }
}

/// What was removed is no longer listed, and everything else still is.
pub proof fn removed_are_gone(list: Seq<DataModel>, names: Seq<Seq<char>>, d: DataModel)
    ensures
        list.filter(not_among(names)).contains(d) <==> list.contains(d) && !names.contains(d.name),
    decreases list.len(),
{
    reveal(Seq::filter);
    let keep = not_among(names);
    if list.len() > 0 {
        let most = list.drop_last();
        removed_are_gone(most, names, d);
        let had = most.filter(keep);
        assert(list =~= most.push(list.last()));
        assert(list.contains(d) <==> most.contains(d) || list.last() == d) by {
            if most.contains(d) {
                let i = choose|i: int| 0 <= i < most.len() && most[i] == d;
                assert(list[i] == d);
            }
            if list.contains(d) {
                let i = choose|i: int| 0 <= i < list.len() && list[i] == d;
                if i < most.len() {
                    assert(most[i] == d);
                }
            }
        }
        if keep(list.last()) {
            let out = had.push(list.last());
            assert(out.contains(d) <==> had.contains(d) || list.last() == d) by {
                if had.contains(d) {
                    let i = choose|i: int| 0 <= i < had.len() && had[i] == d;
                    assert(out[i] == d);
                }
                assert(out[had.len() as int] == list.last());
                if out.contains(d) {
                    let i = choose|i: int| 0 <= i < out.len() && out[i] == d;
                    if i < had.len() {
                        assert(had[i] == d);
                    }
                }
            }
        }
    }
}

/// A package is found by a part of its name or of its name for people, and in a repository also by a
/// part of its description, whatever the case of the letters.
pub proof fn parts_are_found(d: DataModel, front: Seq<char>, part: Seq<char>, tail: Seq<char>)
    requires
        is_ascii_text(front + part + tail),
        is_ascii_text(part),
    ensures
        d.name == front + part + tail ==> named(lowered(part))(d),
        d.display_name == front + part + tail ==> named(lowered(part))(d),
        d.name == front + part + tail || d.display_name == front + part + tail || d.description
            == front + part + tail ==> described(lowered(part))(d),
{
    let whole = front + part + tail;
    let f = |c: char| crate::text::ascii_lower(c);
    let n = front.len() as int;
    let lower = whole.map_values(f);
    assert(lower.skip(n).take(part.len() as int) =~= part.map_values(f));
    assert(begins(lower.skip(n), lowered(part)));
}

/// A package whose texts do not contain what is typed is not found.
pub proof fn others_are_not_found(d: DataModel, lower: Seq<char>)
    requires
        !holds(lowered(d.name), lower),
        !holds(lowered(d.display_name), lower),
    ensures
        !named(lower)(d),
        !holds(lowered(d.description), lower) ==> !described(lower)(d),
{
}

} // verus!
