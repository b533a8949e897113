//! The applications of a remote as lists show them, and searching.
use vstd::prelude::*;

use crate::catalogue::CachedRemoteApp;
use crate::deps::NameMap;
use crate::listing::{blank_data, data_models, human_name, humanize_package_name, push_data,
    upper_char, DataModel, PackageData};
use crate::package::SearchResult;
use crate::text::{ascii_lower, ascii_upper, begins, filled, has_chars, holds, is_ascii_text,
    list_has, lowered, own, same_text, texts, to_chars, to_lower, uppered};

verus! {

// ---------------------------------------------------------------------------
// Browsing a remote

/// Whether a text contains another, whatever the case.
pub open spec fn mentions(s: Seq<char>, query: Seq<char>) -> bool {
    holds(lowered(s), lowered(query))
}

/// Whether an application mentions a query in its name, its identifier or its summary.
pub open spec fn app_mentions(app: CachedRemoteApp, query: Seq<char>) -> bool {
    mentions(app.name@, query) || mentions(app.app_id@, query) || mentions(app.summary@, query)
}

/// Whether an application is shown: it is no add-on, it has the category, where one is chosen, and
/// it mentions the text, where there is one.
pub open spec fn app_shown(app: CachedRemoteApp, category: Seq<char>, search: Seq<char>) -> bool {
    &&& app.extends@.len() == 0
    &&& category.len() == 0 || category == "All"@ || texts(app.categories@).contains(category)
    &&& lowered(search).len() == 0 || app_mentions(app, search)
}

/// Whether an application has an add-on in a list.
pub open spec fn has_addon(apps: Seq<CachedRemoteApp>, id: Seq<char>) -> bool {
    exists|i: int|
        0 <= i < apps.len() && (#[trigger] apps[i]).extends@.len() > 0 && apps[i].extends@ == id
}

/// The letter that stands for an application: the first of its name or, without one, of its
/// identifier.
pub open spec fn app_initial(app: CachedRemoteApp) -> Seq<char> {
    let s = if app.name@.len() > 0 {
        app.name@
    } else {
        app.app_id@
    };
    if s.len() == 0 {
        seq![]
    } else if uppered(seq![s[0]]).len() > 0 {
        seq![uppered(seq![s[0]])[0]]
    } else {
        seq![s[0]]
    }
}

/// Where the icon of an application lies, empty where it has none.
pub open spec fn icon_path(icon: Seq<char>) -> Seq<char> {
    if icon.len() > 0 {
        "/var/lib/flatpak/appstream/flathub/x86_64/active/icons/128x128/"@ + icon
    } else {
        seq![]
    }
}

/// The name that is shown for an application.
pub open spec fn app_title(app: CachedRemoteApp) -> Seq<char> {
    if app.name@.len() == 0 {
        app.app_id@
    } else {
        app.name@
    }
}

/// An application as the browser shows it. The size holds its first category, the licences the path
/// of its icon, the dependencies its developer, the packages that require it its letter; it is
/// explicit where it has add-ons.
pub open spec fn app_data(
    app: CachedRemoteApp,
    apps: Seq<CachedRemoteApp>,
    installed: Seq<Seq<char>>,
    remote: Seq<char>,
) -> DataModel {
    DataModel {
        name: app.app_id@,
        display_name: app_title(app),
        description: app.summary@,
        repository: remote,
        backend: 1,
        installed: installed.contains(app.app_id@),
        installed_size: if app.categories@.len() > 0 {
            app.categories@[0]@
        } else {
            seq![]
        },
        licenses: icon_path(app.icon_name@),
        url: app.screenshot_url@,
        dependencies: app.developer@,
        required_by: app_initial(app),
        explicit: has_addon(apps, app.app_id@),
        ..blank_data()
    }
}

/// The applications of a remote that are shown.
pub open spec fn apps_shown(
    apps: Seq<CachedRemoteApp>,
    installed: Seq<Seq<char>>,
    remote: Seq<char>,
    category: Seq<char>,
    search: Seq<char>,
) -> Seq<DataModel> {
    apps.filter(|a: CachedRemoteApp| app_shown(a, category, search)).map_values(
        |a: CachedRemoteApp| app_data(a, apps, installed, remote),
    )
}

fn mentioned(s: &str, query: &[char]) -> (r: bool)
    ensures
        r == holds(lowered(s@), query@),
{
    let lower = to_lower(s);
    let chars = to_chars(lower.as_str());
    has_chars(chars.as_slice(), query)
}

fn app_mentioned(app: &CachedRemoteApp, query: &[char], text: &str) -> (r: bool)
    requires
        query@ == lowered(text@),
    ensures
        r == app_mentions(*app, text@),
{
    mentioned(app.name.as_str(), query) || mentioned(app.app_id.as_str(), query) || mentioned(
        app.summary.as_str(),
        query,
    )
}

fn addon_for(apps: &[CachedRemoteApp], id: &str) -> (r: bool)
    ensures
        r == has_addon(apps@, id@),
{
    for i in 0..apps.len()
        invariant
            forall|j: int|
                0 <= j < i ==> !((#[trigger] apps@[j]).extends@.len() > 0 && apps@[j].extends@
                    == id@),
    {
        if filled(apps[i].extends.as_str()) && same_text(apps[i].extends.as_str(), id) {
            return true;
        }
    }
    false
}

fn initial_for(app: &CachedRemoteApp) -> (out: String)
    ensures
        out@ == app_initial(*app),
{
    let name = to_chars(app.name.as_str());
    let id = to_chars(app.app_id.as_str());
    let mut out = String::new();
    if name.len() == 0 && id.len() == 0 {
        return out;
    }
    let c = if name.len() > 0 {
        name[0]
    } else {
        id[0]
    };
    let upper = upper_char(c);
    let u = to_chars(upper.as_str());
    if u.len() > 0 {
        out.push(u[0]);
    } else {
        out.push(c);
    }
    proof {
        assert(out@ =~= app_initial(*app));
    }
    out
}

/// The name that is shown for an application.
pub fn title_of(app: &CachedRemoteApp) -> (out: String)
    ensures
        out@ == app_title(*app),
{
    if filled(app.name.as_str()) {
        own(app.name.as_str())
    } else {
        own(app.app_id.as_str())
    }
}

/// Where the icon of an application lies, empty where it has none.
pub fn icon_file(icon: &str) -> (out: String)
    ensures
        out@ == icon_path(icon@),
{
    if filled(icon) {
        let mut out = own("/var/lib/flatpak/appstream/flathub/x86_64/active/icons/128x128/");
        out.append(icon);
        out
    } else {
        String::new()
    }
}

fn shown(app: &CachedRemoteApp, category: &str, query: &[char], search: &str) -> (r: bool)
    requires
        query@ == lowered(search@),
    ensures
        r == app_shown(*app, category@, search@),
{
    if filled(app.extends.as_str()) {
        return false;
    }
    if filled(category) && !same_text(category, "All") && !list_has(
        app.categories.as_slice(),
        category,
    ) {
        return false;
    }
    query.len() == 0 || app_mentioned(app, query, search)
}

/// The applications of a remote that are shown for a category and a text.
pub fn apps_to_package_data(
    apps: &[CachedRemoteApp],
    installed_ids: &[String],
    remote: &str,
    category_filter: &str,
    search: &str,
) -> (out: Vec<PackageData>)
    ensures
        data_models(out@) == apps_shown(
            apps@,
            texts(installed_ids@),
            remote@,
            category_filter@,
            search@,
        ),
{
    let lower = to_lower(search);
    let query = to_chars(lower.as_str());
    let ghost keep = |a: CachedRemoteApp| app_shown(a, category_filter@, search@);
    let ghost f = |a: CachedRemoteApp| app_data(a, apps@, texts(installed_ids@), remote@);
    let mut out: Vec<PackageData> = Vec::new();
    proof {
        assert(data_models(out@) =~= apps@.take(0).filter(keep).map_values(f)) by {
            reveal(Seq::filter);
        }
    }
    for i in 0..apps.len()
        invariant
            query@ == lowered(search@),
            keep == (|a: CachedRemoteApp| app_shown(a, category_filter@, search@)),
            f == (|a: CachedRemoteApp| app_data(a, apps@, texts(installed_ids@), remote@)),
            data_models(out@) == apps@.take(i as int).filter(keep).map_values(f),
    {
        let app = &apps[i];
        let ghost had = apps@.take(i as int).filter(keep);
        proof {
            assert(apps@.take(i + 1) =~= apps@.take(i as int).push(*app));
            apps@.take(i as int).lemma_filter_push(*app, keep);
            assert(had.push(*app).map_values(f) =~= had.map_values(f).push(f(*app)));
        }
        if shown(app, category_filter, query.as_slice(), search) {
            let category = if app.categories.len() > 0 {
                own(app.categories[0].as_str())
            } else {
                String::new()
            };
            let d = PackageData {
                name: own(app.app_id.as_str()),
                display_name: title_of(app),
                description: own(app.summary.as_str()),
                repository: own(remote),
                backend: 1,
                installed: list_has(installed_ids, app.app_id.as_str()),
                installed_size: category,
                licenses: icon_file(app.icon_name.as_str()),
                url: own(app.screenshot_url.as_str()),
                dependencies: own(app.developer.as_str()),
                required_by: initial_for(app),
                explicit: addon_for(apps, app.app_id.as_str()),
                ..PackageData::blank()
            };
            proof {
                assert(d@ == f(*app));
            }
            push_data(&mut out, d);
        }
    }
    proof {
        assert(apps@.take(apps@.len() as int) =~= apps@);
    }
    out
}

// ---------------------------------------------------------------------------
// Searching

/// A package that pacman has found, as the list of results shows it.
pub open spec fn found_data(r: SearchResult, names: Map<Seq<char>, Seq<char>>) -> DataModel {
    DataModel {
        name: r.name@,
        display_name: human_name(r.name@, names),
        version: r.version.full@,
        description: r.description@,
        repository: r.repository@,
        backend: 0,
        installed: r.installed,
        ..blank_data()
    }
}

/// An application that was found, as the list of results shows it.
pub open spec fn found_app(app: CachedRemoteApp, installed: Seq<Seq<char>>) -> DataModel {
    DataModel {
        name: app.app_id@,
        display_name: app_title(app),
        version: app.version@,
        description: app.summary@,
        repository: "Flatpak"@,
        backend: 1,
        installed: installed.contains(app.app_id@),
        ..blank_data()
    }
}

/// The first `n` of a list, or all.
pub open spec fn at_most<A>(list: Seq<A>, n: int) -> Seq<A> {
    if list.len() > n {
        list.take(n)
    } else {
        list
    }
}

/// The results of a search: what pacman has found, then at most fifty applications that mention the
/// query, at most 150 in all.
pub open spec fn results_of(
    pacman: Seq<SearchResult>,
    apps: Seq<CachedRemoteApp>,
    installed: Seq<Seq<char>>,
    names: Map<Seq<char>, Seq<char>>,
    query: Seq<char>,
) -> Seq<DataModel> {
    at_most(
        pacman.map_values(|r: SearchResult| found_data(r, names)) + at_most(
            apps.filter(|a: CachedRemoteApp| app_mentions(a, query)),
            50,
        ).map_values(|a: CachedRemoteApp| found_app(a, installed)),
        150,
    )
}

fn found_apps(apps: &[CachedRemoteApp], installed: &[String], search: &str) -> (out: Vec<
    PackageData,
>)
    ensures
        data_models(out@) == at_most(
            apps@.filter(|a: CachedRemoteApp| app_mentions(a, search@)),
            50,
        ).map_values(|a: CachedRemoteApp| found_app(a, texts(installed@))),
{
    let lower = to_lower(search);
    let query = to_chars(lower.as_str());
    let ghost keep = |a: CachedRemoteApp| app_mentions(a, search@);
    let ghost f = |a: CachedRemoteApp| found_app(a, texts(installed@));
    let mut out: Vec<PackageData> = Vec::new();
    proof {
        assert(data_models(out@) =~= at_most(apps@.take(0).filter(keep), 50).map_values(f)) by {
            reveal(Seq::filter);
        }
    }
    for i in 0..apps.len()
        invariant
            query@ == lowered(search@),
            keep == (|a: CachedRemoteApp| app_mentions(a, search@)),
            f == (|a: CachedRemoteApp| found_app(a, texts(installed@))),
            data_models(out@) == at_most(apps@.take(i as int).filter(keep), 50).map_values(f),
    {
        let app = &apps[i];
        let ghost had = apps@.take(i as int).filter(keep);
        proof {
            assert(apps@.take(i + 1) =~= apps@.take(i as int).push(*app));
            apps@.take(i as int).lemma_filter_push(*app, keep);
            if had.len() >= 50 {
                assert(had.push(*app).take(50) =~= at_most(had, 50));
            } else {
                assert(had.push(*app).map_values(f) =~= had.map_values(f).push(f(*app)));
            }
        }
        if out.len() < 50 && app_mentioned(app, query.as_slice(), search) {
            let d = PackageData {
                name: own(app.app_id.as_str()),
                display_name: title_of(app),
                version: own(app.version.as_str()),
                description: own(app.summary.as_str()),
                repository: own("Flatpak"),
                backend: 1,
                installed: list_has(installed, app.app_id.as_str()),
                ..PackageData::blank()
            };
            push_data(&mut out, d);
        }
    }
    proof {
        assert(apps@.take(apps@.len() as int) =~= apps@);
    }
    out
}

/// Puts the results of a search together.
pub fn search_results(
    pacman: &[SearchResult],
    apps: &[CachedRemoteApp],
    installed: &[String],
    names: &NameMap,
    query: &str,
) -> (out: Vec<PackageData>)
    ensures
        data_models(out@) == results_of(pacman@, apps@, texts(installed@), names@, query@),
{
    let ghost f = |r: SearchResult| found_data(r, names@);
    let mut out: Vec<PackageData> = Vec::new();
    for i in 0..pacman.len()
        invariant
            f == (|r: SearchResult| found_data(r, names@)),
            data_models(out@) == pacman@.take(i as int).map_values(f),
    {
        let r = &pacman[i];
        push_data(
            &mut out,
            PackageData {
                name: own(r.name.as_str()),
                display_name: humanize_package_name(r.name.as_str(), names),
                version: own(r.version.full.as_str()),
                description: own(r.description.as_str()),
                repository: own(r.repository.as_str()),
                backend: 0,
                installed: r.installed,
                ..PackageData::blank()
            },
        );
        proof {
            assert(pacman@.take(i + 1).map_values(f) =~= pacman@.take(i as int).map_values(f).push(
                f(*r),
            ));
        }
    }
    let mut more = found_apps(apps, installed, query);
    let ghost first = out@;
    let ghost last = more@;
    out.append(&mut more);
    proof {
        assert(pacman@.take(pacman@.len() as int) =~= pacman@);
        assert(data_models(out@) =~= data_models(first) + data_models(last));
    }
    let ghost all = out@;
    if out.len() > 150 {
        out.truncate(150);
    }
    proof {
        assert(data_models(out@) =~= at_most(data_models(all), 150));
    }
    out
}

/// A search never shows more than 150 results.
pub proof fn results_are_bounded(
    pacman: Seq<SearchResult>,
    apps: Seq<CachedRemoteApp>,
    installed: Seq<Seq<char>>,
    names: Map<Seq<char>, Seq<char>>,
    query: Seq<char>,
)
    ensures
        results_of(pacman, apps, installed, names, query).len() <= 150,
{
}

/// Add-ons are never listed among the applications of a remote.
pub proof fn addons_are_not_listed(app: CachedRemoteApp, category: Seq<char>, search: Seq<char>)
    requires
        app.extends@.len() > 0,
    ensures
        !app_shown(app, category, search),
{
}

/// Whether an application of a remote is to be shown: it stands by itself, and it fits the category
/// and the text.
pub open spec fn fits(app: CachedRemoteApp, category: Seq<char>, search: Seq<char>) -> bool {
    &&& app.extends@.len() == 0
    &&& category.len() > 0 && category != "All"@ ==> texts(app.categories@).contains(category)
    &&& lowered(search).len() > 0 ==> holds(lowered(app.name@), lowered(search)) || holds(
        lowered(app.app_id@),
        lowered(search),
    ) || holds(lowered(app.summary@), lowered(search))
}

/// Whether a row shows an application: its identifier, its name or else the identifier, its summary,
/// the remote, and whether it is installed.
pub open spec fn shows_app(
    d: DataModel,
    app: CachedRemoteApp,
    installed: Seq<Seq<char>>,
    remote: Seq<char>,
) -> bool {
    &&& d.name == app.app_id@
    &&& app.name@.len() > 0 ==> d.display_name == app.name@
    &&& app.name@.len() == 0 ==> d.display_name == app.app_id@
    &&& d.description == app.summary@
    &&& d.repository == remote
    &&& d.backend == 1
    &&& d.installed == installed.contains(app.app_id@)
    &&& d.url == app.screenshot_url@
    &&& d.dependencies == app.developer@
}

/// What a test keeps of a list is in the list and passes the test, and everything that passes is kept.
pub proof fn kept_are_those_that_pass<A>(list: Seq<A>, keep: spec_fn(A) -> bool)
    ensures
        list.filter(keep).len() <= list.len(),
        forall|j: int|
            0 <= j < list.filter(keep).len() ==> keep(#[trigger] list.filter(keep)[j])
                && list.contains(list.filter(keep)[j]),
        forall|i: int|
            0 <= i < list.len() && keep(#[trigger] list[i]) ==> list.filter(keep).contains(list[i]),
    decreases list.len(),
{
    reveal(Seq::filter);
    if list.len() > 0 {
        let front = list.drop_last();
        let had = front.filter(keep);
        let out = list.filter(keep);
        kept_are_those_that_pass(front, keep);
        assert forall|j: int| 0 <= j < out.len() implies keep(#[trigger] out[j]) && list.contains(
            out[j],
        ) by {
            if j < had.len() {
                assert(out[j] == had[j]);
                let i = choose|i: int| 0 <= i < front.len() && front[i] == had[j];
                assert(list[i] == out[j]);
            } else {
                assert(list[list.len() - 1] == out[j]);
            }
        }
        assert forall|i: int| 0 <= i < list.len() && keep(#[trigger] list[i]) implies out.contains(
            list[i],
        ) by {
            if i < front.len() {
                assert(front[i] == list[i]);
                let j = choose|j: int| 0 <= j < had.len() && had[j] == list[i];
                assert(out[j] == list[i]);
            } else {
                assert(out[out.len() - 1] == list[i]);
            }
        }
    }
}

/// Whether a row shows one of the applications that fit.
pub open spec fn shows_fitting(
    d: DataModel,
    apps: Seq<CachedRemoteApp>,
    installed: Seq<Seq<char>>,
    remote: Seq<char>,
    category: Seq<char>,
    search: Seq<char>,
) -> bool {
    exists|i: int|
        0 <= i < apps.len() && fits(#[trigger] apps[i], category, search) && shows_app(
            d,
            apps[i],
            installed,
            remote,
        )
}

/// Whether one of the rows shows an application.
pub open spec fn is_shown_in(
    app: CachedRemoteApp,
    rows: Seq<DataModel>,
    installed: Seq<Seq<char>>,
    remote: Seq<char>,
) -> bool {
    exists|j: int| 0 <= j < rows.len() && shows_app(#[trigger] rows[j], app, installed, remote)
}

/// The browser shows exactly the applications that fit, each as it is.
pub proof fn fitting_apps_are_shown(
    apps: Seq<CachedRemoteApp>,
    installed: Seq<Seq<char>>,
    remote: Seq<char>,
    category: Seq<char>,
    search: Seq<char>,
)
    ensures
        forall|i: int|
            0 <= i < apps.len() && fits(#[trigger] apps[i], category, search) ==> is_shown_in(
                apps[i],
                apps_shown(apps, installed, remote, category, search),
                installed,
                remote,
            ),
        forall|j: int|
            0 <= j < apps_shown(apps, installed, remote, category, search).len() ==> shows_fitting(
                #[trigger] apps_shown(apps, installed, remote, category, search)[j],
                apps,
                installed,
                remote,
                category,
                search,
            ),
        apps_shown(apps, installed, remote, category, search).len() <= apps.len(),
{
    let keep = |a: CachedRemoteApp| app_shown(a, category, search);
    let kept = apps.filter(keep);
    let out = apps_shown(apps, installed, remote, category, search);
    kept_are_those_that_pass(apps, keep);
    assert forall|i: int| 0 <= i < apps.len() && fits(#[trigger] apps[i], category, search) implies is_shown_in(
    apps[i], out, installed, remote) by {
        assert(keep(apps[i]));
        assert(kept.contains(apps[i]));
        let j = choose|j: int| 0 <= j < kept.len() && kept[j] == apps[i];
        assert(shows_app(out[j], apps[i], installed, remote));
    }
    assert forall|j: int| 0 <= j < out.len() implies shows_fitting(
        #[trigger] out[j],
        apps,
        installed,
        remote,
        category,
        search,
    ) by {
        assert(keep(kept[j]));
        assert(apps.contains(kept[j]));
        let i = choose|i: int| 0 <= i < apps.len() && apps[i] == kept[j];
        assert(fits(apps[i], category, search));
        assert(shows_app(out[j], apps[i], installed, remote));
    }
}

/// A text is found within another whatever the case of its letters.
pub proof fn case_does_not_matter(front: Seq<char>, text: Seq<char>, behind: Seq<char>, query: Seq<char>)
    requires
        is_ascii_text(front + text + behind),
        lowered(text) == lowered(query),
        is_ascii_text(text),
    ensures
        mentions(front + text + behind, query),
{
    let whole = front + text + behind;
    let f = |c: char| ascii_lower(c);
    let n = front.len() as int;
    let lower = whole.map_values(f);
    assert(lowered(text) == text.map_values(f));
    assert(lower.skip(n).take(text.len() as int) =~= text.map_values(f));
    assert(begins(lower.skip(n), lowered(query)));
}

/// The results of a search begin with what pacman has found, in its order; where there are at most
/// fifty applications that mention the query and all results fit, every one of them is there.
pub proof fn results_are_complete(
    pacman: Seq<SearchResult>,
    apps: Seq<CachedRemoteApp>,
    installed: Seq<Seq<char>>,
    names: Map<Seq<char>, Seq<char>>,
    query: Seq<char>,
)
    ensures
        forall|i: int|
            0 <= i < pacman.len() && i < 150 ==> {
                let d = #[trigger] results_of(pacman, apps, installed, names, query)[i];
                d.name == pacman[i].name@ && d.installed == pacman[i].installed && d.backend == 0
                    && d.version == pacman[i].version.full@ && d.repository == pacman[i].repository@
                    && d.description == pacman[i].description@
            },
        forall|i: int|
            apps.len() <= 50 && pacman.len() + apps.len() <= 150 && 0 <= i < apps.len() && (holds(
                lowered((#[trigger] apps[i]).name@),
                lowered(query),
            ) || holds(lowered(apps[i].app_id@), lowered(query)) || holds(
                lowered(apps[i].summary@),
                lowered(query),
            )) ==> results_of(pacman, apps, installed, names, query).contains(
                found_app(apps[i], installed),
            ),
        forall|i: int|
            pacman.len() <= i < results_of(pacman, apps, installed, names, query).len() ==> (
            #[trigger] results_of(pacman, apps, installed, names, query)[i]).backend == 1,
{
    let keep = |a: CachedRemoteApp| app_mentions(a, query);
    let kept = apps.filter(keep);
    let out = results_of(pacman, apps, installed, names, query);
    let first = pacman.map_values(|r: SearchResult| found_data(r, names));
    kept_are_those_that_pass(apps, keep);
    if apps.len() <= 50 && pacman.len() + apps.len() <= 150 {
        let second = kept.map_values(|a: CachedRemoteApp| found_app(a, installed));
        assert(out =~= first + second);
        assert forall|i: int|
            0 <= i < apps.len() && (holds(lowered((#[trigger] apps[i]).name@), lowered(query))
                || holds(lowered(apps[i].app_id@), lowered(query)) || holds(
                lowered(apps[i].summary@),
                lowered(query),
            )) implies out.contains(found_app(apps[i], installed)) by {
            assert(keep(apps[i]));
            assert(kept.contains(apps[i]));
            let j = choose|j: int| 0 <= j < kept.len() && kept[j] == apps[i];
            assert(second[j] == found_app(apps[i], installed));
            assert(out[pacman.len() + j] == found_app(apps[i], installed));
        }
    }
}

/// An application without an icon has no path to one; the letter that stands for it is the capital
/// of its name, or of its identifier where it has no name.
pub proof fn initials_stand_for_apps(app: CachedRemoteApp)
    ensures
        app.name@.len() > 0 && 'a' <= app.name@[0] <= 'z' ==> app_initial(app) == seq![
            ascii_upper(app.name@[0]),
        ],
        app.name@.len() > 0 && 'A' <= app.name@[0] <= 'Z' ==> app_initial(app) == seq![app.name@[0]],
        app.name@.len() == 0 && app.app_id@.len() > 0 && 'a' <= app.app_id@[0] <= 'z'
            ==> app_initial(app) == seq![ascii_upper(app.app_id@[0])],
        icon_path(seq![]).len() == 0,
{
    if app.name@.len() > 0 {
        let s = seq![app.name@[0]];
        assert(s.map_values(|c: char| ascii_upper(c))[0] == ascii_upper(s[0]));
    } else if app.app_id@.len() > 0 {
        let s = seq![app.app_id@[0]];
        assert(s.map_values(|c: char| ascii_upper(c))[0] == ascii_upper(s[0]));
    }
}

} // verus!
