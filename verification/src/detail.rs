//! The page of one application, and the browser of a remote.
use vstd::prelude::*;

use crate::catalogue::CachedRemoteApp;
use crate::listing::{blank_data, data_models, push_data, DataModel, PackageData};
use crate::number::{shown_count, to_count};
use crate::pages::{copy_rows, rows_from, LONG_PAGE};
use crate::store::{app_title, apps_shown, apps_to_package_data, icon_file, icon_path, title_of};
use crate::text::{begins, characters_are_replaced, filled, from_chars, has_word, held_within, holds,
    list_has, own, own_all, replace, replaced, replacing_starts_at_the_pattern, same_text, texts,
    to_chars};

verus! {

// ---------------------------------------------------------------------------
// One application

/// The first application with an identifier.
pub open spec fn app_with(apps: Seq<CachedRemoteApp>, id: Seq<char>) -> Option<CachedRemoteApp>
    decreases apps.len(),
{
    if apps.len() == 0 {
        None
    } else if apps[0].app_id@ == id {
        Some(apps[0])
    } else {
        app_with(apps.skip(1), id)
    }
}

fn find_app<'a>(apps: &'a [CachedRemoteApp], id: &str) -> (r: Option<&'a CachedRemoteApp>)
    ensures
        match r {
            Some(app) => app_with(apps@, id@) == Some(*app),
            None => app_with(apps@, id@) is None,
        },
{
    proof {
        assert(apps@.skip(0) =~= apps@);
    }
    for i in 0..apps.len()
        invariant
            app_with(apps@, id@) == app_with(apps@.skip(i as int), id@),
    {
        proof {
            assert(apps@.skip(i as int)[0] == apps@[i as int]);
            assert(apps@.skip(i as int).skip(1) =~= apps@.skip(i + 1));
        }
        if same_text(apps[i].app_id.as_str(), id) {
            return Some(&apps[i]);
        }
    }
    None
}

/// Text in which every line is a paragraph: two line ends count as one, and each is shown as two.
pub open spec fn paragraphs(s: Seq<char>) -> Seq<char> {
    if holds(s, "\n"@) {
        replaced(replaced(s, "\n\n"@, "\n"@), "\n"@, "\n\n"@)
    } else {
        s
    }
}

fn spaced(text: &str) -> (out: String)
    ensures
        out@ == paragraphs(text@),
{
    let chars = to_chars(text);
    if !has_word(chars.as_slice(), "\n") {
        return own(text);
    }
    let single = replace(chars.as_slice(), "\n\n", "\n");
    let double = replace(single.as_slice(), "\n", "\n\n");
    from_chars(double.as_slice())
}

/// Where a picture of an application is put.
pub open spec fn picture_path(id: Seq<char>) -> Seq<char> {
    "/tmp/xpm_ss_"@ + replaced(replaced(id, "/"@, "_"@), "."@, "_"@) + ".jpg"@
}

fn picture_file(id: &str) -> (out: String)
    ensures
        out@ == picture_path(id@),
{
    let chars = to_chars(id);
    let a = replace(chars.as_slice(), "/", "_");
    let b = replace(a.as_slice(), ".", "_");
    let name = from_chars(b.as_slice());
    let mut out = own("/tmp/xpm_ss_");
    out.append(name.as_str());
    out.append(".jpg");
    out
}

/// An add-on as the page of its application shows it.
pub open spec fn addon_data(app: CachedRemoteApp, installed: Seq<Seq<char>>) -> DataModel {
    DataModel {
        name: app.app_id@,
        display_name: app_title(app),
        description: app.summary@,
        backend: 1,
        installed: installed.contains(app.app_id@),
        ..blank_data()
    }
}

/// The applications that extend another one.
pub open spec fn extending(id: Seq<char>) -> spec_fn(CachedRemoteApp) -> bool {
    |a: CachedRemoteApp| a.extends@ == id
}

/// The add-ons of an application.
pub open spec fn addons_of(apps: Seq<CachedRemoteApp>, installed: Seq<Seq<char>>, id: Seq<char>) -> Seq<
    DataModel,
> {
    apps.filter(extending(id)).map_values(|a: CachedRemoteApp| addon_data(a, installed))
}

/// The add-ons of an application.
pub fn find_addons(apps: &[CachedRemoteApp], installed: &[String], id: &str) -> (out: Vec<
    PackageData,
>)
    ensures
        data_models(out@) == addons_of(apps@, texts(installed@), id@),
{
    let ghost keep = extending(id@);
    let ghost f = |a: CachedRemoteApp| addon_data(a, texts(installed@));
    let mut out: Vec<PackageData> = Vec::new();
    proof {
        assert(data_models(out@) =~= apps@.take(0).filter(keep).map_values(f)) by {
            reveal(Seq::filter);
        }
    }
    for i in 0..apps.len()
        invariant
            keep == extending(id@),
            f == (|a: CachedRemoteApp| addon_data(a, texts(installed@))),
            data_models(out@) == apps@.take(i as int).filter(keep).map_values(f),
    {
        let app = &apps[i];
        let ghost had = apps@.take(i as int).filter(keep);
        proof {
            assert(apps@.take(i + 1) =~= apps@.take(i as int).push(*app));
            apps@.take(i as int).lemma_filter_push(*app, keep);
            assert(had.push(*app).map_values(f) =~= had.map_values(f).push(f(*app)));
        }
        if same_text(app.extends.as_str(), id) {
            push_data(
                &mut out,
                PackageData {
                    name: own(app.app_id.as_str()),
                    display_name: title_of(app),
                    description: own(app.summary.as_str()),
                    backend: 1,
                    installed: list_has(installed, app.app_id.as_str()),
                    ..PackageData::blank()
                },
            );
        }
    }
    proof {
        assert(apps@.take(apps@.len() as int) =~= apps@);
    }
    out
}

/// The page of an application.
#[derive(Debug, Clone)]
pub struct AppPage {
    pub name: String,
    pub summary: String,
    pub description: String,
    pub developer: String,
    pub version: String,
    pub version_date: String,
    pub changelog: String,
    pub url_homepage: String,
    pub url_bugtracker: String,
    pub url_translate: String,
    pub url_vcs: String,
    pub categories: Vec<String>,
    pub addons: Vec<PackageData>,
    /// Where to get a picture, and where to put it.
    pub picture: Option<(String, String)>,
}

/// The page of an application, from the catalogue.
pub fn load_flatpak_detail(apps: &[CachedRemoteApp], installed: &[String], id: &str) -> (r: Option<
    AppPage,
>)
    ensures
        match (app_with(apps@, id@), r) {
            (Some(app), Some(page)) => {
                &&& page.name@ == app_title(app)
                &&& page.summary@ == app.summary@
                &&& page.description@ == paragraphs(app.description@)
                &&& page.developer@ == app.developer@
                &&& page.version@ == app.version@
                &&& page.version_date@ == app.version_date@
                &&& page.changelog@ == paragraphs(app.changelog@)
                &&& page.url_homepage@ == app.url_homepage@
                &&& page.url_bugtracker@ == app.url_bugtracker@
                &&& page.url_translate@ == app.url_translate@
                &&& page.url_vcs@ == app.url_vcs@
                &&& texts(page.categories@) == texts(app.categories@)
                &&& data_models(page.addons@) == addons_of(apps@, texts(installed@), id@)
                &&& match page.picture {
                    Some((url, path)) => {
                        &&& app.screenshot_url@.len() > 0
                        &&& url@ == app.screenshot_url@
                        &&& path@ == picture_path(id@)
                    },
                    None => app.screenshot_url@.len() == 0,
                }
            },
            (None, None) => true,
            _ => false,
        },
{
    match find_app(apps, id) {
        Some(app) => {
            let picture = if filled(app.screenshot_url.as_str()) {
                Some((own(app.screenshot_url.as_str()), picture_file(id)))
            } else {
                None
            };
            Some(
                AppPage {
                    name: title_of(app),
                    summary: own(app.summary.as_str()),
                    description: spaced(app.description.as_str()),
                    developer: own(app.developer.as_str()),
                    version: own(app.version.as_str()),
                    version_date: own(app.version_date.as_str()),
                    changelog: spaced(app.changelog.as_str()),
                    url_homepage: own(app.url_homepage.as_str()),
                    url_bugtracker: own(app.url_bugtracker.as_str()),
                    url_translate: own(app.url_translate.as_str()),
                    url_vcs: own(app.url_vcs.as_str()),
                    categories: own_all(app.categories.as_slice()),
                    addons: find_addons(apps, installed, id),
                    picture,
                },
            )
        },
        None => None,
    }
}

/// Where the icon of an application lies, empty where it has none or is not in the catalogue.
pub fn load_flatpak_icon(apps: &[CachedRemoteApp], id: &str) -> (out: String)
    ensures
        out@ == (match app_with(apps@, id@) {
            Some(app) => icon_path(app.icon_name@),
            None => Seq::<char>::empty(),
        }),
{
    match find_app(apps, id) {
        Some(app) => icon_file(app.icon_name.as_str()),
        None => {
            let out = String::new();
            proof {
                assert(out@ =~= Seq::<char>::empty());
            }
            out
        },
    }
}

// ---------------------------------------------------------------------------
// The browser of a remote

/// The remote to browse: the one asked for, or else the first one, or else Flathub.
pub fn browsed_remote(asked: &str, remotes: &[String]) -> (out: String)
    ensures
        out@ == (if asked@.len() > 0 {
            asked@
        } else if remotes@.len() > 0 {
            remotes@[0]@
        } else {
            "flathub"@
        }),
{
    if filled(asked) {
        own(asked)
    } else if remotes.len() > 0 {
        own(remotes[0].as_str())
    } else {
        own("flathub")
    }
}

/// The mark of results that are always shown.
pub const ALWAYS: u64 = u64::MAX;

/// Rows of the browser: at most one page after those that are shown, and how many there are in all.
pub fn browser_rows(
    apps: &[CachedRemoteApp],
    installed: &[String],
    remote: &str,
    category: &str,
    search: &str,
    shown: usize,
) -> (r: (Vec<PackageData>, usize))
    ensures
        ({
            let all = apps_shown(apps@, texts(installed@), remote@, category@, search@);
            &&& data_models(r.0@) == rows_from(all, shown as int, LONG_PAGE as int)
            &&& r.1 == all.len()
        }),
{
    let all = apps_to_package_data(apps, installed, remote, category, search);
    let n: usize = all.len();
    proof {
        assert(data_models(all@).len() == n);
    }
    (copy_rows(all.as_slice(), shown, LONG_PAGE), n)
}

/// The browser of a remote.
#[derive(Debug, Clone)]
pub struct Browser {
    pub rows: Vec<PackageData>,
    pub total_matches: i32,
    pub loading: bool,
    pub ready: bool,
    pub loading_more: bool,
    /// The number of the last search.
    pub serial: u64,
}

/// Whether results are shown: those of the last search, and those that always are.
pub open spec fn is_current(serial: u64, last: u64) -> bool {
    serial == ALWAYS || serial == last
}

impl Browser {
    /// An empty browser.
    pub fn new() -> (b: Browser)
        ensures
            b.rows@.len() == 0,
            b.total_matches == 0,
            !b.loading,
            !b.ready,
            !b.loading_more,
            b.serial == 0,
    {
        Browser {
            rows: Vec::new(),
            total_matches: 0,
            loading: false,
            ready: false,
            loading_more: false,
            serial: 0,
        }
    }

    /// Starts a search and gives it a number; the results of earlier ones no longer count. Numbers
    /// wrap around.
    pub fn start_search(&mut self) -> (serial: u64)
        ensures
            serial == old(self).serial.wrapping_add(1),
            final(self).serial == serial,
            data_models(final(self).rows@) == data_models(old(self).rows@),
            final(self).total_matches == old(self).total_matches,
            final(self).loading == old(self).loading,
            final(self).ready == old(self).ready,
            final(self).loading_more == old(self).loading_more,
    {
        self.serial = self.serial.wrapping_add(1);
        self.serial
    }

    /// Shows the results of a search, unless they no longer count.
    pub fn show_results(&mut self, serial: u64, rows: Vec<PackageData>, total: usize)
        ensures
            final(self).serial == old(self).serial,
            is_current(serial, old(self).serial) ==> {
                &&& final(self).rows == rows
                &&& final(self).total_matches == shown_count(total as nat)
                &&& !final(self).loading
                &&& final(self).ready
                &&& !final(self).loading_more
            },
            !is_current(serial, old(self).serial) ==> *final(self) == *old(self),
    {
        if serial == ALWAYS || serial == self.serial {
            self.rows = rows;
            self.total_matches = to_count(total as u128);
            self.loading = false;
            self.ready = true;
            self.loading_more = false;
        }
    }

    /// Adds a page behind the rows that are shown.
    pub fn append_page(&mut self, rows: Vec<PackageData>)
        ensures
            final(self).rows@ == old(self).rows@ + rows@,
            !final(self).loading_more,
            final(self).total_matches == old(self).total_matches,
            final(self).loading == old(self).loading,
            final(self).ready == old(self).ready,
            final(self).serial == old(self).serial,
    {
        let mut rows = rows;
        self.rows.append(&mut rows);
        self.loading_more = false;
    }
}

/// The number of a search after `later` more were started.
pub open spec fn serial_after(serial: u64, later: nat) -> u64 {
    ((serial + later) % 0x1_0000_0000_0000_0000) as u64
}

/// However many searches were started since, the results of an earlier one are not shown, until the
/// numbers have gone round.
pub proof fn earlier_results_are_dropped(serial: u64, later: nat)
    requires
        serial != ALWAYS,
        0 < later < 0x1_0000_0000_0000_0000,
    ensures
        !is_current(serial, serial_after(serial, later)),
        serial_after(serial, later) == serial_after(serial, (later - 1) as nat).wrapping_add(1),
{
}

/// The rows that are shown and the page behind them are again the first rows of the list: asking for
/// more goes on where the rows end.
pub proof fn next_page_follows<A>(all: Seq<A>, shown: int, most: int)
    requires
        0 <= shown <= all.len(),
        0 <= most,
    ensures
        all.take(shown) + rows_from(all, shown, most) == all.take(
            if shown + most <= all.len() {
                shown + most
            } else {
                all.len() as int
            },
        ),
{
    let end = if shown + most <= all.len() {
        shown + most
    } else {
        all.len() as int
    };
    assert(all.take(shown) + rows_from(all, shown, most) =~= all.take(end));
}

// ---------------------------------------------------------------------------
// The packages of a repository

/// The rows of a repository that are shown at first, whether there are more, and how many.
pub fn first_repo_rows(list: &[PackageData]) -> (r: (Vec<PackageData>, bool, i32))
    ensures
        data_models(r.0@) == rows_from(data_models(list@), 0, LONG_PAGE as int),
        r.1 == (list@.len() > LONG_PAGE),
        r.2 == (if list@.len() > LONG_PAGE {
            shown_count((list@.len() - LONG_PAGE) as nat)
        } else {
            0
        }),
{
    let n: usize = list.len();
    let rows = copy_rows(list, 0, LONG_PAGE);
    if n > LONG_PAGE {
        (rows, true, to_count((n - LONG_PAGE) as u128))
    } else {
        (rows, false, 0)
    }
}

/// The page of an application is that of the first one with its identifier.
pub proof fn first_app_is_shown(apps: Seq<CachedRemoteApp>, i: int, id: Seq<char>)
    ensures
        0 <= i < apps.len() && (forall|j: int|
            0 <= j < i ==> (#[trigger] apps[j]).app_id@ != apps[i].app_id@) ==> app_with(
            apps,
            apps[i].app_id@,
        ) == Some(apps[i]),
        (forall|j: int| 0 <= j < apps.len() ==> (#[trigger] apps[j]).app_id@ != id) ==> app_with(
            apps,
            id,
        ) is None,
    decreases apps.len(),
{
    if apps.len() > 0 {
        let rest = apps.skip(1);
        first_app_is_shown(rest, i - 1, id);
        if 0 < i < apps.len() && (forall|j: int|
            0 <= j < i ==> (#[trigger] apps[j]).app_id@ != apps[i].app_id@) {
            assert(apps[0].app_id@ != apps[i].app_id@);
            assert(rest[i - 1] == apps[i]);
            assert forall|j: int| 0 <= j < i - 1 implies (#[trigger] rest[j]).app_id@
                != rest[i - 1].app_id@ by {
                assert(rest[j] == apps[j + 1]);
            }
        }
        if forall|j: int| 0 <= j < apps.len() ==> (#[trigger] apps[j]).app_id@ != id {
            assert(apps[0].app_id@ != id);
            assert forall|j: int| 0 <= j < rest.len() implies (#[trigger] rest[j]).app_id@ != id by {
                assert(rest[j] == apps[j + 1]);
            }
        }
    }
}

/// The add-ons of an application are exactly the ones that extend it, each marked where it is
/// installed.
pub proof fn addons_extend_their_app(
    apps: Seq<CachedRemoteApp>,
    installed: Seq<Seq<char>>,
    id: Seq<char>,
    app: CachedRemoteApp,
)
    ensures
        app.extends@ == id ==> addons_of(apps.push(app), installed, id) == addons_of(
            apps,
            installed,
            id,
        ).push(addon_data(app, installed)) && addon_data(app, installed).name == app.app_id@
            && addon_data(app, installed).installed == installed.contains(app.app_id@)
            && addon_data(app, installed).description == app.summary@,
        app.extends@ != id ==> addons_of(apps.push(app), installed, id) == addons_of(
            apps,
            installed,
            id,
        ),
{
    let f = |a: CachedRemoteApp| addon_data(a, installed);
    apps.lemma_filter_push(app, extending(id));
    let had = apps.filter(extending(id));
    if app.extends@ == id {
        assert(had.push(app).map_values(f) =~= had.map_values(f).push(f(app)));
    }
}

/// Pictures of different applications are put at paths without dots and slashes in their names.
pub proof fn picture_paths_are_flat(id: Seq<char>)
    ensures
        picture_path(id) == "/tmp/xpm_ss_"@ + id.map_values(
            |c: char|
                if c == '/' || c == '.' {
                    '_'
                } else {
                    c
                },
        ) + ".jpg"@,
{
    reveal_strlit("/");
    reveal_strlit(".");
    reveal_strlit("_");
    assert("/"@ =~= seq!['/'] && "."@ =~= seq!['.'] && "_"@ =~= seq!['_']);
    characters_are_replaced(id, '/', '_');
    let once = replaced(id, "/"@, "_"@);
    characters_are_replaced(once, '.', '_');
    assert(replaced(once, "."@, "_"@) =~= id.map_values(
        |c: char|
            if c == '/' || c == '.' {
                '_'
            } else {
                c
            },
    ));
}

/// A line end becomes a blank line between two paragraphs; a single line stays as it is.
pub proof fn lines_become_paragraphs(a: Seq<char>, b: Seq<char>)
    requires
        !a.contains('\n'),
        !b.contains('\n'),
    ensures
        paragraphs(a + "\n"@ + b) == a + "\n\n"@ + b,
        paragraphs(a) == a,
{
    reveal_strlit("\n");
    reveal_strlit("\n\n");
    let (one, two) = ("\n"@, "\n\n"@);
    let s = a + one + b;
    let rest = one + b;
    held_within(a, one, b);
    assert(s =~= a + rest);
    replacing_starts_at_the_pattern(a, rest, two, one);
    replacing_starts_at_the_pattern(b, seq![], two, one);
    assert(!begins(rest, two)) by {
        if begins(rest, two) {
            assert(rest.take(2)[1] == two[1]);
            assert(b[0] == '\n');
        }
    }
    assert(rest.skip(1) =~= b);
    assert(seq![rest[0]] + b =~= rest);
    assert(replaced(s, two, one) =~= s);
    replacing_starts_at_the_pattern(a, rest, one, two);
    replacing_starts_at_the_pattern(b, b, one, two);
    assert(replaced(s, one, two) =~= a + two + b);
    assert(!holds(a, one)) by {
        if holds(a, one) {
            let i = choose|i: int| 0 <= i <= a.len() && begins(#[trigger] a.skip(i), one);
            assert(a.skip(i).take(1)[0] == '\n');
            assert(a[i] == '\n');
        }
    }
}

} // verus!
