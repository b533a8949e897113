//! What is kept between runs: the settings, the lists of packages, and the catalogues.
use vstd::prelude::*;

use crate::listing::{blank_data, data_models, push_data, DataModel, PackageData};
use crate::loading::StatsData;
use crate::text::own;

verus! {

// ---------------------------------------------------------------------------
// Settings

/// The settings.
#[derive(Debug, Clone, Copy, PartialEq, Eq, Structural)]
pub struct AppConfig {
    pub flatpak_enabled: bool,
    pub check_updates_on_start: bool,
    pub notify_interval_minutes: u32,
    pub parallel_downloads: u32,
    pub tray_enabled: bool,
    pub tray_check_interval_minutes: u32,
    pub aur_pill_dismissed: bool,
    pub distro_warning_dismissed: bool,
}

/// The settings unless they were changed.
pub open spec fn default_settings() -> AppConfig {
    AppConfig {
        flatpak_enabled: true,
        check_updates_on_start: false,
        notify_interval_minutes: 30,
        parallel_downloads: 5,
        tray_enabled: false,
        tray_check_interval_minutes: 30,
        aur_pill_dismissed: false,
        distro_warning_dismissed: false,
    }
}

impl Default for AppConfig {
    fn default() -> (c: AppConfig)
        ensures
            c == default_settings(),
    {
        AppConfig {
            flatpak_enabled: true,
            check_updates_on_start: false,
            notify_interval_minutes: 30,
            parallel_downloads: 5,
            tray_enabled: false,
            tray_check_interval_minutes: 30,
            aur_pill_dismissed: false,
            distro_warning_dismissed: false,
        }
    }
}

/// The settings that were read, or the default ones where none could be.
pub fn load_config(read: Option<AppConfig>) -> (c: AppConfig)
    ensures
        c == (match read {
            Some(settings) => settings,
            None => default_settings(),
        }),
{
    match read {
        Some(settings) => settings,
        None => AppConfig::default(),
    }
}

/// The file of the settings.
pub fn config_path(home: &str) -> (out: String)
    ensures
        out@ == home@ + "/.config/xpm/config.json"@,
{
    let mut out = own(home);
    out.append("/.config/xpm/config.json");
    out
}

// ---------------------------------------------------------------------------
// Packages

/// A package as it is kept.
#[derive(Debug, Clone)]
pub struct CachedPkg {
    pub name: String,
    pub display_name: String,
    pub version: String,
    pub description: String,
    pub repository: String,
    pub backend: i32,
    pub installed: bool,
    pub has_update: bool,
    pub installed_size: String,
}

/// A package as it is kept.
pub struct CachedModel {
    pub name: Seq<char>,
    pub display_name: Seq<char>,
    pub version: Seq<char>,
    pub description: Seq<char>,
    pub repository: Seq<char>,
    pub backend: i32,
    pub installed: bool,
    pub has_update: bool,
    pub installed_size: Seq<char>,
}

impl View for CachedPkg {
    type V = CachedModel;

    open spec fn view(&self) -> CachedModel {
        CachedModel {
            name: self.name@,
            display_name: self.display_name@,
            version: self.version@,
            description: self.description@,
            repository: self.repository@,
            backend: self.backend,
            installed: self.installed,
            has_update: self.has_update,
            installed_size: self.installed_size@,
        }
    }
}

/// The contents of a list of packages that are kept.
pub open spec fn cached_models(list: Seq<CachedPkg>) -> Seq<CachedModel> {
    list.map_values(|c: CachedPkg| c@)
}

/// What is kept of a package.
pub open spec fn to_cached(d: DataModel) -> CachedModel {
    CachedModel {
        name: d.name,
        display_name: d.display_name,
        version: d.version,
        description: d.description,
        repository: d.repository,
        backend: d.backend,
        installed: d.installed,
        has_update: d.has_update,
        installed_size: d.installed_size,
    }
}

/// A package that was kept, as a list shows it.
pub open spec fn from_cached(c: CachedModel) -> DataModel {
    DataModel {
        name: c.name,
        display_name: c.display_name,
        version: c.version,
        description: c.description,
        repository: c.repository,
        backend: c.backend,
        installed: c.installed,
        has_update: c.has_update,
        installed_size: c.installed_size,
        ..blank_data()
    }
}

/// What is kept of a package.
pub fn pkg_to_cached(p: &PackageData) -> (c: CachedPkg)
    ensures
        c@ == to_cached(p@),
{
    CachedPkg {
        name: own(p.name.as_str()),
        display_name: own(p.display_name.as_str()),
        version: own(p.version.as_str()),
        description: own(p.description.as_str()),
        repository: own(p.repository.as_str()),
        backend: p.backend,
        installed: p.installed,
        has_update: p.has_update,
        installed_size: own(p.installed_size.as_str()),
    }
}

/// A package that was kept, as a list shows it.
pub fn cached_to_pkg(c: &CachedPkg) -> (p: PackageData)
    ensures
        p@ == from_cached(c@),
{
    PackageData {
        name: own(c.name.as_str()),
        display_name: own(c.display_name.as_str()),
        version: own(c.version.as_str()),
        description: own(c.description.as_str()),
        repository: own(c.repository.as_str()),
        backend: c.backend,
        installed: c.installed,
        has_update: c.has_update,
        installed_size: own(c.installed_size.as_str()),
        ..PackageData::blank()
    }
}

/// The lists as they are kept, with the time at which the database of pacman was last changed.
#[derive(Debug, Clone)]
pub struct PackageCache {
    pub pacman_db_mtime: u64,
    pub installed: Vec<CachedPkg>,
    pub updates: Vec<CachedPkg>,
    pub flatpak: Vec<CachedPkg>,
    pub pacman_count: i32,
    pub flatpak_count: i32,
    pub orphan_count: i32,
    pub update_count: i32,
    pub cache_size: String,
}

fn keep_all(list: &[PackageData], out: &mut Vec<CachedPkg>)
    ensures
        cached_models(final(out)@) == cached_models(old(out)@) + data_models(list@).map_values(
            |d: DataModel| to_cached(d),
        ),
{
    let ghost first = cached_models(out@);
    let ghost f = |d: DataModel| to_cached(d);
    let ghost all = data_models(list@).map_values(f);
    proof {
        assert(first + all.take(0) =~= first);
    }
    for i in 0..list.len()
        invariant
            f == (|d: DataModel| to_cached(d)),
            all == data_models(list@).map_values(f),
            cached_models(out@) == first + all.take(i as int),
    {
        let ghost had = out@;
        let c = pkg_to_cached(&list[i]);
        out.push(c);
        proof {
            assert(cached_models(out@) =~= cached_models(had).push(c@));
            assert(all[i as int] == c@);
            assert((first + all.take(i as int)).push(c@) =~= first + all.take(i + 1));
        }
    }
    proof {
        assert(all.take(all.len() as int) =~= all);
    }
}

/// What is kept of the lists; the native updates and those of Flatpak go together.
pub fn save_package_cache(
    mtime: u64,
    installed: &[PackageData],
    updates: &[PackageData],
    flatpak_updates: &[PackageData],
    flatpak: &[PackageData],
    stats: &StatsData,
) -> (c: PackageCache)
    ensures
        c.pacman_db_mtime == mtime,
        cached_models(c.installed@) == data_models(installed@).map_values(
            |d: DataModel| to_cached(d),
        ),
        cached_models(c.updates@) == (data_models(updates@) + data_models(
            flatpak_updates@,
        )).map_values(|d: DataModel| to_cached(d)),
        cached_models(c.flatpak@) == data_models(flatpak@).map_values(
            |d: DataModel| to_cached(d),
        ),
        c.pacman_count == stats.pacman_count,
        c.flatpak_count == stats.flatpak_count,
        c.orphan_count == stats.orphan_count,
        c.update_count == stats.update_count,
        c.cache_size@ == stats.cache_size@,
{
    let ghost f = |d: DataModel| to_cached(d);
    let mut a: Vec<CachedPkg> = Vec::new();
    let mut b: Vec<CachedPkg> = Vec::new();
    let mut c: Vec<CachedPkg> = Vec::new();
    proof {
        assert(cached_models(a@) =~= seq![]);
    }
    keep_all(installed, &mut a);
    keep_all(updates, &mut b);
    keep_all(flatpak_updates, &mut b);
    keep_all(flatpak, &mut c);
    proof {
        assert(cached_models(a@) =~= data_models(installed@).map_values(f));
        assert(cached_models(b@) =~= (data_models(updates@) + data_models(
            flatpak_updates@,
        )).map_values(f));
        assert(cached_models(c@) =~= data_models(flatpak@).map_values(f));
    }
    PackageCache {
        pacman_db_mtime: mtime,
        installed: a,
        updates: b,
        flatpak: c,
        pacman_count: stats.pacman_count,
        flatpak_count: stats.flatpak_count,
        orphan_count: stats.orphan_count,
        update_count: stats.update_count,
        cache_size: own(stats.cache_size.as_str()),
    }
}

/// The lists that were kept, unless the database of pacman has changed since.
pub fn load_package_cache(read: Option<PackageCache>, mtime: u64) -> (r: Option<PackageCache>)
    ensures
        r == (match read {
            Some(cache) => if cache.pacman_db_mtime == mtime {
                Some(cache)
            } else {
                None
            },
            None => None,
        }),
{
    match read {
        Some(cache) => if cache.pacman_db_mtime == mtime {
            Some(cache)
        } else {
            None
        },
        None => None,
    }
}

/// The packages of a list that was kept.
pub fn restore(list: &[CachedPkg]) -> (out: Vec<PackageData>)
    ensures
        data_models(out@) == cached_models(list@).map_values(|c: CachedModel| from_cached(c)),
{
    let ghost f = |c: CachedModel| from_cached(c);
    let ghost all = cached_models(list@).map_values(f);
    let mut out: Vec<PackageData> = Vec::new();
    for i in 0..list.len()
        invariant
            f == (|c: CachedModel| from_cached(c)),
            all == cached_models(list@).map_values(f),
            data_models(out@) == all.take(i as int),
    {
        let p = cached_to_pkg(&list[i]);
        proof {
            assert(all[i as int] == p@);
            assert(all.take(i as int).push(p@) =~= all.take(i + 1));
        }
        push_data(&mut out, p);
    }
    proof {
        assert(all.take(all.len() as int) =~= all);
    }
    out
}

/// The file of the lists.
pub fn pkg_cache_path(home: &str) -> (out: String)
    ensures
        out@ == home@ + "/.local/share/xpm/pkg_cache.json"@,
{
    let mut out = own(home);
    out.append("/.local/share/xpm/pkg_cache.json");
    out
}

// ---------------------------------------------------------------------------
// Catalogues

/// The file of the catalogue of a remote.
pub fn remote_cache_path(home: &str, remote: &str) -> (out: String)
    ensures
        out@ == home@ + "/.local/share/xpm/remote_"@ + remote@ + ".json"@,
{
    let mut out = own(home);
    out.append("/.local/share/xpm/remote_");
    out.append(remote);
    out.append(".json");
    out
}

/// Whether a catalogue that was kept still holds: for a day. Without a known age it does not.
pub fn remote_cache_valid(age_secs: Option<u64>) -> (r: bool)
    ensures
        r == (age_secs matches Some(age) && age < 86400),
{
    match age_secs {
        Some(age) => age < 86400,
        None => false,
    }
}

// ---------------------------------------------------------------------------
// Laws

/// A package that was kept is shown as it was, but for what is not kept of it.
pub proof fn cache_gives_back(d: DataModel)
    ensures
        from_cached(to_cached(d)) == (DataModel {
            licenses: seq![],
            url: seq![],
            dependencies: seq![],
            required_by: seq![],
            selected: false,
            explicit: false,
            ..d
        }),
{
}

/// What is kept of a package that was kept is the same.
pub proof fn cache_is_stable(c: CachedModel)
    ensures
        to_cached(from_cached(c)) == c,
{
}

/// Every field of a package is kept under its own name.
pub proof fn fields_are_kept(d: DataModel)
    ensures
        to_cached(d).name == d.name,
        to_cached(d).display_name == d.display_name,
        to_cached(d).version == d.version,
        to_cached(d).description == d.description,
        to_cached(d).repository == d.repository,
        to_cached(d).backend == d.backend,
        to_cached(d).installed == d.installed,
        to_cached(d).has_update == d.has_update,
        to_cached(d).installed_size == d.installed_size,
{
}

} // verus!
