//! How the program starts, and the settings as the window shows them.
use vstd::prelude::*;

use crate::cache::AppConfig;
use crate::conf::{is_custom, shown_parallel_downloads};
use crate::listing::{has_package_ending, is_arch_package, package_files_are_known};
use crate::number::decimal;
use crate::text::{ends, filled, has_word, holds, list_has, opt_str, own, texts, to_chars};

verus! {

// ---------------------------------------------------------------------------
// The environment

/// The value that the search path of Qt's plugins is given: only where it has none.
pub fn qt_plugin_path(current: Option<&str>) -> (r: Option<String>)
    ensures
        match r {
            Some(p) => {
                &&& current is None || current->0@.len() == 0
                &&& p@ == "/usr/lib/qt6/plugins:/usr/lib/x86_64-linux-gnu/qt6/plugins"@
            },
            None => current is Some && current->0@.len() > 0,
        },
{
    let unset = match current {
        Some(p) => !filled(p),
        None => true,
    };
    if unset {
        Some(own("/usr/lib/qt6/plugins:/usr/lib/x86_64-linux-gnu/qt6/plugins"))
    } else {
        None
    }
}

/// The directories of Qt's libraries.
pub open spec fn qt_libraries() -> Seq<char> {
    "/usr/lib/qt6:/usr/lib/x86_64-linux-gnu/qt6"@
}

/// The value that the search path of libraries is given: the directories of Qt behind the others,
/// unless they are in it.
pub fn library_path(current: Option<&str>) -> (r: Option<String>)
    ensures
        ({
            let now = match opt_str(current) {
                Some(p) => p,
                None => seq![],
            };
            match r {
                Some(p) => {
                    &&& !(holds(now, "/usr/lib/qt6"@))
                    &&& p@ == (if now.len() == 0 {
                        qt_libraries()
                    } else {
                        now + ":/usr/lib/qt6:/usr/lib/x86_64-linux-gnu/qt6"@
                    })
                },
                None => holds(now, "/usr/lib/qt6"@),
            }
        }),
{
    let now = match current {
        Some(p) => own(p),
        None => String::new(),
    };
    proof {
        if current is None {
            assert(now@ =~= seq![]);
        }
    }
    let chars = to_chars(now.as_str());
    if has_word(chars.as_slice(), "/usr/lib/qt6") {
        return None;
    }
    if !filled(now.as_str()) {
        return Some(own("/usr/lib/qt6:/usr/lib/x86_64-linux-gnu/qt6"));
    }
    let mut out = now;
    out.append(":/usr/lib/qt6:/usr/lib/x86_64-linux-gnu/qt6");
    Some(out)
}

// ---------------------------------------------------------------------------
// Arguments

/// How the program was started: only in the tray, and with which package file.
#[derive(Debug, Clone)]
pub struct Launch {
    pub tray_only: bool,
    pub local_package: Option<String>,
}

/// The first package file in a list of arguments.
pub open spec fn first_package(list: Seq<Seq<char>>) -> Option<Seq<char>>
    decreases list.len(),
{
    if list.len() == 0 {
        None
    } else if has_package_ending(list[0]) {
        Some(list[0])
    } else {
        first_package(list.skip(1))
    }
}

/// Reads the arguments; the first one is the program itself.
pub fn read_args(args: &[String]) -> (l: Launch)
    ensures
        l.tray_only == texts(args@).contains("--tray"@),
        match l.local_package {
            Some(p) => args@.len() > 0 && first_package(texts(args@).skip(1)) == Some(p@),
            None => args@.len() > 0 ==> first_package(texts(args@).skip(1)) is None,
        },
{
    let tray_only = list_has(args, "--tray");
    let ghost all = texts(args@);
    if args.len() == 0 {
        return Launch { tray_only, local_package: None };
    }
    for i in 1..args.len()
        invariant
            all == texts(args@),
            tray_only == all.contains("--tray"@),
            args@.len() > 0,
            first_package(all.skip(1)) == first_package(all.skip(i as int)),
    {
        proof {
            assert(all.skip(i as int)[0] == args@[i as int]@);
            assert(all.skip(i as int).skip(1) =~= all.skip(i + 1));
        }
        if is_arch_package(args[i].as_str()) {
            return Launch { tray_only, local_package: Some(own(args[i].as_str())) };
        }
    }
    proof {
        assert(all.skip(all.len() as int).len() == 0);
    }
    Launch { tray_only, local_package: None }
}

// ---------------------------------------------------------------------------
// Settings

/// The settings as the window holds them.
#[derive(Debug, Clone, Copy, PartialEq, Eq, Structural)]
pub struct SettingsForm {
    pub flatpak_enabled: bool,
    pub check_updates_on_start: bool,
    pub notify_interval: i32,
    pub parallel_downloads: i32,
    pub tray_enabled: bool,
    pub tray_check_interval: i32,
    pub aur_pill_dismissed: bool,
    pub distro_warning_dismissed: bool,
}

/// The settings that the window shows. Numbers that are too large wrap around.
pub open spec fn form_of(c: AppConfig, parallel: u32, dismissed: bool) -> SettingsForm {
    SettingsForm {
        flatpak_enabled: c.flatpak_enabled,
        check_updates_on_start: c.check_updates_on_start,
        notify_interval: c.notify_interval_minutes as i32,
        parallel_downloads: parallel as i32,
        tray_enabled: c.tray_enabled,
        tray_check_interval: c.tray_check_interval_minutes as i32,
        aur_pill_dismissed: c.aur_pill_dismissed,
        distro_warning_dismissed: dismissed,
    }
}

/// The settings that a form holds. Numbers below none wrap around.
pub open spec fn settings_in(f: SettingsForm) -> AppConfig {
    AppConfig {
        flatpak_enabled: f.flatpak_enabled,
        check_updates_on_start: f.check_updates_on_start,
        notify_interval_minutes: f.notify_interval as u32,
        parallel_downloads: f.parallel_downloads as u32,
        tray_enabled: f.tray_enabled,
        tray_check_interval_minutes: f.tray_check_interval as u32,
        aur_pill_dismissed: f.aur_pill_dismissed,
        distro_warning_dismissed: f.distro_warning_dismissed,
    }
}

fn to_signed(n: u32) -> (r: i32)
    ensures
        r == n as i32,
{
    #[verifier::truncate]
    (n as i32)
}

fn to_unsigned(n: i32) -> (r: u32)
    ensures
        r == n as u32,
{
    #[verifier::truncate]
    (n as u32)
}

/// What the window shows of the settings at the start: the form, and the number of parallel
/// downloads in a field of its own where the settings do not offer it. The number of pacman comes
/// before that of the program; the warning about the distribution counts as not dismissed.
pub fn show_settings(c: &AppConfig, pacman: Option<u32>) -> (r: (SettingsForm, Option<String>))
    ensures
        ({
            let parallel = match pacman {
                Some(n) => n,
                None => c.parallel_downloads,
            };
            &&& r.0 == form_of(*c, parallel, false)
            &&& match r.1 {
                Some(text) => is_custom(parallel) && text@ == decimal(parallel as nat),
                None => !is_custom(parallel),
            }
        }),
{
    let (parallel, custom) = shown_parallel_downloads(pacman, c.parallel_downloads);
    let form = SettingsForm {
        flatpak_enabled: c.flatpak_enabled,
        check_updates_on_start: c.check_updates_on_start,
        notify_interval: to_signed(c.notify_interval_minutes),
        parallel_downloads: to_signed(parallel),
        tray_enabled: c.tray_enabled,
        tray_check_interval: to_signed(c.tray_check_interval_minutes),
        aur_pill_dismissed: c.aur_pill_dismissed,
        distro_warning_dismissed: false,
    };
    (form, custom)
}

/// The settings that a form holds.
pub fn build_config(f: &SettingsForm) -> (c: AppConfig)
    ensures
        c == settings_in(*f),
{
    AppConfig {
        flatpak_enabled: f.flatpak_enabled,
        check_updates_on_start: f.check_updates_on_start,
        notify_interval_minutes: to_unsigned(f.notify_interval),
        parallel_downloads: to_unsigned(f.parallel_downloads),
        tray_enabled: f.tray_enabled,
        tray_check_interval_minutes: to_unsigned(f.tray_check_interval),
        aur_pill_dismissed: f.aur_pill_dismissed,
        distro_warning_dismissed: f.distro_warning_dismissed,
    }
}

/// What the window shows of the settings is what it saves.
pub proof fn settings_survive_the_window(c: AppConfig)
    ensures
        settings_in(form_of(c, c.parallel_downloads, c.distro_warning_dismissed)) == c,
{
    wrapping_back(c.notify_interval_minutes);
    wrapping_back(c.parallel_downloads);
    wrapping_back(c.tray_check_interval_minutes);
}

proof fn wrapping_back(n: u32)
    ensures
        (n as i32) as u32 == n,
{
    assert((n as i32) as u32 == n) by (bit_vector);
}

/// The settings with the hint about the AUR put away.
pub fn dismiss_aur_pill(c: AppConfig) -> (r: AppConfig)
    ensures
        r == (AppConfig { aur_pill_dismissed: true, ..c }),
{
    AppConfig { aur_pill_dismissed: true, ..c }
}

/// The settings with the warning about the distribution put away.
pub fn dismiss_distro_warning(c: AppConfig) -> (r: AppConfig)
    ensures
        r == (AppConfig { distro_warning_dismissed: true, ..c }),
{
    AppConfig { distro_warning_dismissed: true, ..c }
}

/// What the settings and the way of starting lead to.
#[derive(Debug, Clone, Copy, PartialEq, Eq, Structural)]
pub struct StartPlan {
    /// Whether the tray icon is shown; then closing the window only hides it.
    pub tray: bool,
    /// The seconds between two searches for updates.
    pub interval_secs: u64,
    /// Whether the window is shown.
    pub show_window: bool,
    /// Whether the user is warned that this is not the distribution that the program is made for.
    pub warn_distro: bool,
}

/// Plans the start. A program that was started only in the tray has its icon whatever the settings
/// say, so that there is always a window or an icon.
pub fn plan_start(c: &AppConfig, tray_only: bool, xerolinux: bool) -> (p: StartPlan)
    ensures
        p == (StartPlan {
            tray: c.tray_enabled || tray_only,
            interval_secs: (c.tray_check_interval_minutes * 60) as u64,
            show_window: !tray_only,
            warn_distro: !xerolinux && !c.distro_warning_dismissed,
        }),
        p.tray || p.show_window,
{
    StartPlan {
        tray: c.tray_enabled || tray_only,
        interval_secs: c.tray_check_interval_minutes as u64 * 60,
        show_window: !tray_only,
        warn_distro: !xerolinux && !c.distro_warning_dismissed,
    }
}

// ---------------------------------------------------------------------------
// Laws

/// The first argument that names a package file is installed, whatever stands before and behind it.
pub proof fn first_package_file_counts(
    front: Seq<Seq<char>>,
    base: Seq<char>,
    behind: Seq<Seq<char>>,
)
    requires
        forall|i: int| 0 <= i < front.len() ==> !ends(#[trigger] front[i], ".pkg.tar.zst"@) && !ends(
            front[i],
            ".pkg.tar.xz"@,
        ) && !ends(front[i], ".pkg.tar.gz"@) && !ends(front[i], ".pkg.tar"@),
    ensures
        first_package(front.push(base + ".pkg.tar.zst"@) + behind) == Some(
            base + ".pkg.tar.zst"@,
        ),
        first_package(front.push(base + ".pkg.tar.xz"@) + behind) == Some(base + ".pkg.tar.xz"@),
        first_package(front) is None,
{
    package_files_are_known(base);
    first_of(front, base + ".pkg.tar.zst"@, behind);
    first_of(front, base + ".pkg.tar.xz"@, behind);
    none_of(front);
}

proof fn first_of(front: Seq<Seq<char>>, file: Seq<char>, behind: Seq<Seq<char>>)
    requires
        forall|i: int| 0 <= i < front.len() ==> !has_package_ending(#[trigger] front[i]),
        has_package_ending(file),
    ensures
        first_package(front.push(file) + behind) == Some(file),
    decreases front.len(),
{
    let all = front.push(file) + behind;
    if front.len() == 0 {
        assert(all[0] == file);
    } else {
        let more = front.skip(1);
        assert forall|i: int| 0 <= i < more.len() implies !has_package_ending(#[trigger] more[i]) by {
            assert(more[i] == front[i + 1]);
        }
        assert(!has_package_ending(front[0]));
        assert(all[0] == front[0]);
        first_of(more, file, behind);
        assert(all.skip(1) =~= more.push(file) + behind);
    }
}

proof fn none_of(list: Seq<Seq<char>>)
    requires
        forall|i: int| 0 <= i < list.len() ==> !has_package_ending(#[trigger] list[i]),
    ensures
        first_package(list) is None,
    decreases list.len(),
{
    if list.len() > 0 {
        let more = list.skip(1);
        assert forall|i: int| 0 <= i < more.len() implies !has_package_ending(#[trigger] more[i]) by {
            assert(more[i] == list[i + 1]);
        }
        assert(!has_package_ending(list[0]));
        none_of(more);
    }
}

/// Every setting is shown in its own field, and numbers that fit are shown as they are.
pub proof fn settings_have_their_fields(c: AppConfig, parallel: u32, dismissed: bool)
    requires
        c.notify_interval_minutes <= i32::MAX,
        c.tray_check_interval_minutes <= i32::MAX,
        parallel <= i32::MAX,
    ensures
        ({
            let f = form_of(c, parallel, dismissed);
            &&& f.flatpak_enabled == c.flatpak_enabled
            &&& f.check_updates_on_start == c.check_updates_on_start
            &&& f.notify_interval == c.notify_interval_minutes
            &&& f.parallel_downloads == parallel
            &&& f.tray_enabled == c.tray_enabled
            &&& f.tray_check_interval == c.tray_check_interval_minutes
            &&& f.aur_pill_dismissed == c.aur_pill_dismissed
            &&& f.distro_warning_dismissed == dismissed
        }),
{
}

} // verus!
