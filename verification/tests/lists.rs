use xpm::cache::{
    cached_to_pkg, config_path, load_config, load_package_cache, pkg_cache_path, pkg_to_cached,
    remote_cache_path, remote_cache_valid, restore, save_package_cache, AppConfig,
};
use xpm::catalogue::CachedRemoteApp;
use xpm::deps::NameMap;
use xpm::detail::{
    browsed_remote, browser_rows, find_addons, first_repo_rows, load_flatpak_detail,
    load_flatpak_icon, Browser, ALWAYS,
};
use xpm::filters::{
    apply_explicit_filter, filter_installed, filter_installed_flatpaks, filter_installed_grouped,
    filter_repo, split_installed, without_removed,
};
use xpm::listing::{
    build_desktop_name_map, get_local_package_info, humanize_package_name, is_arch_package,
    native_updates_need_reboot, update_selection_in_model, version_change, DesktopFile, PackageData,
};
use xpm::loading::StatsData;
use xpm::package::{PackageBackend, SearchResult};
use xpm::pages::{copy_rows, first_page, load_page, total_pages};
use xpm::repos::{
    fetch_flatpak_remotes, get_flatpak_installed_ids, group_installed_by_repo, initial,
    load_installed_flatpaks, load_pacman_repos, load_repo_descriptions, load_repo_packages,
    repo_display_order, repo_to_avatar_category,
};
use xpm::store::{apps_to_package_data, icon_file, search_results};
use xpm::version::Version;

fn row(name: &str) -> PackageData {
    PackageData { name: name.to_string(), display_name: name.to_uppercase(), ..PackageData::blank() }
}

fn names(list: &[PackageData]) -> Vec<&str> {
    list.iter().map(|p| p.name.as_str()).collect()
}

fn app(id: &str, name: &str, category: &str, extends: &str) -> CachedRemoteApp {
    CachedRemoteApp {
        app_id: id.to_string(),
        name: name.to_string(),
        summary: format!("Summary of {}", name),
        description: "One\n\nTwo\nThree".to_string(),
        categories: vec![category.to_string()],
        developer: "Dev".to_string(),
        screenshot_url: "https://example.org/a.png".to_string(),
        icon_name: format!("{}.png", id),
        extends: extends.to_string(),
        url_homepage: "https://example.org".to_string(),
        url_bugtracker: String::new(),
        url_translate: String::new(),
        url_vcs: String::new(),
        version: "1.0".to_string(),
        version_date: "2024-01-01".to_string(),
        changelog: "One line".to_string(),
    }
}

#[test]
fn names_for_people() {
    let files = vec![
        DesktopFile { stem: Some("org.gnome.Maps".to_string()), content: "[Desktop Entry]\nName=Maps\nExec=/usr/bin/gnome-maps %U\n".to_string() },
        DesktopFile { stem: Some("hidden".to_string()), content: "Name=Hidden\nNoDisplay=true\n".to_string() },
    ];
    let map = build_desktop_name_map(&files);
    assert_eq!(humanize_package_name("gnome-maps", &map), "Maps");
    assert_eq!(humanize_package_name("hidden", &map), "Hidden");
    assert_eq!(humanize_package_name("gtk-update-icon-cache", &map), "Gtk Update Icon Cache");
    assert!(!map.contains("hidden"));
}

#[test]
fn package_files() {
    assert!(is_arch_package("/tmp/foo-1.0-1-x86_64.pkg.tar.zst"));
    assert!(!is_arch_package("/tmp/foo.tar.gz"));
    let p = get_local_package_info("foo-bar-1.0-1-x86_64.pkg.tar.zst", Some(2048)).unwrap();
    assert_eq!(p.name, "foo-bar");
    assert_eq!(p.version, "1.0-1");
    assert_eq!(p.installed_size, "2.0 KB");
}

#[test]
fn a_change_of_version() {
    assert_eq!(version_change("1.0-1", "1.1-1"), "1.0-1 → 1.1-1");
}

#[test]
fn some_updates_need_a_restart() {
    assert!(native_updates_need_reboot(&[row("foo"), row("linux-zen")]));
    assert!(!native_updates_need_reboot(&[row("foo"), row("linux-docs")]));
}

#[test]
fn only_one_row_is_selected() {
    let mut list = vec![row("a"), row("b"), row("b")];
    update_selection_in_model(&mut list, "b", 0, true);
    assert_eq!(list.iter().map(|p| p.selected).collect::<Vec<_>>(), vec![false, true, false]);
    update_selection_in_model(&mut list, "b", 0, false);
    assert!(list.iter().all(|p| !p.selected));
    update_selection_in_model(&mut list, "b", 1, true);
    assert!(list.iter().all(|p| !p.selected));
}

#[test]
fn repositories_have_places_and_colours() {
    assert!(repo_display_order("core") < repo_display_order("extra"));
    assert!(repo_display_order("extra") < repo_display_order("somewhere"));
    assert_eq!(repo_to_avatar_category("core"), "System");
    assert_eq!(repo_to_avatar_category("core-testing"), "Science");
    assert_eq!(repo_to_avatar_category("other"), "Utility");
    assert_eq!(initial("foo"), "F");
}

#[test]
fn packages_are_grouped_by_repository() {
    let mut a = row("zeta");
    a.repository = "extra".to_string();
    let mut b = row("Alpha");
    b.repository = "extra".to_string();
    let mut c = row("base");
    c.repository = "core".to_string();
    let list = group_installed_by_repo(vec![a, b, c]);
    let headers: Vec<bool> = list.iter().map(|p| p.backend == -1).collect();
    assert_eq!(headers, vec![true, false, true, false, false]);
    assert_eq!(list[1].name, "base");
    assert_eq!(list[3].name, "Alpha");
    assert_eq!(list[4].name, "zeta");
    assert_eq!((list[1].installed_size.as_str(), list[1].required_by.as_str()), ("System", "B"));
    let mut packages: Vec<&str> = list.iter().filter(|p| p.backend != -1).map(|p| p.name.as_str()).collect();
    packages.sort();
    assert_eq!(packages, vec!["Alpha", "base", "zeta"]);
}

#[test]
fn lists_of_flatpak_are_read() {
    assert_eq!(fetch_flatpak_remotes("Name\nflathub\n\nfedora \n"), vec!["flathub", "fedora"]);
    assert_eq!(get_flatpak_installed_ids(" org.a.B \n\norg.c.D\n"), vec!["org.a.B", "org.c.D"]);
    let rows = load_installed_flatpaks("org.a.B\tApp\t1.2\tflathub\tA thing\n\n");
    assert_eq!(rows.len(), 1);
    assert_eq!(rows[0].name, "org.a.B");
    assert!(rows[0].installed);
    assert_eq!(rows[0].backend, 1);
}

#[test]
fn lists_of_repositories_are_read() {
    assert_eq!(load_pacman_repos("extra foo 1\ncore bar 2\nextra baz 3\n"), vec!["core", "extra"]);
    let descriptions = load_repo_descriptions("extra\tfoo\tA foo\ncore\tbaz\tAnother\nextra\tbaz\t \n", "extra");
    let rows = load_repo_packages("extra foo 1.0-1 [installed]\nextra baz 3-1\n", &descriptions, &NameMap::new());
    assert_eq!(names(&rows), vec!["foo", "baz"]);
    assert!(rows[0].installed && !rows[1].installed);
    assert_eq!((rows[0].description.as_str(), rows[1].description.as_str()), ("A foo", ""));
    assert_eq!((rows[0].repository.as_str(), rows[0].version.as_str()), ("extra", "1.0-1"));
}

#[test]
fn pages_hold_fifty_rows() {
    assert_eq!(total_pages(0), 1);
    assert_eq!(total_pages(50), 1);
    assert_eq!(total_pages(51), 2);
    let list: Vec<PackageData> = (0..120).map(|i| row(&format!("p{}", i))).collect();
    assert_eq!(first_page(&list).rows.len(), 50);
    assert_eq!(first_page(&list).total_pages, 3);
    let last = load_page(0, &list, 2).unwrap();
    assert_eq!(last.rows.len(), 20);
    assert_eq!(last.rows[0].name, "p100");
    assert!(load_page(0, &list, 3).unwrap().rows.is_empty());
    assert!(load_page(1, &list, 0).is_none());
    let mut all: Vec<PackageData> = Vec::new();
    for i in 0..3 {
        all.extend(load_page(0, &list, i).unwrap().rows);
    }
    assert_eq!(names(&all), names(&list));
    assert_eq!(names(&copy_rows(&list, 118, 10)), vec!["p118", "p119"]);
}

#[test]
fn lists_are_narrowed_by_name() {
    let mut list: Vec<PackageData> = (0..60).map(|i| row(&format!("p{}", i))).collect();
    list[3].display_name = "Firefox".to_string();
    list[4].description = "a fire thing".to_string();
    let p = filter_installed(&list, "FIRE");
    assert_eq!(names(&p.rows), vec!["p3"]);
    assert_eq!(p.total_pages, 1);
    let p = filter_installed(&list, "");
    assert_eq!((p.rows.len(), p.total_pages), (50, 2));
    assert_eq!(filter_installed_flatpaks(&list, "").len(), 60);
    assert_eq!(names(&filter_installed_flatpaks(&list, "p59")), vec!["p59"]);
    assert_eq!(names(&filter_repo(&list, "fire")), vec!["p3", "p4"]);
}

#[test]
fn letters_beyond_ascii_have_cases_too() {
    let list = vec![row("Äpfel"), row("birnen")];
    assert_eq!(names(&filter_installed_flatpaks(&list, "ÄPF")), vec!["Äpfel"]);
    assert_eq!(initial("ßtraße"), "SS");
    assert_eq!(initial(""), "?");
    assert_eq!(humanize_package_name("über-tool", &NameMap::new()), "Über Tool");
}

#[test]
fn groups_keep_their_headers() {
    let header = |n: &str| PackageData { backend: -1, ..row(n) };
    let mut list = vec![header("core"), row("aa"), row("b"), header("extra"), row("c"), header("x"), row("a3")];
    list[2].explicit = true;
    let out = filter_installed_grouped(&list, "a");
    assert_eq!(names(&out), vec!["core", "aa", "x", "a3"]);
    assert_eq!(filter_installed_grouped(&list, "").len(), 7);
    let out = apply_explicit_filter(&list, 1);
    assert_eq!(names(&out), vec!["core", "b", "core"]);
    let out = apply_explicit_filter(&list, 2);
    assert_eq!(names(&out), vec!["core", "aa", "core", "extra", "c", "extra", "x", "a3", "x"]);
    assert_eq!(apply_explicit_filter(&list, 0).len(), 7);
    let packages: Vec<&str> = out.iter().filter(|p| p.backend != -1).map(|p| p.name.as_str()).collect();
    assert_eq!(packages, vec!["aa", "c", "a3"]);
}

#[test]
fn removed_packages_are_gone() {
    let list = vec![row("a"), row("b"), row("c")];
    assert_eq!(names(&without_removed(&list, &["b".to_string()])), vec!["a", "c"]);
    let mut two = vec![row("a"), row("b")];
    two[0].installed = true;
    let (installed, others) = split_installed(&two);
    assert_eq!((names(&installed), names(&others)), (vec!["a"], vec!["b"]));
}

#[test]
fn applications_are_browsed() {
    let apps = vec![app("org.a", "Alpha", "Network", ""), app("org.b", "Beta", "Game", ""), app("org.a.plugin", "Plug", "Network", "org.a")];
    let rows = apps_to_package_data(&apps, &["org.b".to_string()], "flathub", "All", "");
    assert_eq!(names(&rows), vec!["org.a", "org.b"]);
    assert!(rows[0].explicit && !rows[1].explicit);
    assert!(rows[1].installed);
    assert_eq!(rows[0].required_by, "A");
    assert_eq!(rows[0].licenses, icon_file("org.a.png"));
    let rows = apps_to_package_data(&apps, &[], "flathub", "Game", "");
    assert_eq!(names(&rows), vec!["org.b"]);
    let rows = apps_to_package_data(&apps, &[], "flathub", "", "ALPH");
    assert_eq!(names(&rows), vec!["org.a"]);
}

#[test]
fn a_page_of_an_application() {
    let apps = vec![app("org.a/b.c", "Alpha", "Network", ""), app("org.a.plugin", "", "Network", "org.a/b.c")];
    let page = load_flatpak_detail(&apps, &["org.a.plugin".to_string()], "org.a/b.c").unwrap();
    assert_eq!(page.name, "Alpha");
    assert_eq!(page.description, "One\n\nTwo\n\nThree");
    assert_eq!(page.changelog, "One line");
    assert_eq!(page.picture.unwrap().1, "/tmp/xpm_ss_org_a_b_c.jpg");
    assert_eq!(names(&page.addons), vec!["org.a.plugin"]);
    assert_eq!(page.addons[0].display_name, "org.a.plugin");
    assert!(page.addons[0].installed);
    assert!(load_flatpak_detail(&apps, &[], "none").is_none());
    assert!(find_addons(&apps, &[], "none").is_empty());
    assert_eq!(load_flatpak_icon(&apps, "org.a/b.c"), icon_file("org.a/b.c.png"));
    assert_eq!(load_flatpak_icon(&apps, "none"), "");
}

#[test]
fn results_of_an_earlier_search_are_dropped() {
    let mut b = Browser::new();
    let first = b.start_search();
    let second = b.start_search();
    b.show_results(second, vec![row("new")], 1);
    b.show_results(first, vec![row("old")], 1);
    assert_eq!(names(&b.rows), vec!["new"]);
    b.show_results(ALWAYS, vec![row("all")], 7);
    assert_eq!((names(&b.rows), b.total_matches, b.ready), (vec!["all"], 7, true));
    b.append_page(vec![row("more")]);
    assert_eq!(names(&b.rows), vec!["all", "more"]);
}

#[test]
fn a_remote_is_shown_page_by_page() {
    let apps: Vec<CachedRemoteApp> = (0..200).map(|i| app(&format!("id{}", i), "N", "C", "")).collect();
    let (rows, total) = browser_rows(&apps, &[], "flathub", "All", "", 0);
    assert_eq!((rows.len(), total), (150, 200));
    let (more, _) = browser_rows(&apps, &[], "flathub", "All", "", 150);
    assert_eq!((more.len(), more[0].name.as_str()), (50, "id150"));
    assert_eq!(browsed_remote("", &[]), "flathub");
    assert_eq!(browsed_remote("", &["fedora".to_string()]), "fedora");
    assert_eq!(browsed_remote("x", &["fedora".to_string()]), "x");
    let list: Vec<PackageData> = (0..151).map(|i| row(&format!("p{}", i))).collect();
    let (rows, more, extra) = first_repo_rows(&list);
    assert_eq!((rows.len(), more, extra), (150, true, 1));
    let (rows, more, extra) = first_repo_rows(&list[..3]);
    assert_eq!((rows.len(), more, extra), (3, false, 0));
}

#[test]
fn a_search_has_few_results() {
    let found: Vec<SearchResult> = (0..140)
        .map(|i| SearchResult {
            name: format!("pkg{}", i),
            version: Version::new("1.0-1"),
            description: "d".to_string(),
            backend: PackageBackend::Pacman,
            repository: "extra".to_string(),
            installed: false,
            installed_version: None,
        })
        .collect();
    let apps: Vec<CachedRemoteApp> = (0..60).map(|i| app(&format!("id{}", i), "Name", "C", "")).collect();
    let rows = search_results(&found, &apps, &[], &NameMap::new(), "NAME");
    assert_eq!(rows.len(), 150);
    assert_eq!(rows[140].backend, 1);
    let rows = search_results(&[], &apps, &[], &NameMap::new(), "name");
    assert_eq!(rows.len(), 50);
}

#[test]
fn what_is_kept_is_given_back() {
    let mut p = row("foo");
    p.version = "1.0".to_string();
    p.installed = true;
    p.selected = true;
    let back = cached_to_pkg(&pkg_to_cached(&p));
    assert_eq!((back.name.as_str(), back.version.as_str(), back.installed), ("foo", "1.0", true));
    assert!(!back.selected);
    let stats = StatsData { pacman_count: 1, flatpak_count: 2, orphan_count: 3, update_count: 4, cache_size: "5 B".to_string() };
    let cache = save_package_cache(42, &[p], &[], &[], &[], &stats);
    assert_eq!(cache.pacman_count, 1);
    assert!(load_package_cache(Some(cache.clone()), 43).is_none());
    let cache = load_package_cache(Some(cache), 42).unwrap();
    assert_eq!(names(&restore(&cache.installed)), vec!["foo"]);
    assert!(load_package_cache(None, 42).is_none());
}

#[test]
fn settings_and_their_files() {
    let c = load_config(None);
    assert_eq!(c, AppConfig::default());
    assert_eq!(c.parallel_downloads, 5);
    assert!(c.flatpak_enabled && !c.tray_enabled);
    assert_eq!(config_path("/home/a"), "/home/a/.config/xpm/config.json");
    assert!(pkg_cache_path("/home/a").starts_with("/home/a/"));
    assert!(remote_cache_path("/home/a", "flathub").contains("flathub"));
    assert!(remote_cache_valid(Some(10)));
    assert!(!remote_cache_valid(None));
}
