use xpm::backend::{AlpmBackend, AlpmPackage, LocalPackage, OrphanDetector, PackageReason, Step, StepOutcome, SyncAnswer, SyncDatabase, UpdateCandidate};
use xpm::deps::NameMap;
use xpm::error::Error;
use xpm::loading::{load_packages, parse_checkupdates, LoadAnswers};
use xpm::manager::{installed_count, is_installed, update_count, BackendLists, PackageManager, ProgressMessage};
use xpm::notify::{check_flatpak_updates, check_updates, load_interval_minutes, notification, pid_in, pidfile_path, process_dir, sleep_secs};
use xpm::operation::{Operation, OperationKind, OperationOptions, OperationResult, OperationStatus};
use xpm::package::{Package, PackageBackend, PackageStatus, SearchResult, UpdateInfo};
use xpm::plasmoid::{
    fetch_store_versions, list_plasmoids_with_updates, parse_plasmoid_desktop, parse_plasmoid_json,
    version_is_newer, PlasmoidDir, PlasmoidMetadata,
};
use xpm::remote::{RemoteManager, RemoteRecord};
use xpm::state::{AppState, ViewState};
use xpm::transaction::TransactionHandler;
use xpm::version::Version;

fn package(name: &str, backend: PackageBackend) -> Package {
    Package::new(
        name.to_string(),
        Version::new("1.0-1"),
        format!("About {}", name),
        backend,
        PackageStatus::Installed,
        "extra".to_string(),
    )
}

fn alpm(name: &str, reason: PackageReason) -> AlpmPackage {
    AlpmPackage {
        name: name.to_string(),
        version: "1.0-1".to_string(),
        desc: Some(format!("About {}", name)),
        reason,
        required_by: Vec::new(),
        optional_for: Vec::new(),
        url: Some("https://example.org".to_string()),
        licenses: vec!["GPL".to_string()],
        groups: Vec::new(),
        depends: vec!["glibc".to_string()],
        optdepends: Vec::new(),
        provides: Vec::new(),
        conflicts: Vec::new(),
        replaces: Vec::new(),
        isize: 2048,
        download_size: 1024,
        build_date: 1_700_000_000,
        install_date: Some(1_700_000_100),
        packager: Some("Someone".to_string()),
        arch: Some("x86_64".to_string()),
    }
}

fn backend() -> AlpmBackend {
    AlpmBackend::new(None, true).unwrap()
}

#[test]
fn a_backend_needs_its_database() {
    assert!(matches!(AlpmBackend::new(None, false), Err(Error::DatabaseError(_))));
    let b = backend();
    assert_eq!(b.source_id(), "pacman");
    assert_eq!(b.config().dbpath, "/var/lib/pacman");
}

#[test]
fn installed_packages_and_orphans() {
    let local = vec![alpm("foo", PackageReason::Explicit), alpm("lib", PackageReason::Depend)];
    let list = backend().list_installed(&local);
    assert_eq!(list.len(), 2);
    let orphans = backend().list_orphans(&local);
    assert_eq!(orphans.len(), 1);
    assert_eq!(orphans[0].name, "lib");
    let mut needed = alpm("lib", PackageReason::Depend);
    needed.required_by.push("foo".to_string());
    assert!(!OrphanDetector::new().is_orphan(&needed));
    assert!(OrphanDetector::new().is_orphan(&local[1]));
}

#[test]
fn packages_are_found_by_name_and_description() {
    let databases = vec![SyncDatabase {
        name: "extra".to_string(),
        packages: vec![alpm("firefox", PackageReason::Explicit), alpm("vim", PackageReason::Explicit)],
    }];
    let local = vec![alpm("vim", PackageReason::Explicit)];
    let found = backend().search("VIM", &databases, &local);
    assert_eq!(found.len(), 1);
    assert_eq!(found[0].name, "vim");
    assert!(found[0].installed);
    assert_eq!(found[0].repository, "extra");
    assert_eq!(backend().search("about", &databases, &[]).len(), 2);
}

#[test]
fn newer_candidates_are_updates() {
    let candidate = |newer| UpdateCandidate { repository: "core".to_string(), version: "2.0-1".to_string(), download_size: 10, newer };
    let local = vec![
        LocalPackage { name: "a".to_string(), version: "1.0-1".to_string(), candidates: vec![candidate(true)] },
        LocalPackage { name: "b".to_string(), version: "1.0-1".to_string(), candidates: vec![candidate(false)] },
        LocalPackage { name: "c".to_string(), version: "1.0-1".to_string(), candidates: Vec::new() },
    ];
    let updates = backend().list_updates(&local);
    assert_eq!(updates.len(), 1);
    assert_eq!(updates[0].name, "a");
    assert_eq!(updates[0].new_version.full, "2.0-1");
}

#[test]
fn dates_go_through_chrono() {
    let info = backend().get_package_info("foo", Some(&alpm("foo", PackageReason::Explicit)), &[]).unwrap();
    assert_eq!(info.build_date, Some(1_700_000_000));
    assert_eq!(info.install_date, Some(1_700_000_100));
    assert_eq!(info.installed_size, 2048);
    let mut odd = alpm("foo", PackageReason::Explicit);
    odd.build_date = i64::MAX;
    odd.install_date = None;
    let info = backend().get_package_info("foo", Some(&odd), &[]).unwrap();
    assert_eq!(info.build_date, Some(0));
    assert_eq!(info.install_date, None);
}

#[test]
fn dates_at_the_ends_of_the_range() {
    for (secs, kept) in [
        (8_210_266_876_799i64, 8_210_266_876_799i64),
        (8_210_266_876_800, 0),
        (-8_334_601_228_800, -8_334_601_228_800),
        (-8_334_601_228_801, 0),
        (-1, -1),
    ] {
        let mut p = alpm("foo", PackageReason::Explicit);
        p.build_date = secs;
        let info = backend().get_package_info("foo", Some(&p), &[]).unwrap();
        assert_eq!(info.build_date, Some(kept), "{}", secs);
    }
}

#[test]
fn information_comes_from_repositories_too() {
    let answers = vec![
        SyncAnswer { repository: "core".to_string(), package: None },
        SyncAnswer { repository: "extra".to_string(), package: Some(alpm("foo", PackageReason::Explicit)) },
    ];
    let info = backend().get_package_info("foo", None, &answers).unwrap();
    assert_eq!(info.package.repository, "extra");
    let missing = backend().get_package_info("foo", None, &answers[..1]);
    assert!(matches!(missing, Err(Error::PackageNotFound(n)) if n == "foo"));
}

#[test]
fn transactions_are_refused() {
    let h = TransactionHandler::new();
    let options = OperationOptions::default();
    assert!(h.install(&["foo".to_string()], &options).is_err());
    assert!(h.remove(&["foo".to_string()], &options).is_err());
    assert!(h.upgrade(&[], &options).is_err());
    assert!(h.sysupgrade(&options).is_err());
    assert!(h.sync_dbs().is_err());
}

#[test]
fn operations_and_results() {
    let op = Operation::install(vec!["foo".to_string()], PackageBackend::Pacman);
    assert_eq!(op.kind, OperationKind::Install);
    let op = op.with_options(OperationOptions { force: true, ..OperationOptions::default() });
    assert!(op.options.force);
    let r = OperationResult::failure(op, "no".to_string(), 5);
    assert!(!r.is_success());
    assert_eq!(r.error.as_deref(), Some("no"));
    assert_eq!(r.status, OperationStatus::Failed);
    let op = Operation::system_upgrade(PackageBackend::Flatpak);
    assert!(op.packages.is_empty());
    let r = OperationResult::success(op, Vec::new(), 7).with_warning("w".to_string());
    assert!(r.is_success());
    assert_eq!(r.warnings, vec!["w"]);
    assert_eq!(OperationKind::Install.to_string().is_empty(), false);
    assert_eq!(PackageBackend::Flatpak.to_string(), "flatpak");
}

#[test]
fn operations_need_the_administrator() {
    let b = backend();
    assert_eq!(b.step_for(OperationKind::CleanCache), Step::CleanCache);
    assert_eq!(b.step_for(OperationKind::Install), Step::Nothing);
    let op = Operation::sync_databases(PackageBackend::Pacman);
    let r = b.execute_with_progress(op, StepOutcome::Nothing, 3).unwrap();
    assert_eq!(r.error.as_deref(), Some("Database sync requires root privileges"));
    assert_eq!(r.duration_ms, 3);
    let op = Operation::remove(vec!["a".to_string()], PackageBackend::Pacman);
    let r = b.execute_with_progress(op, StepOutcome::Nothing, 3).unwrap();
    assert_eq!(r.error.as_deref(), Some("Package operations require root privileges"));
    let clean = || Operation { kind: OperationKind::CleanCache, ..Operation::sync_databases(PackageBackend::Pacman) };
    assert!(b.execute_with_progress(clean(), StepOutcome::Cleaned(Ok(5)), 3).unwrap().is_success());
    let r = b.execute_with_progress(clean(), StepOutcome::Cleaned(Err(Error::Other("x".to_string()))), 3);
    assert!(matches!(r, Err(Error::Other(e)) if e == "x"));
    let orphans = || Operation { kind: OperationKind::RemoveOrphans, ..Operation::sync_databases(PackageBackend::Pacman) };
    assert!(b.execute_with_progress(orphans(), StepOutcome::Orphans(Ok(Vec::new())), 3).unwrap().is_success());
    let found = vec![package("a", PackageBackend::Pacman)];
    assert!(!b.execute_with_progress(orphans(), StepOutcome::Orphans(Ok(found)), 3).unwrap().is_success());
}

#[test]
fn a_manager_may_lack_backends() {
    let m = PackageManager::new(false, false).unwrap();
    assert!(m.available_backends(true, true).is_empty());
    assert!(matches!(m.get_backend(PackageBackend::Pacman), Err(Error::BackendUnavailable(_))));
    let m = PackageManager::new(true, false).unwrap();
    assert_eq!(m.available_backends(true, true), vec![PackageBackend::Pacman]);
    assert!(m.get_backend(PackageBackend::Flatpak).is_err());
}

#[test]
fn answers_of_backends_are_put_together() {
    let m = PackageManager::new(true, true).unwrap();
    let a = vec![package("zeta", PackageBackend::Pacman), package("beta", PackageBackend::Pacman)];
    let b = vec![package("alpha", PackageBackend::Flatpak)];
    let all = m.list_installed(Some(Ok(a)), Some(Ok(b))).unwrap();
    let names: Vec<&str> = all.iter().map(|p| p.name.as_str()).collect();
    assert_eq!(names, vec!["alpha", "beta", "zeta"]);
    let some = m.list_installed(Some(Err(Error::Other("x".to_string()))), Some(Ok(Vec::new()))).unwrap();
    assert!(some.is_empty());
    let none: Vec<SearchResult> = m.search(None, None).unwrap();
    assert!(none.is_empty());
    assert_eq!(m.get_cache_size(Some(Ok(3)), Some(Ok(4))).unwrap(), 7);
    assert_eq!(m.clean_caches(Some(Ok(3)), None).unwrap(), 3);
}

#[test]
fn the_last_operation_is_kept() {
    let mut m = PackageManager::new(true, false).unwrap();
    let r = OperationResult::success(Operation::sync_databases(PackageBackend::Pacman), Vec::new(), 1);
    let (given, message) = m.execute(PackageBackend::Pacman, Ok(r)).unwrap();
    assert!(given.is_success());
    assert!(matches!(message, ProgressMessage::Completed(_)));
    assert!(m.state.last_operation.is_some());
    let r = OperationResult::success(Operation::sync_databases(PackageBackend::Flatpak), Vec::new(), 1);
    assert!(m.execute(PackageBackend::Flatpak, Ok(r)).is_err());
}

#[test]
fn numbers_of_packages() {
    let m = PackageManager::new(true, true).unwrap();
    let lists = |n: usize| BackendLists {
        installed: Ok((0..n).map(|i| package(&format!("p{}", i), PackageBackend::Pacman)).collect()),
        updates: Ok(Vec::new()),
        orphans: Err(Error::Other("x".to_string())),
    };
    let s = m.get_stats(Some(lists(3)), Some(lists(2)));
    assert_eq!(s.total_installed(), 5);
    assert_eq!(s.total_updates(), 0);
    assert_eq!(installed_count(Ok(vec![package("a", PackageBackend::Pacman)])).unwrap(), 1);
    assert!(is_installed(Ok(vec![package("a", PackageBackend::Pacman)]), "a").unwrap());
    assert!(!is_installed(Ok(Vec::new()), "a").unwrap());
    assert_eq!(update_count(Ok(Vec::new() as Vec<UpdateInfo>)).unwrap(), 0);
    assert!(update_count(Err(Error::Other("x".to_string()))).is_err());
}

#[test]
fn remotes_are_listed_and_changed() {
    let m = RemoteManager::new();
    let record = |name: Option<&str>| RemoteRecord { name: name.map(|s| s.to_string()), title: None, url: None, disabled: false };
    let list = m.list_remotes(Ok(vec![record(Some("flathub")), record(None)]), false).unwrap();
    assert_eq!(list[0].name, "flathub");
    assert_eq!(list[1].name, "");
    assert!(list[0].enabled);
    assert!(m.list_remotes(Err("no".to_string()), false).is_err());
    let change = m.change_for(&Ok(vec![record(None), record(Some("flathub"))]), "flathub", false).unwrap();
    assert_eq!((change.index, change.disabled), (1, true));
    assert!(m.change_for(&Ok(Vec::new()), "flathub", true).is_err());
    let new = m.remote_to_add("a", "https://example.org");
    assert!(new.gpg_verify && new.if_needed);
    assert!(matches!(m.add_remote(Err("e".to_string())), Err(Error::TransactionError(_))));
    assert!(m.remove_remote(Ok(())).is_ok());
}

#[test]
fn the_state_filters_packages() {
    let mut s = AppState::new();
    s.installed_packages = vec![package("Foo", PackageBackend::Pacman), package("bar", PackageBackend::Flatpak)];
    assert_eq!(s.filtered_installed().len(), 2);
    s.set_search("FOO".to_string());
    assert_eq!(s.filtered_installed().len(), 1);
    s.set_search(String::new());
    s.filter.backend = Some(PackageBackend::Flatpak);
    assert_eq!(s.filtered_installed()[0].name, "bar");
    assert_eq!(s.installed_count_by_backend(PackageBackend::Pacman) + s.installed_count_by_backend(PackageBackend::Flatpak), 2);
    s.set_error("e".to_string());
    assert_eq!(s.error_message.as_deref(), Some("e"));
    s.set_view(ViewState::Settings);
    assert_eq!(s.view, ViewState::Settings);
    s.clear_error();
    assert!(s.error_message.is_none());
}

#[test]
fn updates_that_were_printed() {
    let list = parse_checkupdates("foo 1.0-1 -> 1.1-1\nnonsense\n");
    assert_eq!(list.len(), 1);
    assert_eq!(list[0].name, "foo");
    assert_eq!(list[0].current_version.full, "1.0-1");
    assert_eq!(list[0].new_version.full, "1.1-1");
}

#[test]
fn lists_and_numbers_agree() {
    let answers = LoadAnswers {
        installed: Ok(vec![package("foo", PackageBackend::Pacman), package("bar", PackageBackend::Pacman)]),
        orphans: Ok(Vec::new()),
        flatpak: Ok(vec![package("org.a.B", PackageBackend::Flatpak)]),
        flatpak_updates: Some(Ok(Vec::new())),
        checkupdates: Some("foo 1.0-1 -> 1.1-1\n".to_string()),
        plasmoid_updates: Vec::new(),
        cache_usage: Some("2048\t/var/cache/pacman/pkg".to_string()),
        flatpak_list: None,
    };
    let out = load_packages(answers, &NameMap::new());
    assert_eq!(out.installed.len(), 2);
    assert_eq!(out.updates.len(), 1);
    assert_eq!(out.stats.update_count, 1);
    assert_eq!(out.stats.pacman_count, 2);
    assert_eq!(out.stats.flatpak_count, 1);
    let marked: Vec<&str> = out.installed.iter().filter(|p| p.has_update).map(|p| p.name.as_str()).collect();
    assert_eq!(marked, vec!["foo"]);
}

#[test]
fn versions_of_widgets() {
    assert!(version_is_newer("1.10", "1.9"));
    assert!(!version_is_newer("1.9", "1.10"));
    assert!(!version_is_newer("1.0", "1.0"));
    assert!(version_is_newer("v2.0", "1.9") != version_is_newer("1.9", "v2.0"));
}

#[test]
fn the_store_is_read() {
    let json = "{\"ocs\":{\"data\":[{\"name\":\"Widget\",\"version\":\"2.0\"},{\"name\":\"\",\"version\":\"1\"},{\"name\":7}]}}";
    let list = fetch_store_versions(json);
    assert_eq!(list.len(), 1);
    assert_eq!((list[0].name.as_str(), list[0].version.as_str()), ("Widget", "2.0"));
    assert!(fetch_store_versions("nothing").is_empty());
    assert!(fetch_store_versions("{\"ocs\":{\"data\":7}}").is_empty());
}

#[test]
fn widgets_describe_themselves() {
    let p = parse_plasmoid_json(Some("{\"KPlugin\":{\"Id\":\"org.w\",\"Name\":\"Widget\",\"Version\":\"1.0\",\"Description\":\"D\"}}"));
    assert_eq!((p.id.as_str(), p.name.as_str(), p.version.as_str(), p.description.as_str()), ("org.w", "Widget", "1.0", "D"));
    let p = parse_plasmoid_json(None);
    assert_eq!((p.name.as_str(), p.version.as_str()), ("Unknown", "unknown"));
    let p = parse_plasmoid_desktop(Some("[Desktop Entry]\nName=Old\nX-KDE-PluginInfo-Version=0.9\nX-KDE-PluginInfo-Name=org.old\nComment=C\n"));
    assert_eq!((p.id.as_str(), p.name.as_str(), p.version.as_str()), ("org.old", "Old", "0.9"));
}

#[test]
fn widgets_with_newer_versions_have_updates() {
    let store = fetch_store_versions("{\"ocs\":{\"data\":[{\"name\":\"Widget\",\"version\":\"2.0\"}]}}");
    let dirs = vec![PlasmoidDir {
        name: "org.w".to_string(),
        is_user: true,
        metadata: PlasmoidMetadata::Json(Some("{\"KPlugin\":{\"Id\":\"org.w\",\"Name\":\"Widget\",\"Version\":\"1.0\"}}".to_string())),
    }];
    let (all, updates) = list_plasmoids_with_updates(&dirs, &store);
    assert_eq!((all.len(), updates.len()), (1, 1));
    assert_eq!(updates[0].name, "org.w");
}

#[test]
fn the_notifier_counts_and_sleeps() {
    assert_eq!(load_interval_minutes(None), 30);
    assert_eq!(load_interval_minutes(Some("{\"notify_interval_minutes\": 45}")), 45);
    assert_eq!(load_interval_minutes(Some("{\"notify_interval_minutes\": 0}")), 30);
    assert_eq!(sleep_secs(2), 120);
    assert_eq!(pid_in(" 42\n"), Some(42));
    assert_eq!(pid_in("x"), None);
    assert_eq!(process_dir(42), "/proc/42");
    assert_eq!(pidfile_path("/home/a"), "/home/a/.local/share/xpm/notify.pid");
    assert_eq!(check_updates("a 1 -> 2\n\n b \n"), vec!["a 1 -> 2", "b"]);
    assert_eq!(check_flatpak_updates(Some("x\ny\n")), 2);
    assert_eq!(check_flatpak_updates(None), 0);
    let (summary, body) = notification(1, 2).unwrap();
    assert_eq!(summary, "3 updates available");
    assert_eq!(body, "1 pacman package, 2 flatpak apps");
    assert!(notification(0, 0).is_none());
}
