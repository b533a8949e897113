use xpm::cache::AppConfig;
use xpm::command::{build_pacman_command, detect_prompt_default};
use xpm::listing::PackageData;
use xpm::orphans::{load_orphan_list, orphan_dep_info, orphan_names, repo_description, OrphanAnswer};
use xpm::popup::ProgressPopup;
use xpm::requests::{
    downgrade_package, export_package_list, force_overwrite, import_package_list,
    install_local_package, maintenance, package_list_path, package_request, remove_flatpak,
    selector_dir, update_everything, update_mirrorlists, Maintenance, PackageRequest,
};
use xpm::selection::{
    batch_flatpaks, install_selected_addons, orphan_toggle, remove_selected_orphans, tick_all,
    toggle_addon_selected, toggle_flatpak_selected, Selection,
};
use xpm::session::TerminalMessage;
use xpm::startup::{
    build_config, dismiss_aur_pill, dismiss_distro_warning, library_path, plan_start,
    qt_plugin_path, read_args, show_settings,
};
use xpm::sync::{begin_step, finish_step, pacman_synced, start_sync, PacmanOutcome, StatusMessage, SyncStep};
use xpm::terminal::{terminal_echo, TerminalPane};
use xpm::window::PackageLists;

fn item(name: &str, installed: bool) -> PackageData {
    PackageData { name: name.to_string(), installed, ..PackageData::blank() }
}

fn strings(list: &[&str]) -> Vec<String> {
    list.iter().map(|s| s.to_string()).collect()
}

#[test]
fn commands_of_actions() {
    let names = strings(&["foo", "bar"]);
    let (program, args) = build_pacman_command("install", &names, 0);
    assert_eq!((program.as_str(), args), ("pkexec", strings(&["pacman", "-S", "foo", "bar"])));
    let (program, args) = build_pacman_command("remove", &names, 1);
    assert_eq!((program.as_str(), args), ("flatpak", strings(&["uninstall", "-y", "foo", "bar"])));
    let (_, args) = build_pacman_command("update-all", &names, 0);
    assert_eq!(args, strings(&["pacman", "-Syu"]));
    let op = force_overwrite("update-all", &names, 0);
    assert_eq!((op.title.as_str(), op.action.as_str()), ("Force Installing 2 package(s)", "force-update-all"));
    let op = force_overwrite("install", &names, 0);
    let (program, args) = build_pacman_command(&op.action, &op.names, op.backend);
    assert_eq!(program, "pkexec");
    assert!(args.contains(&"--overwrite".to_string()));
}

#[test]
fn defaults_of_prompts() {
    assert_eq!(detect_prompt_default("Proceed? [Y/n] "), Some("y".to_string()));
    assert_eq!(detect_prompt_default("Proceed? [y/N]:"), Some("n".to_string()));
    assert_eq!(detect_prompt_default("Continue (yes/no)"), Some("yes".to_string()));
    assert_eq!(detect_prompt_default("Weiter? [ja/Ö]"), Some("ö".to_string()));
    assert_eq!(detect_prompt_default("no prompt"), None);
}

#[test]
fn what_is_typed_is_echoed() {
    assert_eq!(terminal_echo("abc", false, ""), Some("abc\n".to_string()));
    assert_eq!(terminal_echo("secret", true, ""), None);
    assert_eq!(terminal_echo("", false, "line\nProceed? [Y/n]  "), Some("y\n".to_string()));
    assert_eq!(terminal_echo("", false, "nothing"), None);
}

#[test]
fn requests_for_packages() {
    let op = package_request(PackageRequest::Install, "foo", 1);
    assert_eq!((op.title.as_str(), op.action.as_str(), op.backend), ("Installing foo", "install", 1));
    let op = package_request(PackageRequest::Remove, "foo", 0);
    assert_eq!((op.title.as_str(), op.action.as_str()), ("Removing foo", "remove"));
    let op = package_request(PackageRequest::Update, "foo", 0);
    assert_eq!((op.title.as_str(), op.action.as_str()), ("Updating foo", "update"));
    let op = package_request(PackageRequest::InstallDependency, "foo", 1);
    assert_eq!((op.title.as_str(), op.backend), ("Installing dependency: foo", 0));
    assert_eq!(update_everything(true).title, "Flatpak Update");
    assert_eq!(update_everything(false).backend, 0);
}

#[test]
fn commands_in_the_terminal() {
    let c = maintenance(Maintenance::UpdateSystem);
    assert_eq!(c.program, "pkexec");
    assert_eq!(c.args[2], "pacman -Syu && echo '' && echo '━━━ Flatpak Updates ━━━' && flatpak update -y && echo '' && echo '✓ System fully updated'");
    assert!(maintenance(Maintenance::UnlockDatabase).args[2].starts_with("if [ -f /var/lib/pacman/db.lck ]; then rm -v"));
    assert_eq!(maintenance(Maintenance::RemoveOrphans).args[2], "pacman -Qdtq | pacman -Rns -");
    assert_eq!(maintenance(Maintenance::RebuildInitramfs).args, strings(&["mkinitcpio", "-P"]));
    assert_eq!(maintenance(Maintenance::InstallDowngrade).args, strings(&["pacman", "-S", "--noconfirm", "downgrade"]));
    assert!(maintenance(Maintenance::CleanCache).args[2].ends_with("|| echo 'No download dirs found.'"));
    assert!(maintenance(Maintenance::FixKeyring).args[2].contains("pacman-key --populate"));
    assert_eq!(maintenance(Maintenance::RebuildGrub).args[2], "update-grub || grub-mkconfig -o /boot/grub/grub.cfg");
    assert_eq!(update_mirrorlists("s").args, strings(&["bash", "-c", "s"]));
    assert_eq!(install_local_package("/a.pkg.tar.zst").args, strings(&["pacman", "-U", "/a.pkg.tar.zst"]));
    assert_eq!(remove_flatpak("org.a", true).args, strings(&["uninstall", "--noninteractive", "--assumeyes", "org.a", "--delete-data"]));
    assert_eq!(remove_flatpak("org.a", false).args.len(), 4);
    let c = downgrade_package("foo", &selector_dir(7));
    assert_eq!(c.args[2], "export PATH=/tmp/xpm-fzf-7:\"$PATH\"; /usr/bin/downgrade foo");
}

#[test]
fn lists_of_packages_are_exported_and_imported() {
    assert_eq!(package_list_path(Some("/home/a")), "/home/a/xpm-packages.txt");
    assert_eq!(package_list_path(None), "/tmp/xpm-packages.txt");
    let c = export_package_list(Some(" /x.txt\n")).unwrap();
    assert_eq!(c.args[1], "echo 'Collecting explicitly installed packages...'; pacman -Qqe > '/x.txt'; count=$(wc -l < '/x.txt'); echo \"Exported $count packages to /x.txt\"; echo ''; cat '/x.txt'");
    assert!(export_package_list(Some(" \n")).is_none());
    assert!(export_package_list(None).is_none());
    let c = import_package_list("/x.txt");
    assert_eq!(c.args[2], "if [ ! -f '/x.txt' ]; then echo 'File not found: /x.txt'; exit 1; fi; packages=$(cat '/x.txt' | awk '{print $1}' | tr '\\n' ' '); echo \"Installing: $packages\"; pacman -S --needed --noconfirm $packages");
}

#[test]
fn packages_are_selected_once() {
    let mut s = Selection::new();
    s.toggle("a", 0, true, true);
    s.toggle("a", 0, true, true);
    s.toggle("b", 1, false, true);
    s.toggle("c", 1, false, true);
    let c = s.counts();
    assert_eq!((c.total, c.installed, c.uninstalled), (3, 1, 2));
    let op = s.bulk(false).unwrap();
    assert_eq!((op.title.as_str(), op.backend), ("Installing 2 packages", 1));
    assert_eq!(op.names, strings(&["b", "c"]));
    let op = s.bulk(true).unwrap();
    assert_eq!((op.title.as_str(), op.backend), ("Removing 1 packages", 0));
    s.toggle("a", 0, true, false);
    assert!(s.bulk(true).is_none());
    assert_eq!(s.entries().len(), 2);
    assert_eq!(s.clear().len(), 2);
    assert_eq!(s.counts().total, 0);
}

#[test]
fn applications_are_selected_in_the_browser() {
    let mut list = vec![item("a", true), item("b", false), item("b", false)];
    let c = toggle_flatpak_selected(&mut list, "b", true);
    assert_eq!((c.total, c.installed, c.uninstalled), (2, 0, 2));
    let c = toggle_flatpak_selected(&mut list, "a", true);
    assert_eq!((c.total, c.installed, c.uninstalled), (3, 1, 2));
    let batch = batch_flatpaks(&list, false).unwrap();
    assert_eq!(batch.title, "Installing 2 Flatpak(s)...");
    assert_eq!(batch.args, strings(&["install", "-y", "flathub", "b", "b"]));
    let batch = batch_flatpaks(&list, true).unwrap();
    assert_eq!(batch.args, strings(&["uninstall", "-y", "a"]));
    toggle_flatpak_selected(&mut list, "a", false);
    assert!(batch_flatpaks(&list, true).is_none());
}

#[test]
fn boxes_are_ticked() {
    let mut boxes = vec![false, true, false];
    assert_eq!(orphan_toggle(&mut boxes, 0), Some(2));
    assert_eq!(orphan_toggle(&mut boxes, 1), Some(1));
    assert_eq!(orphan_toggle(&mut boxes, 3), None);
    assert_eq!(orphan_toggle(&mut boxes, -1), None);
    assert_eq!(boxes, vec![true, false, false]);
    assert_eq!(tick_all(2, true), (vec![true, true], 2));
    assert_eq!(tick_all(2, false), (vec![false, false], 0));
    assert_eq!(toggle_addon_selected(&mut boxes, 1, 1), 2);
    assert_eq!(toggle_addon_selected(&mut boxes, 0, 0), 0);
    assert_eq!(toggle_addon_selected(&mut boxes, 5, 9), 5);
    let rows = vec![item("a", true), item("b", true), item("c", true), item("d", true)];
    let c = remove_selected_orphans(&rows, &[true, false, true]).unwrap();
    assert_eq!(c.args, strings(&["bash", "-c", "pacman -Rns a c"]));
    assert!(remove_selected_orphans(&rows, &[false]).is_none());
    let c = install_selected_addons(&rows, &[false, true]).unwrap();
    assert_eq!(c.title, "Installing 1 add-on(s)");
    assert_eq!(c.args, strings(&["install", "--noninteractive", "--assumeyes", "b"]));
    assert!(install_selected_addons(&rows, &[]).is_none());
}

#[test]
fn orphans_are_listed() {
    assert_eq!(orphan_names(" a \n\nb\n"), strings(&["a", "b"]));
    let qi = "Name            : a\nVersion         : 1.0-1\nDescription     : A thing\nRequired By     : None\nOptional For    : foo  bar\nInstall Reason  : Explicitly installed\n";
    let list = load_orphan_list(&[
        OrphanAnswer { name: "a".to_string(), output: qi.to_string() },
        OrphanAnswer { name: "b".to_string(), output: String::new() },
    ]);
    assert_eq!((list[0].version.as_str(), list[0].description.as_str(), list[0].explicit), ("1.0-1", "A thing", true));
    assert_eq!((list[1].name.as_str(), list[1].version.as_str(), list[1].repository.as_str()), ("b", "", "local"));
    assert_eq!(orphan_dep_info(qi), "Optional for: foo  bar");
    assert_eq!(orphan_dep_info(""), "Not required by any installed package.");
    assert_eq!(orphan_dep_info("Required By     : x\n"), "Required by: x");
    assert_eq!(orphan_dep_info("Required By     : x\nOptional For    : y\n"), "Required by: x  |  Optional for: y");
    assert_eq!(repo_description("Name : a\nDescription     : One: two\n"), "One: two");
    assert_eq!(repo_description("Name : a\n"), "");
}

fn shown(list: &[StatusMessage]) -> String {
    list.iter().map(|m| format!("{:?}", m)).collect::<Vec<_>>().join(" ")
}

#[test]
fn a_search_for_updates_runs_to_its_end() {
    let (messages, step) = start_sync();
    assert_eq!(step, SyncStep::Pacman);
    assert!(shown(&messages).starts_with("SetBusy(true) SetProgress(5)"));
    let (messages, step) = pacman_synced(&PacmanOutcome::Unavailable);
    assert_eq!(step, SyncStep::Flatpak { pacman_ok: false });
    assert!(shown(&messages).contains("Pacman sync unavailable, continuing..."));
    assert!(shown(&begin_step(step)).starts_with("SetProgress(50)"));
    let (_, step) = finish_step(step);
    assert_eq!(step, SyncStep::Reload { pacman_ok: false });
    assert!(shown(&begin_step(step)).ends_with("SetLoading(true)"));
    let (messages, step) = finish_step(step);
    assert_eq!(step, SyncStep::Done);
    assert!(shown(&messages).ends_with("SetBusy(false) SetStatus(\"Update check complete (pacman sync had issues)\")"));
}

#[test]
fn a_refusal_ends_the_search_for_updates() {
    let outcome = |code, stderr: &str| PacmanOutcome::Finished { success: false, code, stderr: stderr.to_string() };
    for o in [outcome(Some(126), ""), outcome(Some(127), ""), outcome(Some(1), "Request dismissed"), outcome(None, "cancelled")] {
        let (messages, step) = pacman_synced(&o);
        assert_eq!(step, SyncStep::Done);
        assert!(shown(&messages).ends_with("SetBusy(false)"));
    }
    let (_, step) = pacman_synced(&outcome(Some(1), "failed"));
    assert_eq!(step, SyncStep::Flatpak { pacman_ok: false });
    let (_, step) = pacman_synced(&PacmanOutcome::Finished { success: true, code: Some(0), stderr: String::new() });
    assert_eq!(step, SyncStep::Flatpak { pacman_ok: true });
}

#[test]
fn the_environment_of_qt() {
    assert!(qt_plugin_path(None).is_some());
    assert!(qt_plugin_path(Some("")).is_some());
    assert!(qt_plugin_path(Some("/x")).is_none());
    assert_eq!(library_path(None).unwrap(), "/usr/lib/qt6:/usr/lib/x86_64-linux-gnu/qt6");
    assert_eq!(library_path(Some("/x")).unwrap(), "/x:/usr/lib/qt6:/usr/lib/x86_64-linux-gnu/qt6");
    assert!(library_path(Some("/usr/lib/qt6")).is_none());
}

#[test]
fn arguments_are_read() {
    let l = read_args(&strings(&["a.pkg.tar.zst", "--tray", "/b.pkg.tar.zst", "/c.pkg.tar.zst"]));
    assert!(l.tray_only);
    assert_eq!(l.local_package.as_deref(), Some("/b.pkg.tar.zst"));
    let l = read_args(&strings(&["xpm"]));
    assert!(!l.tray_only && l.local_package.is_none());
    assert!(read_args(&[]).local_package.is_none());
}

#[test]
fn settings_survive() {
    let c = AppConfig { notify_interval_minutes: u32::MAX, tray_enabled: true, ..AppConfig::default() };
    let (form, custom) = show_settings(&c, None);
    assert_eq!(form.notify_interval, -1);
    assert!(custom.is_none());
    assert_eq!(build_config(&form), c);
    let (form, custom) = show_settings(&c, Some(7));
    assert_eq!((form.parallel_downloads, custom.as_deref()), (7, Some("7")));
    assert!(dismiss_aur_pill(c).aur_pill_dismissed);
    assert!(dismiss_distro_warning(c).distro_warning_dismissed);
    let plan = plan_start(&AppConfig::default(), true, false);
    assert!(plan.tray && !plan.show_window && plan.warn_distro);
    assert_eq!(plan.interval_secs, 1800);
    let plan = plan_start(&AppConfig::default(), false, true);
    assert!(!plan.tray && plan.show_window && !plan.warn_distro);
}

#[test]
fn the_terminal_shows_what_is_written() {
    let mut t = TerminalPane::new();
    t.show("Title");
    assert!(t.shown && t.focus_pending && !t.done);
    t.receive("one\rtwo\n");
    t.flush(false);
    assert_eq!(t.output, "");
    t.flush(true);
    assert_eq!((t.output.as_str(), t.pending.as_str()), ("two\n", ""));
    t.receive(&"line\n".repeat(600));
    t.finish(true);
    t.flush(true);
    assert_eq!(t.output.split('\n').count(), 500);
    assert!(t.done && t.success);
    t.put_away();
    assert!(!t.shown);
}

#[test]
fn waiting_output_is_cut() {
    let mut t = TerminalPane::new();
    t.receive(&"a".repeat(524_288));
    assert_eq!(t.pending.len(), 524_288);
    t.receive("b");
    assert_eq!(t.pending.len(), 262_144);
    assert!(t.pending.ends_with('b'));
}

#[test]
fn the_popup_starts_afresh() {
    let mut p = ProgressPopup::new();
    p.apply(TerminalMessage::ProgressLogLine("lost".to_string(), 1));
    assert!(p.log.is_none());
    p.apply(TerminalMessage::ShowProgressPopup("A".to_string()));
    p.apply(TerminalMessage::ProgressLogLine("kept".to_string(), 2));
    p.apply(TerminalMessage::OperationProgress(40, "Working".to_string()));
    p.apply(TerminalMessage::ProgressPromptButtons);
    p.apply(TerminalMessage::ProgressPrompt("Really?".to_string()));
    assert!(p.show_input && p.show_buttons);
    p.answered();
    assert!(!p.show_input && p.show_buttons);
    p.clear_prompt();
    assert!(!p.show_buttons && p.prompt.is_empty());
    assert_eq!(p.log.as_ref().unwrap().len(), 1);
    assert!(p.close());
    p.apply(TerminalMessage::ShowProgressPopup("B".to_string()));
    assert_eq!((p.percent, p.stage.as_str(), p.log.as_ref().unwrap().len()), (0, "Starting...", 0));
    p.apply(TerminalMessage::OperationDone(true));
    assert!(p.done && p.success && !p.show_logs);
    p.apply(TerminalMessage::ShowConflict { summary: "S".to_string(), can_force: true });
    assert!(p.conflict_shown && !p.shown);
    p.close_conflict();
    assert!(!p.conflict_shown);
}

#[test]
fn lists_follow_operations() {
    let mut l = PackageLists::new();
    let installed: Vec<PackageData> = (0..60)
        .map(|i| PackageData { repository: "extra".to_string(), ..item(&format!("p{}", i), true) })
        .collect();
    l.packages_loaded(installed, vec![item("p1", true)], Vec::new(), Vec::new());
    assert_eq!((l.installed.len(), l.total_pages), (50, 2));
    assert_eq!(l.grouped.len(), 61);
    let gone: Vec<String> = (0..10).map(|i| format!("p{}", i)).collect();
    l.operation_succeeded("install", &gone, 0);
    assert_eq!(l.full_installed.len(), 60);
    l.operation_succeeded("remove", &gone, 0);
    assert_eq!((l.full_installed.len(), l.installed.len(), l.total_pages), (50, 50, 1));
    l.installed_flatpaks = vec![item("org.a", true)];
    l.operation_succeeded("bulk-remove", &strings(&["org.a"]), 1);
    assert!(l.installed_flatpaks.is_empty());
    l.search_finished(&[item("x", true), item("y", false)]);
    assert_eq!((l.search_installed.len(), l.search_available.len()), (1, 1));
    l.load_page_grouped();
    assert_eq!(l.grouped.len(), 51);
    l.load_all_grouped();
    assert_eq!(l.full_grouped.len(), 51);
}

#[test]
fn selecting_marks_the_lists() {
    let mut l = PackageLists::new();
    let mut s = Selection::new();
    l.updates = vec![item("a", true)];
    l.repo = vec![item("a", false)];
    let c = l.toggle_selected(&mut s, "a", 0, true);
    assert_eq!((c.total, c.installed), (1, 1));
    assert!(l.updates[0].selected && l.repo[0].selected);
    assert!(l.find_package_installed("a", 0));
    assert!(!l.find_package_installed("a", 1));
    l.clear_selection(&mut s);
    assert!(!l.updates[0].selected && !l.repo[0].selected);
    assert_eq!(s.counts().total, 0);
}
