use xpm::conf::{
    build_mirrorlist_update_script, is_chaotic_aur_enabled, read_ignorepkg, read_pacman_parallel_downloads,
    read_pacman_repos, save_ignorepkg, set_parallel_downloads, shown_parallel_downloads, AlpmConfig,
};
use xpm::sysinfo::{format_uptime, is_xerolinux, load_recent_activity, load_sys_info, GpuFiles, SysSources};
use xpm::tray::{
    autostart_entry, autostart_path, base_icon, check_update_count, icon_or_blank, instance_lock_path,
    instance_socket_path, make_tray_icon, notifies, to_argb, tool_tip, tray_title, update_label, update_notice,
    updates_text,
};

const CONF: &str = "# comment\n[options]\nRootDir = /mnt\nDBPath=/mnt/var/lib/pacman\nCacheDir = /a /b\n#IgnorePkg = linux  vim \nParallelDownloads = 7\n[core]\nInclude = /etc/pacman.d/mirrorlist\n[extra]\nInclude = /etc/pacman.d/mirrorlist\n[chaotic-aur]\nInclude = /etc/pacman.d/chaotic-mirrorlist\n";

#[test]
fn the_configuration_is_read() {
    let c = AlpmConfig::from_pacman_conf(Some(CONF));
    assert_eq!(c.root, "/mnt");
    assert_eq!(c.dbpath, "/mnt/var/lib/pacman");
    let d = AlpmConfig::from_pacman_conf(None);
    assert_eq!(d.root, "/");
    assert_eq!(d.dbpath, "/var/lib/pacman");
    assert_eq!(d.cache_dirs, vec!["/var/cache/pacman/pkg/"]);
}

#[test]
fn repositories_of_the_configuration() {
    assert_eq!(read_pacman_repos(CONF), vec!["core", "extra", "chaotic-aur"]);
    assert!(is_chaotic_aur_enabled(CONF));
    assert!(!is_chaotic_aur_enabled("#[chaotic-aur]\n"));
}

#[test]
fn parallel_downloads_of_the_configuration() {
    assert_eq!(read_pacman_parallel_downloads(CONF), Some(7));
    assert_eq!(read_pacman_parallel_downloads("#ParallelDownloads = 5\n"), None);
    assert_eq!(shown_parallel_downloads(Some(7), 5), (7, Some("7".to_string())));
    assert_eq!(shown_parallel_downloads(None, 5), (5, None));
    assert_eq!(
        set_parallel_downloads(8),
        "grep -q 'ParallelDownloads' /etc/pacman.conf && sed -i 's/^#*[[:space:]]*ParallelDownloads.*/ParallelDownloads = 8/' /etc/pacman.conf || echo 'ParallelDownloads = 8' >> /etc/pacman.conf"
    );
    assert!(set_parallel_downloads(-1).contains("= 4294967295"));
}

#[test]
fn ignored_packages_of_the_configuration() {
    let p = read_ignorepkg(CONF);
    assert!(!p.active);
    assert_eq!(p.value, "linux  vim");
    let p = read_ignorepkg("IgnorePkg=a b\nIgnorePkg = c\n");
    assert!(p.active);
    assert_eq!(p.value, "a b");
    let p = read_ignorepkg("nothing\n");
    assert!(!p.active && p.value.is_empty());
}

#[test]
fn a_saved_line_is_read_back() {
    for (active, value) in [(true, " linux vim "), (false, "linux"), (true, "")] {
        let script = save_ignorepkg(active, value);
        let line = script.split("echo '").nth(1).unwrap().split('\'').next().unwrap();
        let p = read_ignorepkg(line);
        assert_eq!((p.active, p.value.as_str()), (active, value.trim()));
    }
}

#[test]
fn mirrors_are_updated_by_a_script() {
    assert_eq!(
        build_mirrorlist_update_script(CONF),
        "rate-mirrors --allow-root --protocol https arch | tee /etc/pacman.d/mirrorlist && rate-mirrors --allow-root --protocol https chaotic-aur | tee /etc/pacman.d/chaotic-mirrorlist"
    );
    assert_eq!(
        build_mirrorlist_update_script("#Include = /x\n"),
        "rate-mirrors --allow-root --protocol https arch | tee /etc/pacman.d/mirrorlist"
    );
}

#[test]
fn a_badge_is_painted() {
    let base = vec![7u8; 32 * 32 * 4];
    assert_eq!(make_tray_icon(&base, 0), base);
    let one = make_tray_icon(&base, 1);
    assert_ne!(one, base);
    assert_eq!(one.len(), base.len());
    assert_ne!(make_tray_icon(&base, 12), one);
}

#[test]
fn a_picture_is_decoded() {
    let mut png: Vec<u8> = Vec::new();
    let picture = image::RgbaImage::from_pixel(8, 8, image::Rgba([10, 20, 30, 255]));
    image::DynamicImage::ImageRgba8(picture)
        .write_to(&mut std::io::Cursor::new(&mut png), image::ImageFormat::Png)
        .unwrap();
    let icon = base_icon(&png);
    assert_eq!(icon.len(), 4096);
    assert_eq!(&icon[..4], &[10, 20, 30, 255]);
    let fine = image::RgbaImage::from_fn(32, 32, |x, y| image::Rgba([x as u8, y as u8, 7, (x * y % 256) as u8]));
    let values = fine.clone().into_raw();
    let mut same: Vec<u8> = Vec::new();
    image::DynamicImage::ImageRgba8(fine)
        .write_to(&mut std::io::Cursor::new(&mut same), image::ImageFormat::Png)
        .unwrap();
    assert_eq!(base_icon(&same), values);
    assert_eq!(base_icon(b"no picture"), vec![0u8; 4096]);
    assert_eq!(icon_or_blank(None), vec![0u8; 4096]);
}

#[test]
fn the_alpha_value_moves_to_the_front() {
    assert_eq!(to_argb(&[1, 2, 3, 4, 5, 6, 7, 8]), vec![4, 1, 2, 3, 8, 5, 6, 7]);
}

#[test]
fn updates_are_counted() {
    assert_eq!(check_update_count(Some("3\n"), Some("2\n")), 5);
    assert_eq!(check_update_count(Some("x"), None), 0);
    assert!(notifies(0, 2));
    assert!(!notifies(1, 2) && !notifies(0, 0));
}

#[test]
fn texts_of_the_tray() {
    assert_eq!(tray_title(0), "XeroLinux Package Manager");
    assert_eq!(tray_title(2), "XeroLinux Package Manager (2 updates)");
    assert_eq!(updates_text(1), "1 update available (native + flatpak)");
    assert_eq!(tool_tip(2), "2 updates available (native + flatpak)");
    assert_eq!(tool_tip(0), "System is up to date");
    assert_eq!(update_label(3), "Update System (3 available)");
    assert_eq!(update_label(0), "Update System");
    let notice = update_notice(0);
    assert_eq!((notice.summary.as_str(), notice.timeout_ms, notice.offers_update), ("System is up to date", Some(5000), false));
    let notice = update_notice(1);
    assert_eq!((notice.body.as_str(), notice.timeout_ms, notice.offers_update), ("1 update available (native + flatpak)", None, true));
    assert_eq!(autostart_path("/home/a"), "/home/a/.config/autostart/xpackagemanager.desktop");
    assert_eq!(instance_lock_path(1000), "/tmp/xpackagemanager-1000.lock");
    assert_eq!(instance_socket_path(1000), "/tmp/xpackagemanager-1000.sock");
    assert!(autostart_entry("/usr/bin/xpm").contains("\nExec=/usr/bin/xpm --tray\n"));
}

#[test]
fn uptime_in_words() {
    assert_eq!(format_uptime(59), "0m");
    assert_eq!(format_uptime(3_700), "1h 1m");
    assert_eq!(format_uptime(90_000), "1d 1h 0m");
}

#[test]
fn the_distribution_is_recognised() {
    assert!(is_xerolinux("NAME=\"XeroLinux\"\nID=xerolinux\n"));
    assert!(!is_xerolinux("NAME=\"Arch Linux\"\nID=arch\n"));
}

#[test]
fn facts_about_the_system() {
    let s = SysSources {
        version: "Linux version 6.9.1-arch1 (builder) gcc".to_string(),
        uptime_secs: 3_700,
        cpuinfo: "processor : 0\nmodel name : Fast CPU @ 3GHz\n".to_string(),
        meminfo: "MemTotal:       16777216 kB\nMemFree: 1 kB\nMemAvailable:    8388608 kB\n".to_string(),
        gpus: Vec::new() as Vec<GpuFiles>,
        df: None,
        hostname: "box\n".to_string(),
        os_release: "NAME=\"Arch\"\nPRETTY_NAME=\"Arch Linux\"\n".to_string(),
    };
    let info = load_sys_info(&s);
    assert_eq!(info.kernel, "6.9.1-arch1");
    assert_eq!(info.uptime, "1h 1m");
    assert_eq!(info.hostname, "box");
    assert_eq!(info.distro, "Arch");
    assert!(info.cpu.contains("Fast CPU"));
    assert!(info.ram_total.contains("16"));
}

#[test]
fn recent_activity_comes_latest_first() {
    let log = "[2024-05-01T10:00:00+0000] [ALPM] installed foo (1.0-1)\n[2024-05-02T10:00:00+0000] [ALPM] upgraded bar (1.0-1 -> 1.1-1)\n[2024-05-03T10:00:00+0000] [PACMAN] Running 'pacman -Syu'\n[2024-05-04T10:00:00+0000] [ALPM] removed baz (2-1)\n";
    let list = load_recent_activity(log);
    let names: Vec<&str> = list.iter().map(|a| a.package.as_str()).collect();
    assert_eq!(names, vec!["baz", "bar", "foo"]);
    assert_eq!(list[0].date, "2024-05-04");
    let many = log.repeat(50);
    assert!(load_recent_activity(&many).len() <= 20);
}
