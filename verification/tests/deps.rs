use xpm::deps::{
    all_installed_map, batch_deps, build_dep_tree, clean_dep_name, file_deps, is_installable,
    missing_names, parse_qi_block, paths_in, parse_qi_fields, parse_si_block, resolve_dep_list,
    resolve_file_dep, root_version, second_level_names, sync_version, trim_version, DepKnowledge,
    NameMap,
};

const QI: &str = "Name            : foo\nVersion         : 1.0-1\nDepends On      : glibc  bar>=2  None\n                  /usr/lib/libz.so\nOptional Deps   : baz: for extra things [installed]\n                  qux: more\nRequired By     : app1  app2\nOptional For    : None\n";

fn owners() -> NameMap {
    let mut m = NameMap::new();
    m.insert("/usr/lib/libz.so".to_string(), "zlib".to_string());
    m
}

#[test]
fn names_of_dependencies_are_cleaned() {
    assert_eq!(clean_dep_name("glibc>=2.38"), "glibc");
    assert_eq!(clean_dep_name("foo=1.0"), "foo");
    assert_eq!(clean_dep_name("bar<3"), "bar");
    assert_eq!(clean_dep_name("plain"), "plain");
}

#[test]
fn versions_are_trimmed() {
    assert_eq!(trim_version("5.2.1+r604+g0b99615a8aef-1"), "5.2.1");
    assert_eq!(trim_version("2.43+r5+g856c426a7534-1"), "2.43");
    assert_eq!(trim_version("1:2.3.4-5"), "1:2.3.4-5");
    assert_eq!(trim_version("1.0--"), "1.0");
    assert_eq!(trim_version("2.3.4"), "2.3.4");
}

#[test]
fn installed_packages_are_mapped() {
    let m = all_installed_map("foo 1.0-1\nbar 2:3-4 \nbroken\n");
    assert_eq!(m.get("foo"), Some("1.0-1"));
    assert_eq!(m.get("bar"), Some("2:3-4"));
    assert!(!m.contains("broken"));
    assert_eq!(root_version(&m, "foo"), "1.0-1");
    assert_eq!(root_version(&m, "none"), "");
}

#[test]
fn dependencies_of_an_installed_package() {
    let d = parse_qi_block(QI, &owners());
    assert_eq!(d.depends, vec!["glibc", "bar", "zlib"]);
    assert_eq!(d.optional, vec!["baz", "for", "extra", "things", "[installed]", "qux", "more"]);
    assert_eq!(d.required_by, vec!["app1", "app2"]);
}

#[test]
fn only_the_first_package_is_read() {
    let two = format!("{}\nName            : other\nDepends On      : more\n", QI);
    assert_eq!(parse_qi_fields(&two).depends.len(), parse_qi_fields(QI).depends.len());
}

#[test]
fn dependencies_of_a_package_in_a_repository() {
    let d = parse_si_block("Repository      : extra\nName            : foo\nDepends On      : glibc  bar>=2\nOptional Deps   : baz: extra\n", &NameMap::new());
    assert_eq!(d.depends, vec!["glibc", "bar"]);
    assert_eq!(d.optional, vec!["baz", "extra"]);
}

#[test]
fn files_are_resolved_to_their_owners() {
    let list = vec!["/usr/lib/libz.so".to_string(), "glibc".to_string(), "zlib".to_string()];
    assert_eq!(file_deps(&list), vec!["/usr/lib/libz.so"]);
    assert_eq!(paths_in("Depends On : glibc /usr/bin/sh\n  /usr/lib/a.so>=1"), vec!["/usr/bin/sh", "/usr/lib/a.so"]);
    assert_eq!(resolve_dep_list(&list, &owners()), vec!["zlib", "glibc", "zlib"]);
    let twice = vec!["zlib".to_string(), "/usr/lib/libz.so".to_string(), "libfoo.so=1".to_string()];
    assert_eq!(resolve_dep_list(&twice, &owners()), vec!["zlib"]);
    assert_eq!(
        resolve_file_dep("/usr/bin/env is owned by coreutils 9.5-1\n"),
        Some("coreutils".to_string())
    );
    assert_eq!(resolve_file_dep(""), None);
}

#[test]
fn several_packages_are_read_at_once() {
    let table = batch_deps("Name            : a\nDepends On      : x  y\nName            : b\nDepends On      : None\n", &NameMap::new());
    assert_eq!(table.len(), 2);
    assert_eq!(table[0].name, "a");
    assert_eq!(table[0].deps, vec!["x", "y"]);
    assert!(table[1].deps.is_empty());
}

#[test]
fn the_version_in_a_repository() {
    assert_eq!(sync_version("Name            : foo\nVersion         : 3.1+r2-2\n"), "3.1");
    assert_eq!(sync_version("Name : foo\n"), "");
}

#[test]
fn a_tree_shows_installed_and_installable_packages() {
    let installed = all_installed_map("foo 1.0-1\nglibc 2.39-1\nbar 2.5-1\nzlib 1.3-1\napp1 1-1\n");
    let d = parse_qi_block(QI, &owners());
    assert_eq!(second_level_names(&installed, &d), vec!["glibc", "bar", "zlib"]);
    let table = batch_deps("Name            : glibc\nDepends On      : linux-api-headers  tzdata\n", &NameMap::new());
    let missing = missing_names(&installed, &d, &table);
    for name in ["baz", "qux", "linux-api-headers", "tzdata"] {
        assert!(missing.contains(&name.to_string()), "{}", name);
    }
    assert!(!missing.contains(&"glibc".to_string()));
    let k = DepKnowledge { installed, installable: vec!["baz".to_string(), "tzdata".to_string()], second: table };
    let (tree, required) = build_dep_tree(&k, &d);
    let names: Vec<&str> = tree.iter().map(|n| n.name.as_str()).collect();
    assert!(names.contains(&"glibc") && names.contains(&"zlib") && names.contains(&"baz"));
    assert!(!names.contains(&"qux"));
    let glibc = tree.iter().find(|n| n.name == "glibc").unwrap();
    assert!(glibc.installed && !glibc.installable);
    assert_eq!(glibc.version, "2.39-1");
    let baz = tree.iter().find(|n| n.name == "baz").unwrap();
    assert!(baz.is_optional && !baz.installed && baz.installable);
    assert!(tree.iter().chain(&required).all(|n| !n.is_root));
    assert_eq!((tree[0].name.as_str(), tree[0].prefix.as_str()), ("glibc", "├─ "));
    assert_eq!((tree[1].name.as_str(), tree[1].prefix.as_str(), tree[1].depth), ("tzdata", "│  └─ ", 2));
    let names: Vec<&str> = required.iter().map(|n| n.name.as_str()).collect();
    assert!(names.contains(&"app1"));
}

#[test]
fn packages_of_repositories_can_be_installed() {
    assert!(is_installable("foo", "extra/foo 1.0-1\n    A thing\n"));
    assert!(!is_installable("foo", ""));
    assert!(!is_installable("foo", "extra/foobar 1.0-1\n    A thing\n"));
    assert!(!is_installable("bash", "core/bash 5.2.037-1 [installed]\n    The shell\n"));
    assert!(!is_installable("bash", "core/bash 5.2.037-1 (base) [installed: 5.2.026-2]\n    The shell\n"));
    let others = "core/bash 5.2.037-1 [installed]\n    The shell\nextra/bash-completion 2.14-1\n    More\n";
    assert!(is_installable("bash-completion", others));
    assert!(!is_installable("bash", "testing/bash 5.3-1\n    New\ncore/bash 5.2-1 [installed]\n    Old\n"));
}
