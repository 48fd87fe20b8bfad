use ditto::config::PackageSpec;
use ditto::names::PackageName;
use ditto::pkg::{dependency_action, extension_of, installed_entries, is_package_entry, stem_of, DependencyAction};

fn pkg(name: &str) -> PackageName {
    PackageName::new_unchecked(name.to_string())
}

fn path(p: &str) -> PackageSpec {
    PackageSpec::Path { path: p.to_string() }
}

#[test]
fn it_reads_file_extensions_and_stems() {
    assert_eq!(extension_of("core.spec"), Some("spec".to_string()));
    assert_eq!(extension_of("a.b.spec"), Some("spec".to_string()));
    assert_eq!(extension_of(".spec"), None);
    assert_eq!(extension_of("core"), None);
    assert_eq!(stem_of("a.b.spec"), "a.b");
    assert_eq!(stem_of(".spec"), ".spec");
    assert_eq!(stem_of("core"), "core");
}

#[test]
fn it_lists_package_entries() {
    assert!(is_package_entry("core"));
    assert!(!is_package_entry("_hash"));
    assert!(!is_package_entry("core.spec"));
    assert!(is_package_entry(".spec"));
}

#[test]
fn it_finds_installed_packages_and_leftovers() {
    let entries: Vec<String> =
        ["core", "core.spec", "stray.spec", "junk", "js-console.spec", "js-console"].iter().map(|s| s.to_string()).collect();
    let (pairs, keep) = installed_entries(&entries);
    assert_eq!(pairs, vec![("core".to_string(), 1, 0), ("js-console".to_string(), 4, 5)]);
    assert_eq!(keep, vec![true, true, false, false, true, true]);
}

#[test]
fn it_decides_what_to_do_with_a_dependency() {
    let installed = vec![(pkg("core"), path("../core")), (pkg("old"), path("../old"))];
    let available = vec![(pkg("core"), path("../core2")), (pkg("new"), path("../new")), (pkg("same"), path("./same"))];
    let installed_same = vec![(pkg("same"), path("./same"))];
    assert!(dependency_action(&pkg("core"), &vec![pkg("core")], &installed, &available) == DependencyAction::Skip);
    assert!(dependency_action(&pkg("core"), &vec![], &installed, &available) == DependencyAction::Reinstall);
    assert!(dependency_action(&pkg("same"), &vec![], &installed_same, &available) == DependencyAction::Keep);
    assert!(dependency_action(&pkg("new"), &vec![], &installed, &available) == DependencyAction::Install);
    assert!(dependency_action(&pkg("old"), &vec![], &installed, &available) == DependencyAction::NoLongerInSet);
    assert!(dependency_action(&pkg("gone"), &vec![], &installed, &available) == DependencyAction::NotInSet);
}
