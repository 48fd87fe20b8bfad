use ditto::config::{hash_packages_inputs, mk_hash_file, sort_packages_inputs, default_ditto_dir, default_js_dist_dir, default_js_packages_dir, default_src, Config, PackageSet, PackageSpec, Target};
use ditto::names::PackageName;

#[test]
fn it_accepts_valid_package_names() {
    for name in ["a", "test-stuff", "core", "js-console", "x1-2"] {
        let p = PackageName::new(name.to_string());
        assert!(p.is_ok(), "{name} should be accepted");
        assert_eq!(p.ok().unwrap().as_str(), name);
    }
}

#[test]
fn it_rejects_invalid_package_names() {
    for name in ["", "Core", "1abc", "-abc", "foo_bar", "foo bar", "fooBar"] {
        let p = PackageName::new(name.to_string());
        assert!(p.is_err(), "{name} should be refused");
        assert_eq!(
            p.err().unwrap(),
            "package name must start with a lowercase letter, and contain lower case letters, numbers and hyphens"
        );
    }
}

#[test]
fn it_unwraps_package_names() {
    let p = PackageName::new_unchecked("Whatever Goes".to_string());
    assert_eq!(p.as_str(), "Whatever Goes");
    assert_eq!(p.into_string(), "Whatever Goes");
}

#[test]
fn it_makes_default_configs() {
    let config = Config::new(PackageName::new_unchecked("test".to_string()));
    assert_eq!(config.name.as_str(), "test");
    assert!(config.required_ditto_version.is_none());
    assert!(config.targets.is_empty());
    assert!(config.dependencies.is_empty());
    assert_eq!(config.src_dir, "src");
    assert_eq!(config.ditto_dir, ".ditto");
    assert_eq!(config.codegen_js_config.dist_dir, "dist");
    assert_eq!(config.codegen_js_config.packages_dir, "packages");
    assert!(config.codegen_js_config.is_default());
    assert!(config.package_set.is_empty());
    assert!(!config.targets_js());
    assert_eq!(default_src(), "src");
    assert_eq!(default_ditto_dir(), ".ditto");
    assert_eq!(default_js_dist_dir(), "dist");
    assert_eq!(default_js_packages_dir(), "packages");
}

#[test]
fn it_knows_javascript_targets() {
    let mut config = Config::new(PackageName::new_unchecked("test".to_string()));
    config.targets.push(Target::Web);
    assert!(config.targets_js());
    let mut config = Config::new(PackageName::new_unchecked("test".to_string()));
    config.targets.push(Target::Nodejs);
    assert!(config.targets_js());
}

#[test]
fn it_counts_packages() {
    let mut set = PackageSet::new();
    assert!(set.is_empty());
    set.packages.push((PackageName::new_unchecked("dep".to_string()), PackageSpec::Path { path: "../dep".to_string() }));
    assert!(!set.is_empty());
}

fn pkg(name: &str) -> PackageName {
    PackageName::new_unchecked(name.to_string())
}

fn path(p: &str) -> PackageSpec {
    PackageSpec::Path { path: p.to_string() }
}

#[test]
fn it_places_the_hash_file_among_the_packages() {
    assert_eq!(mk_hash_file(&".ditto/packages".to_string()), ".ditto/packages/_hash");
    assert_eq!(mk_hash_file(&"packages/".to_string()), "packages/_hash");
}

#[test]
fn it_sorts_the_packages_inputs_by_name() {
    let (deps, pkgs) = sort_packages_inputs(
        vec![pkg("zed"), pkg("core"), pkg("js-console")],
        vec![(pkg("b"), path("./b")), (pkg("a"), path("./a"))],
    );
    let names: Vec<&str> = deps.iter().map(|d| d.as_str()).collect();
    assert_eq!(names, vec!["core", "js-console", "zed"]);
    let names: Vec<&str> = pkgs.iter().map(|p| p.0.as_str()).collect();
    assert_eq!(names, vec!["a", "b"]);
}

#[test]
fn it_hashes_the_packages_inputs_whatever_their_order() {
    let h1 = hash_packages_inputs(
        &vec![pkg("core"), pkg("zed")],
        &vec![(pkg("a"), path("./a")), (pkg("b"), path("./b"))],
    );
    let h2 = hash_packages_inputs(
        &vec![pkg("zed"), pkg("core")],
        &vec![(pkg("b"), path("./b")), (pkg("a"), path("./a"))],
    );
    assert_eq!(h1, h2);
    let h3 = hash_packages_inputs(
        &vec![pkg("core"), pkg("zed")],
        &vec![(pkg("a"), path("./a")), (pkg("b"), path("./c"))],
    );
    assert_ne!(h1, h3);
}
