use ditto::bootstrap::{config_preamble, empty_module, empty_module_declaration, gitignore_text, new_config, package_json_workspace, Flavour};
use ditto::config::{mk_packages_dir, Config, PackageSpec, Target};
use ditto::names::PackageName;
use ditto::version::Version;

fn package(name: &str) -> PackageName {
    PackageName::new_unchecked(name.to_string())
}

#[test]
fn it_configures_new_projects() {
    let bland = new_config(package("my-project"), Flavour::Bland);
    assert!(bland.targets.is_empty());
    assert!(!bland.targets_js());
    let js = new_config(package("my-project"), Flavour::JavaScript);
    assert_eq!(js.targets.len(), 1);
    assert!(js.targets[0] == Target::Nodejs);
    assert!(js.targets_js());
    assert_eq!(js.name.as_str(), "my-project");
}

#[test]
fn it_writes_gitignores() {
    let config = Config::new(package("my-project"));
    assert_eq!(gitignore_text(&config, Flavour::Bland), ".ditto");
    assert_eq!(gitignore_text(&config, Flavour::JavaScript), ".ditto\ndist\nnode_modules");
}

#[test]
fn it_writes_package_json_workspaces() {
    let config = Config::new(package("my-project"));
    assert_eq!(package_json_workspace(&config), "packages/*");
}

#[test]
fn it_writes_config_preambles() {
    assert_eq!(
        config_preamble("abc123"),
        "# Welcome to your new ditto project!\n#\n# Options for this file can be found at:\n# https://github.com/ditto-lang/ditto/tree/abc123/crates/ditto-config#readme"
    );
}

#[test]
fn it_names_the_first_module_in_pascal_case() {
    let config = Config::new(package("my-project"));
    let (path, contents) = empty_module(&config);
    assert_eq!(path, "src/MyProject.ditto");
    assert_eq!(contents, "module MyProject exports (..);");
    assert_eq!(empty_module_declaration("Core"), "module Core exports (..);");
}

#[test]
fn it_places_installed_packages() {
    let mut config = Config::new(package("my-project"));
    assert_eq!(mk_packages_dir(&config), ".ditto/packages");
    config.ditto_dir = "build/".to_string();
    assert_eq!(mk_packages_dir(&config), "build/packages");
    config.ditto_dir = String::new();
    assert_eq!(mk_packages_dir(&config), "packages");
}

#[test]
fn it_resolves_packages_from_the_package_set() {
    let mut config = Config::new(package("my-project"));
    assert!(config.resolve_packages().is_empty());
    config.package_set.packages.push((package("dep"), PackageSpec::Path { path: "../dep".to_string() }));
    let packages = config.resolve_packages();
    assert_eq!(packages.len(), 1);
    assert_eq!(packages[0].0.as_str(), "dep");
}

#[test]
fn it_renders_versions() {
    let v = Version::new_test();
    assert_eq!(v.render_short(), "0.0.0");
    assert_eq!(v.render_long(), "0.0.0 test\nbuilt at: 1970-01-01T00:00:00Z");
    let dirty = Version {
        semversion: "0.1.0".to_string(),
        git_rev: "abc".to_string(),
        git_is_dirty: true,
        build_time: "2022-01-01T00:00:00Z".to_string(),
        build_profile: "release".to_string(),
    };
    assert_eq!(dirty.render_short(), "0.1.0*");
    assert_eq!(dirty.render_long(), "0.1.0* release\nbuilt at: 2022-01-01T00:00:00Z");
}

#[test]
fn it_knows_default_js_configs() {
    let mut config = Config::new(package("my-project"));
    assert!(config.codegen_js_config.is_default());
    config.codegen_js_config.package_json_additions = Some("{\"license\":\"MIT\"}".to_string());
    assert!(!config.codegen_js_config.is_default());
}
