use addon_installer::addons::{
    addons_default, default_addons_dir, discover_addon_folder, Addon, Addons, FolderProblem,
};

fn strings(parts: &[&str]) -> Vec<String> {
    parts.iter().map(|s| s.to_string()).collect()
}

#[test]
fn a_new_addon_is_uninstalled_and_owns_nothing() {
    let a = Addon::new("https://example.test/foo");
    assert_eq!(a.url, "https://example.test/foo");
    assert!(a.installed.is_none());
    assert!(a.folders.is_empty());
}

#[test]
fn needs_update_when_nothing_is_installed() {
    let a = Addon::new("u");
    assert!(a.needs_update(&"1.0 (5)".to_string()));
}

#[test]
fn needs_update_only_on_a_different_version() {
    let mut a = Addon::new("u");
    a.record_install("1.0 (5)".to_string(), strings(&["Foo"]));
    assert!(!a.needs_update(&"1.0 (5)".to_string()));
    assert!(a.needs_update(&"1.1 (6)".to_string()));
}

#[test]
fn record_install_replaces_version_and_folders() {
    let mut a = Addon::new("u");
    a.record_install("2.0 (9)".to_string(), strings(&["Foo", "Bar"]));
    assert_eq!(a.installed, Some("2.0 (9)".to_string()));
    assert_eq!(a.folders, strings(&["Foo", "Bar"]));
    assert_eq!(a.url, "u");
}

#[test]
fn is_installed_finds_a_tracked_url() {
    let addons = Addons {
        addon_folder: "dest".to_string(),
        addons: vec![Addon::new("a"), Addon::new("b")],
    };
    assert!(addons.is_installed("a"));
    assert!(addons.is_installed("b"));
    assert!(!addons.is_installed("c"));
}

#[test]
fn check_folder_rejects_an_unset_folder() {
    let addons = addons_default(String::new());
    assert_eq!(addons.check_folder(true), Err(FolderProblem::NotSet));
    assert_eq!(addons.check_folder(false), Err(FolderProblem::NotSet));
}

#[test]
fn check_folder_rejects_a_non_directory() {
    let addons = addons_default("somewhere".to_string());
    assert_eq!(addons.check_folder(false), Err(FolderProblem::NotADirectory));
    assert_eq!(addons.check_folder(true), Ok(()));
}

#[test]
fn discover_uses_the_default_dir_only_when_it_exists() {
    assert_eq!(
        discover_addon_folder(true, true),
        "/Applications/World of Warcraft/Interface/Addons"
    );
    assert_eq!(
        discover_addon_folder(false, true),
        "C:\\Program Files (x86)\\World of Warcraft\\Interface\\Addons"
    );
    assert_eq!(discover_addon_folder(true, false), "");
    assert_eq!(discover_addon_folder(false, false), "");
    assert_eq!(default_addons_dir(true), discover_addon_folder(true, true));
}

#[test]
fn a_default_configuration_tracks_no_addons() {
    let addons = addons_default("dest".to_string());
    assert_eq!(addons.addon_folder, "dest");
    assert!(addons.addons.is_empty());
}
