use pacsync::compute_actions::Actions;
use pacsync::packages::{Package, PackageManager, PackageOrGroup, PackageOrGroupSet, PackageSet};
use pacsync::pacman::{
    build_install_command, build_remove_command, merge_packages, parse_group, parse_pacman_groups,
    parse_pacman_packages, PacmanError,
};

fn group_of(set: &PackageSet, name: &str) -> Option<Option<String>> {
    for i in 0..set.len() {
        if set.get(i).name == name {
            return Some(set.get(i).group.clone());
        }
    }
    None
}

#[test]
fn parse_groups_nominal() {
    let output = b"gnome baobab\ngnome epiphany\ngnome evince\ngnome gdm\n".to_vec();
    let groups = parse_pacman_groups(output).unwrap();
    assert_eq!(groups.len(), 4);
    for name in ["baobab", "epiphany", "evince", "gdm"] {
        assert_eq!(group_of(&groups, name), Some(Some("gnome".to_string())));
    }
}

#[test]
fn parse_packages_nominal() {
    let output = b"amd-ucode\nbaobab\nbase\nblender\n".to_vec();
    let packages = parse_pacman_packages(output).unwrap();
    assert_eq!(packages.len(), 4);
    for name in ["amd-ucode", "baobab", "base", "blender"] {
        assert_eq!(group_of(&packages, name), Some(None));
    }
}

#[test]
fn merge_packages_nominal() {
    let groups = parse_pacman_groups(b"gnome baobab\ngnome epiphany\ngnome evince\ngnome gdm\n".to_vec())
        .unwrap();
    let packages = parse_pacman_packages(b"amd-ucode\nbaobab\nbase\nblender\n".to_vec()).unwrap();
    let merged = merge_packages(groups, packages);
    assert_eq!(merged.len(), 7);
    for name in ["baobab", "epiphany", "evince", "gdm"] {
        assert_eq!(group_of(&merged, name), Some(Some("gnome".to_string())));
    }
    for name in ["amd-ucode", "base", "blender"] {
        assert_eq!(group_of(&merged, name), Some(None));
    }
}

#[test]
fn group_row_forms() {
    assert_eq!(
        parse_group("gnome baobab").unwrap(),
        Package::new("baobab".to_string(), Some("gnome".to_string()))
    );
    assert_eq!(parse_group("gnome baobab").unwrap().group, Some("gnome".to_string()));
    match parse_group("gnome baobab extra") {
        Err(PacmanError::ParseGroupError(m)) => assert_eq!(m, "gnome baobab extra"),
        other => panic!("unexpected {:?}", other),
    }
    match parse_group("baobab") {
        Err(PacmanError::ParseGroupError(m)) => assert_eq!(m, "baobab"),
        other => panic!("unexpected {:?}", other),
    }
}

#[test]
fn bad_group_rows_are_all_reported() {
    match parse_pacman_groups(b"gnome baobab\nbad\n\nx y z\n".to_vec()) {
        Err(PacmanError::ParseGroupError(m)) => assert_eq!(
            m,
            "cannot read pacman output because:\n -  - parsing group error: bad\n - parsing group error: x y z\n"
        ),
        other => panic!("unexpected {:?}", other),
    }
}

#[test]
fn invalid_utf8_is_rejected() {
    assert!(matches!(parse_pacman_groups(vec![0x67, 0xff, 0x0a]), Err(PacmanError::Utf8(_))));
    assert!(matches!(parse_pacman_packages(vec![0xc0, 0x80]), Err(PacmanError::Utf8(_))));
}

#[test]
fn non_ascii_listing_is_decoded() {
    let packages = parse_pacman_packages("café\nnaïve".as_bytes().to_vec()).unwrap();
    assert_eq!(packages.len(), 2);
    assert_eq!(group_of(&packages, "café"), Some(None));
    assert_eq!(group_of(&packages, "naïve"), Some(None));
}

#[test]
fn empty_listings() {
    assert!(parse_pacman_groups(Vec::new()).unwrap().is_empty());
    assert!(parse_pacman_packages(b"\n\n".to_vec()).unwrap().is_empty());
}

#[test]
fn commands_list_pacman_entries() {
    let mut to_add = PackageOrGroupSet::new();
    to_add.insert(PackageOrGroup::new("vim".to_string(), PackageManager::PACMAN));
    to_add.insert(PackageOrGroup::new("mytool".to_string(), PackageManager::LOCAL));
    to_add.insert(PackageOrGroup::new("gnome".to_string(), PackageManager::PACMAN));
    let mut to_delete = PackageOrGroupSet::new();
    to_delete.insert(PackageOrGroup::new("nano".to_string(), PackageManager::PACMAN));
    let actions = Actions { to_add, to_delete };
    assert_eq!(build_install_command(&actions), vec!["sudo", "pacman", "-S", "vim", "gnome"]);
    assert_eq!(build_remove_command(&actions), vec!["sudo", "pacman", "-R", "nano"]);
}
