use pacsync::packages::{PackageManager, PackageOrGroup, PackageOrGroupSet};
use pacsync::reader::{
    insert_packages, parse_package_manager, parse_package_or_group, read, ConfigReaderError,
};

fn lines(text: &[&str]) -> Vec<String> {
    text.iter().map(|l| l.to_string()).collect()
}

#[test]
fn reader_nominal_case() {
    let files = vec![
        lines(&["# first file", "package_1", "", "   ", "local/package_1_2"]),
        lines(&["package_1_1", "pacman/package_1_1_1", "package_1_1_2"]),
        lines(&["package_1_1_3", "\t", "package_1_1_4"]),
        lines(&["package_1_3", "local/package_1_4"]),
        lines(&["#package_9", "package_2", "package_2_1", "package_2_2"]),
        lines(&["package_2_3", "package_2_4"]),
        lines(&["package_3"]),
        lines(&["package_4", "package_4"]),
    ];
    let reference = read(&files).unwrap();

    let mut expected = PackageOrGroupSet::new();
    expected.insert(PackageOrGroup::new("package_1".to_string(), PackageManager::PACMAN));
    expected.insert(PackageOrGroup::new("package_1_1".to_string(), PackageManager::PACMAN));
    expected.insert(PackageOrGroup::new("package_1_1_1".to_string(), PackageManager::PACMAN));
    expected.insert(PackageOrGroup::new("package_1_1_2".to_string(), PackageManager::PACMAN));
    expected.insert(PackageOrGroup::new("package_1_1_3".to_string(), PackageManager::PACMAN));
    expected.insert(PackageOrGroup::new("package_1_1_4".to_string(), PackageManager::PACMAN));
    expected.insert(PackageOrGroup::new("package_1_2".to_string(), PackageManager::LOCAL));
    expected.insert(PackageOrGroup::new("package_1_3".to_string(), PackageManager::PACMAN));
    expected.insert(PackageOrGroup::new("package_1_4".to_string(), PackageManager::LOCAL));
    expected.insert(PackageOrGroup::new("package_2".to_string(), PackageManager::PACMAN));
    expected.insert(PackageOrGroup::new("package_2_1".to_string(), PackageManager::PACMAN));
    expected.insert(PackageOrGroup::new("package_2_2".to_string(), PackageManager::PACMAN));
    expected.insert(PackageOrGroup::new("package_2_3".to_string(), PackageManager::PACMAN));
    expected.insert(PackageOrGroup::new("package_2_4".to_string(), PackageManager::PACMAN));
    expected.insert(PackageOrGroup::new("package_3".to_string(), PackageManager::PACMAN));
    expected.insert(PackageOrGroup::new("package_4".to_string(), PackageManager::PACMAN));
    assert_eq!(reference, expected);
    assert_eq!(reference.len(), 16);
}

#[test]
fn qualifier_forms() {
    let foo = PackageOrGroup::new("foo".to_string(), PackageManager::PACMAN);
    assert_eq!(parse_package_or_group("pacman/foo").unwrap(), foo);
    assert_eq!(parse_package_or_group("foo").unwrap(), foo);
    assert_eq!(
        parse_package_or_group("local/bar").unwrap(),
        PackageOrGroup::new("bar".to_string(), PackageManager::LOCAL)
    );
    assert_eq!(
        parse_package_or_group("a/b/c"),
        Err(ConfigReaderError::TooManyQualifiers("a/b/c".to_string()))
    );
    assert_eq!(
        parse_package_or_group("ghost/pkg"),
        Err(ConfigReaderError::UnknownProvider("ghost".to_string()))
    );
}

#[test]
fn qualifier_edge_cases() {
    assert_eq!(
        parse_package_or_group("local/").unwrap(),
        PackageOrGroup::new("".to_string(), PackageManager::LOCAL)
    );
    assert_eq!(
        parse_package_or_group("/pkg"),
        Err(ConfigReaderError::UnknownProvider("".to_string()))
    );
    assert_eq!(
        parse_package_or_group("//"),
        Err(ConfigReaderError::TooManyQualifiers("//".to_string()))
    );
    assert_eq!(
        parse_package_or_group("é/x"),
        Err(ConfigReaderError::UnknownProvider("é".to_string()))
    );
}

#[test]
fn provider_tokens() {
    assert_eq!(parse_package_manager("local"), Ok(PackageManager::LOCAL));
    assert_eq!(parse_package_manager("pacman"), Ok(PackageManager::PACMAN));
    assert_eq!(
        parse_package_manager("Pacman"),
        Err(ConfigReaderError::UnknownProvider("Pacman".to_string()))
    );
}

#[test]
fn comments_and_blank_lines_are_skipped() {
    let mut reference = PackageOrGroupSet::new();
    let file = lines(&["# a/b/c", "", " \t ", "\u{a0}\u{3000}", "vim", " #not a comment"]);
    assert_eq!(insert_packages(&file, &mut reference), Ok(()));
    let mut expected = PackageOrGroupSet::new();
    expected.insert(PackageOrGroup::new("vim".to_string(), PackageManager::PACMAN));
    expected.insert(PackageOrGroup::new(" #not a comment".to_string(), PackageManager::PACMAN));
    assert_eq!(reference, expected);
}

#[test]
fn first_bad_line_is_reported() {
    let mut reference = PackageOrGroupSet::new();
    let file = lines(&["vim", "x/y", "a/b/c"]);
    assert_eq!(
        insert_packages(&file, &mut reference),
        Err(ConfigReaderError::UnknownProvider("x".to_string()))
    );
    let files = vec![lines(&["vim"]), lines(&["a/b/c", "x/y"])];
    assert_eq!(read(&files), Err(ConfigReaderError::TooManyQualifiers("a/b/c".to_string())));
}

#[test]
fn no_files_give_empty_set() {
    let files: Vec<Vec<String>> = Vec::new();
    assert!(read(&files).unwrap().is_empty());
}
