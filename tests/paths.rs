use photo4share::paths::{
    confine, inspect, is_forbidden_name, is_hidden_name, is_within, join_name,
    should_include_name, validate_path, EntryKind, Validation,
};

fn candidate_of(v: Validation) -> String {
    match v {
        Validation::Resolve { candidate } => candidate,
        other => panic!("unexpected {:?}", other),
    }
}

#[test]
fn traversal_names_are_invalid() {
    for name in ["../../etc/passwd", "..", "a..b", "a/b", "/etc/passwd", "a\\b", "..\\x"] {
        assert!(is_forbidden_name(name), "{}", name);
        assert!(matches!(validate_path("/srv/share", name), Validation::Invalid), "{}", name);
    }
}

#[test]
fn plain_names_are_resolved() {
    assert!(!is_forbidden_name("a.txt"));
    assert!(!is_forbidden_name(".hidden"));
    assert!(!is_forbidden_name("a.b.c"));
    assert_eq!(candidate_of(validate_path("/srv/share", "a.txt")), "/srv/share/a.txt");
    assert_eq!(candidate_of(validate_path("/srv/share/", "a.txt")), "/srv/share/a.txt");
}

#[test]
fn candidate_is_cleaned() {
    assert_eq!(candidate_of(validate_path("/srv//share/./", "a.txt")), "/srv/share/a.txt");
    assert_eq!(candidate_of(validate_path("/srv/x/../share", "a.txt")), "/srv/share/a.txt");
    assert_eq!(candidate_of(validate_path("/srv/share", ".")), "/srv/share");
}

#[test]
fn join_follows_path_join() {
    assert_eq!(join_name("/a", "b"), "/a/b");
    assert_eq!(join_name("/a/", "b"), "/a/b");
    assert_eq!(join_name("", "b"), "b");
}

#[test]
fn within_compares_components() {
    assert!(is_within("/srv/share/a.txt", "/srv/share"));
    assert!(is_within("/srv/share", "/srv/share"));
    assert!(is_within("/etc/passwd", "/"));
    assert!(!is_within("/srv/shared/a.txt", "/srv/share"));
    assert!(!is_within("/srv", "/srv/share"));
    assert!(!is_within("/etc/passwd", "/srv/share"));
}

#[test]
fn symlink_escape_is_rejected() {
    // A link inside the root whose target lies outside it.
    let v = confine("/srv/share/link".to_string(), Some("/etc/passwd"), Some("/srv/share"));
    assert!(matches!(v, Validation::Invalid));
    let v = confine("/srv/share/a".to_string(), Some("/srv/share/a"), Some("/srv/share"));
    match v {
        Validation::Inspect { candidate } => assert_eq!(candidate, "/srv/share/a"),
        other => panic!("unexpected {:?}", other),
    }
    assert!(matches!(
        confine("/srv/share/a".to_string(), None, Some("/srv/share")),
        Validation::Invalid
    ));
    assert!(matches!(
        confine("/srv/share/a".to_string(), Some("/srv/share/a"), None),
        Validation::Invalid
    ));
}

#[test]
fn only_regular_files_are_accepted() {
    let file = EntryKind { is_file: true, is_symlink: false };
    let link = EntryKind { is_file: false, is_symlink: true };
    let dir = EntryKind { is_file: false, is_symlink: false };
    match inspect("/srv/share/a".to_string(), file) {
        Validation::Valid { path } => assert_eq!(path, "/srv/share/a"),
        other => panic!("unexpected {:?}", other),
    }
    assert!(matches!(inspect("/srv/share/l".to_string(), link), Validation::Invalid));
    assert!(matches!(inspect("/srv/share/d".to_string(), dir), Validation::Invalid));
}

#[test]
fn hidden_names_are_left_out() {
    assert!(is_hidden_name(".hidden"));
    assert!(!is_hidden_name("a.txt"));
    assert!(!is_hidden_name(""));
    assert!(should_include_name(Some("a.txt")));
    assert!(!should_include_name(Some(".hidden")));
    assert!(!should_include_name(None));
}
