use php_checker::analyzer::diagnostic::{Diagnostic, Severity};
use php_checker::analyzer::is_php_file;
use php_checker::analyzer::paths::{count_severity, longest_common_directory, path_contains_glob};

fn bytes(list: &[&str]) -> Vec<Vec<u8>> {
    list.iter().map(|s| s.as_bytes().to_vec()).collect()
}

fn common(list: &[&str]) -> Option<String> {
    longest_common_directory(&bytes(list)).map(|b| String::from_utf8(b).unwrap())
}

#[test]
fn php_extension_is_recognised_in_any_case() {
    assert!(is_php_file("src/index.php"));
    assert!(is_php_file("INDEX.PHP"));
    assert!(is_php_file("/var/www/a.b.Php"));
}

#[test]
fn other_names_are_no_php_files() {
    assert!(!is_php_file("src/index.phtml"));
    assert!(!is_php_file("src/php"));
    assert!(!is_php_file(".php"));
    assert!(!is_php_file("dir.php/readme"));
    assert!(!is_php_file(""));
    assert!(!is_php_file("index.php.bak"));
}

#[test]
fn glob_characters_are_found() {
    assert!(path_contains_glob("src/*.php"));
    assert!(path_contains_glob("src/file?.php"));
    assert!(path_contains_glob("src/[ab].php"));
    assert!(path_contains_glob("src/{a,b}.php"));
    assert!(!path_contains_glob("src/plain.php"));
    assert!(!path_contains_glob(""));
}

#[test]
fn common_directory_of_siblings_is_their_parent() {
    assert_eq!(common(&["/srv/app/src", "/srv/app/tests"]), Some("/srv/app".to_string()));
}

#[test]
fn common_directory_of_one_path_is_that_path() {
    assert_eq!(common(&["/srv/app/src"]), Some("/srv/app/src".to_string()));
}

#[test]
fn common_directory_of_nested_paths_is_the_outer_one() {
    assert_eq!(common(&["/srv/app", "/srv/app/src/deep", "/srv/app/src"]), Some("/srv/app".to_string()));
}

#[test]
fn common_directory_can_be_the_root() {
    assert_eq!(common(&["/srv/app", "/home/me"]), Some("/".to_string()));
}

#[test]
fn common_directory_compares_whole_components() {
    assert_eq!(common(&["/srv/app", "/srv/apple"]), Some("/srv".to_string()));
}

#[test]
fn common_directory_of_relative_paths() {
    assert_eq!(common(&["a/b/c", "a/b/d"]), Some("a/b".to_string()));
    assert_eq!(common(&["a", "b"]), Some(String::new()));
}

#[test]
fn no_common_directory_without_paths_or_with_mixed_origins() {
    assert_eq!(common(&[]), None);
    assert_eq!(common(&["/srv/app", "srv/app"]), None);
}

#[test]
fn severities_are_counted() {
    let list = vec![
        Diagnostic::new(b"a.php".to_vec(), Severity::Error, b"one".to_vec()),
        Diagnostic::new(b"a.php".to_vec(), Severity::Warning, b"two".to_vec()),
        Diagnostic::new(b"b.php".to_vec(), Severity::Error, b"three".to_vec()),
    ];
    assert_eq!(count_severity(&list, Severity::Error), 2);
    assert_eq!(count_severity(&list, Severity::Warning), 1);
    assert_eq!(count_severity(&Vec::new(), Severity::Error), 0);
}
