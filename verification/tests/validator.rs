use srmd::args::get_dirname_from_args;
use srmd::error::Error;
use srmd::path::CanonicalPath;
use srmd::validate::{ensure_is_dir, ensure_is_subdirectory, FileKind};

fn parsed(s: &str) -> CanonicalPath {
    CanonicalPath::parse(s).expect("the test path is canonical")
}

#[test]
fn get_dirname_from_args_returns_first_argument_after_program_name() {
    let args = vec![
        "srmd".to_string(),
        "target-dir".to_string(),
        "ignored".to_string(),
    ];
    let dirname = get_dirname_from_args(&args).unwrap();
    assert_eq!(dirname, "target-dir");
}

#[test]
fn get_dirname_from_args_errors_when_missing_argument() {
    let args = vec!["srmd".to_string()];
    let err = get_dirname_from_args(&args).unwrap_err();
    assert_eq!(err, Error::MissingArgument);
    assert_eq!(
        err.message(),
        "Please give directory to delete safely as argument"
    );
}

#[test]
fn get_dirname_from_args_errors_when_argument_is_empty() {
    let args = vec!["srmd".to_string(), String::new()];
    let err = get_dirname_from_args(&args).unwrap_err();
    assert_eq!(err, Error::MissingArgument);
    assert_eq!(
        err.message(),
        "Please give directory to delete safely as argument"
    );
}

#[test]
fn ensure_is_dir_accepts_existing_directory() {
    assert!(ensure_is_dir(FileKind::Directory).is_ok());
}

#[test]
fn ensure_is_dir_rejects_file() {
    let err = ensure_is_dir(FileKind::File).unwrap_err();
    assert_eq!(err, Error::NotADirectory);
}

#[test]
fn ensure_is_dir_rejects_nonexistent_path() {
    let err = ensure_is_dir(FileKind::Missing).unwrap_err();
    assert_eq!(err, Error::NotADirectory);
}

#[test]
fn direct_subdirectory_is_ok() {
    let parent = parsed("/a/b");
    let child = parsed("/a/b/c");
    assert!(ensure_is_subdirectory(&parent, &child).is_ok());
}

#[test]
fn same_directory_is_not_subdirectory() {
    let parent = parsed("/a/b");
    let child = parsed("/a/b");
    assert!(ensure_is_subdirectory(&parent, &child).is_err());
}

#[test]
fn parent_directory_is_not_subdirectory() {
    let parent = parsed("/a/b");
    let child = parsed("/a");
    assert!(ensure_is_subdirectory(&parent, &child).is_err());
}

#[test]
fn unrelated_directory_is_not_subdirectory() {
    let parent = parsed("/a/b");
    let child = parsed("/x/y");
    assert!(ensure_is_subdirectory(&parent, &child).is_err());
}

#[test]
fn deeper_nested_directory_is_not_direct_subdirectory() {
    let parent = parsed("/a/b");
    let child = parsed("/a/b/c/d");
    assert!(ensure_is_subdirectory(&parent, &child).is_err());
}

#[test]
fn trailing_slash_does_not_make_same_directory_a_subdirectory() {
    let parent = parsed("/a/b");
    let child = parsed("/a/b/");
    assert!(ensure_is_subdirectory(&parent, &child).is_err());
}

#[test]
fn root_and_direct_child_are_ok() {
    let parent = parsed("/");
    let child = parsed("/tmp");
    assert!(ensure_is_subdirectory(&parent, &child).is_ok());
}

#[test]
fn subdirectory_error_is_not_a_subdirectory() {
    let parent = parsed("/a/b");
    let child = parsed("/a/b/c/d");
    let err = ensure_is_subdirectory(&parent, &child).unwrap_err();
    assert_eq!(err, Error::NotASubdirectory);
    assert_eq!(err.message(), "This is not a subdirectory");
}

#[test]
fn direct_subdirectory_check_is_exact() {
    let parent = parsed("/tmp/X");
    assert!(srmd::validate::is_direct_subdirectory(
        &parent,
        &parsed("/tmp/X/music")
    ));
    assert!(!srmd::validate::is_direct_subdirectory(
        &parent,
        &parsed("/tmp/X")
    ));
    assert!(!srmd::validate::is_direct_subdirectory(
        &parent,
        &parsed("/tmp")
    ));
    assert!(!srmd::validate::is_direct_subdirectory(
        &parent,
        &parsed("/tmp/X/music/old")
    ));
}

#[test]
fn prefix_collision_is_not_subdirectory() {
    let parent = parsed("/a/b");
    let child = parsed("/a/bc");
    assert!(ensure_is_subdirectory(&parent, &child).is_err());
}
