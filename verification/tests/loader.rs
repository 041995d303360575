use luau_docgen::loader::{
    check_directories, comes_first, logical_path, stable_order, Directory, FilesystemError,
    LoadPlan, Probe,
};
use luau_docgen::syntax::Analysis;

fn analysis(path: &str) -> Analysis {
    Analysis {
        path: path.as_bytes().to_vec(),
        file: vec![],
        source: vec![],
        statements: vec![],
        comments: vec![],
        issues: vec![],
    }
}

#[test]
fn missing_source_directory_is_not_found() {
    assert_eq!(
        check_directories(Probe::Missing, None),
        Err(FilesystemError::NotFound(Directory::Source))
    );
    assert_eq!(
        check_directories(Probe::Missing, Some(Probe::Readable)),
        Err(FilesystemError::NotFound(Directory::Source))
    );
}

#[test]
fn unreadable_directories_are_told_apart_from_missing_ones() {
    assert_eq!(
        check_directories(Probe::Unreadable, None),
        Err(FilesystemError::NotReadable(Directory::Source))
    );
    assert_eq!(
        check_directories(Probe::Readable, Some(Probe::Unreadable)),
        Err(FilesystemError::NotReadable(Directory::Types))
    );
}

#[test]
fn absent_types_directory_means_no_extra_declarations() {
    assert_eq!(check_directories(Probe::Readable, None), Ok(LoadPlan { with_types: false }));
    assert_eq!(
        check_directories(Probe::Readable, Some(Probe::Missing)),
        Ok(LoadPlan { with_types: false })
    );
    assert_eq!(
        check_directories(Probe::Readable, Some(Probe::Readable)),
        Ok(LoadPlan { with_types: true })
    );
}

#[test]
fn logical_path_is_relative_to_the_root() {
    let path = |root: &str, file: &str| {
        String::from_utf8(logical_path(&root.as_bytes().to_vec(), &file.as_bytes().to_vec())).unwrap()
    };
    assert_eq!(path("/p", "/p/src/a.luau"), "src/a.luau");
    assert_eq!(path("/p", "/p/"), "");
    assert_eq!(path("/p", "/pq/a.luau"), "/pq/a.luau");
    assert_eq!(path("/p", "/p"), "/p");
    assert_eq!(path("/p", "/q/a.luau"), "/q/a.luau");
    assert_eq!(path("", "/a.luau"), "a.luau");
    assert_eq!(path("/long/root", "/a"), "/a");
}

#[test]
fn byte_strings_are_compared_lexicographically() {
    let less = |a: &str, b: &str| comes_first(&a.as_bytes().to_vec(), &b.as_bytes().to_vec());
    assert!(less("", "a"));
    assert!(!less("", ""));
    assert!(!less("a", ""));
    assert!(less("a", "b"));
    assert!(less("a", "ab"));
    assert!(!less("ab", "a"));
    assert!(less("ab", "b"));
    assert!(!less("abc", "abc"));
    assert!(less("B", "a"));
    assert!(less("src/a.luau", "src/a/b.luau"));
}

#[test]
fn modules_are_taken_in_path_order() {
    let found = vec![analysis("src/c"), analysis("src/a"), analysis("src/b/x"), analysis("src/b")];
    assert_eq!(stable_order(&found), vec![1, 3, 2, 0]);
    assert_eq!(stable_order(&vec![]), Vec::<usize>::new());
}

#[test]
fn modules_with_one_path_keep_the_order_in_which_they_were_found() {
    let found = vec![analysis("m"), analysis("a"), analysis("m"), analysis("a"), analysis("m")];
    assert_eq!(stable_order(&found), vec![1, 3, 0, 2, 4]);
}
