use appto::path::{extension, file_name, join, paths_equal, pick_desktop};

#[test]
fn join_cases() {
    assert_eq!(join("/a", "b"), "/a/b");
    assert_eq!(join("/a/", "b"), "/a/b");
    assert_eq!(join("", "b"), "b");
    assert_eq!(join("/a", "/etc"), "/etc");
    assert_eq!(join("/a", ""), "/a/");
}

#[test]
fn path_equality_compares_components() {
    assert!(paths_equal("/a/b", "/a//b/"));
    assert!(paths_equal("/a/./b", "/a/b"));
    assert!(!paths_equal("./a", "a"));
    assert!(!paths_equal("/a", "a"));
    assert!(!paths_equal("/a/b", "/a/c"));
    assert!(paths_equal("", ""));
}

#[test]
fn file_name_cases() {
    assert_eq!(file_name("/usr/bin/"), Some(String::from("bin")));
    assert_eq!(file_name("tmp/foo.txt"), Some(String::from("foo.txt")));
    assert_eq!(file_name("foo.txt/."), Some(String::from("foo.txt")));
    assert_eq!(file_name("foo.txt/.."), None);
    assert_eq!(file_name("/"), None);
}

#[test]
fn extension_cases() {
    assert_eq!(extension("/x/icon.svg"), Some(String::from("svg")));
    assert_eq!(extension("a.tar.gz"), Some(String::from("gz")));
    assert_eq!(extension(".DirIcon"), None);
    assert_eq!(extension("name"), None);
    assert_eq!(extension("a."), Some(String::from("")));
}

#[test]
fn pick_desktop_takes_the_first_desktop_file_in_sorted_order() {
    let paths: Vec<String> = vec![
        String::from("/s/AppRun"),
        String::from("/s/zeta.desktop"),
        String::from("/s/.desktop"),
        String::from("/s/alpha.desktop"),
        String::from("/s/alpha.desktop.bak"),
        String::from("/s/Beta.desktop"),
    ];
    assert_eq!(pick_desktop(&paths), Some(5));
    let none: Vec<String> = vec![String::from("/s/AppRun"), String::from("/s/icon.png")];
    assert_eq!(pick_desktop(&none), None);
    assert_eq!(pick_desktop(&Vec::new()), None);
    let prefix: Vec<String> = vec![String::from("/s/ab.desktop"), String::from("/s/a.desktop")];
    assert_eq!(pick_desktop(&prefix), Some(1));
}
