use fxtrumpet::path::{join_path, opt_paths_equal, paths_equal, windows_file_name};

#[test]
fn file_names_follow_the_windows_rules() {
    let cases = [
        (r"C:\Apps\Spotify.exe", Some("Spotify.exe")),
        (r"C:\Apps\a.b.exe\", Some("a.b.exe")),
        (r"C:\", None),
        (r"C:", None),
        (r"C:x.exe", Some("x.exe")),
        (r"dir/sub\file", Some("file")),
        (r"dir\.", Some("dir")),
        (r"dir\..", None),
        (r"..", None),
        (r".", None),
        (r"\\server\share", None),
        (r"\\server\share\x.exe", Some("x.exe")),
        (r"\\server", Some("server")),
        (r"\\?\C:\x\y.exe", Some("y.exe")),
        (r"\\.\COM42", None),
        (r"\\.\pipe\name", Some("name")),
        (r"//./pipe/name", Some("name")),
        (r"\\?\C:\a/b", Some("a/b")),
        (r"\\?\C:/a\b", Some("b")),
        (r"\\?\C:x\y", Some("y")),
        (r"\\?\C:", None),
        (r"\\?\C:\x\.", None),
        (r"\\?\C:\x\..", None),
        (r"\\?\foo/bar", None),
        (r"\\?\foo\bar", Some("bar")),
        (r"\\?\UNC\server\share", None),
        (r"\\?\UNC\server", None),
        (r"\\?\UNC\server\share\x.exe", Some("x.exe")),
        (r"\\?\UNC\server\share\a/b", Some("a/b")),
        (r"//?/C:/x.exe", Some("x.exe")),
        (r"1:x", Some("1:x")),
    ];
    for (path, name) in cases {
        assert_eq!(windows_file_name(path).as_deref(), name, "{path}");
    }
}

#[test]
fn paths_are_compared_by_component() {
    let same = [
        (r"C:\a\b.fac", r"C:/a/b.fac"),
        (r"C:\a\b.fac", r"c:\a\\b.fac\"),
        (r"C:\a\.\b.fac", r"C:\a\b.fac"),
        (r"C:.\a", r"C:a"),
        (r".\a", r"./a/."),
        (r"\\server\share", r"//server/share/"),
        (r"\\server\share\x", r"//server/share//x"),
        (r"\\.\dev", r"\\./dev\"),
        (r"\\?\C:\a\b", r"\\?\c:\a\\b\"),
        (r"\\?\C:/a\b", r"\\?\C:\a\b"),
        ("", ""),
    ];
    for (a, b) in same {
        assert!(paths_equal(a, b) && paths_equal(b, a), "{a} and {b}");
    }
    let different = [
        (r"C:\a", r"C:\A"),
        (r"C:\a", r"C:a"),
        (r"C:\a", r"D:\a"),
        (r".\a", r"a"),
        (r"a\..\b", r"b"),
        (r"\\?\C:\a/b", r"\\?\C:\a\b"),
        (r"\\?\C:\a\.", r"\\?\C:\a"),
        (r"\\?\C:\a", r"C:\a"),
        (r"\\?\UNC\s\t\x", r"\\s\t\x"),
        (r"\\server\share", r"\\server\other"),
        (r"\\?\C:", r"\\?\C:\"),
        ("", "."),
    ];
    for (a, b) in different {
        assert!(!paths_equal(a, b) && !paths_equal(b, a), "{a} and {b}");
    }
    let path = |text: &str| Some(text.to_owned());
    assert!(opt_paths_equal(&path("a/b"), &path(r"a\b")));
    assert!(opt_paths_equal(&None, &None));
    assert!(!opt_paths_equal(&path(""), &None));
}

#[test]
fn a_name_is_put_behind_a_path() {
    let cases = [
        (r"C:\a", "x", r"C:\a\x"),
        (r"C:\", "x", r"C:\x"),
        ("C:", "x", "C:x"),
        ("", "x", "x"),
        ("a/", "x", "a/x"),
        ("1:", "x", r"1:\x"),
        (r"C:\a", "..", r"C:\a\.."),
        (r"C:\a", r"D:\x", r"D:\x"),
        (r"C:\a", "D:x", "D:x"),
        (r"C:\a", r"\x", r"C:\x"),
        (r"\\s\t\a", r"\x", r"\\s\t\x"),
        (r"C:\a", "", r"C:\a\"),
        (r"\\?\C:\a/", "x", r"\\?\C:\a/\x"),
        (r"\\?\C:\a\\b\", "x", r"\\?\C:\a\b\x"),
        (r"\\?\C:", "x", r"\\?\C:\x"),
        (r"\\?\C:\a\b", "..", r"\\?\C:\a"),
        (r"\\?\C:\a", "..", r"\\?\C:\"),
        (r"\\?\C:\", "..", r"\\?\C:\"),
        (r"\\?\C:\a\..", "..", r"\\?\C:\a\.."),
        (r"\\?\C:\a", r".\x/y", r"\\?\C:\a\x\y"),
        (r"\\?\C:\a", r"\x", r"\\?\C:\x"),
        (r"\\?\UNC\s\t", "x", r"\\?\UNC\s\t\x"),
    ];
    for (base, name, joined) in cases {
        assert_eq!(join_path(base, name), joined, "{base} and {name}");
    }
}
