use preload_stores::paths::{canonical_path, FilePath};

#[test]
fn spellings_of_one_path() {
    for (spelling, path) in [
        ("/", "/"),
        ("//", "/"),
        ("/.", "/"),
        ("/usr/bin/", "/usr/bin"),
        ("/usr//./bin", "/usr/bin"),
        ("usr/bin", "usr/bin"),
        ("./usr/bin", "./usr/bin"),
        ("usr/./bin/.", "usr/bin"),
        ("/usr/../bin", "/usr/../bin"),
        (".", "."),
        ("", ""),
        ("/.hidden", "/.hidden"),
    ] {
        assert_eq!(canonical_path(spelling.as_bytes()), path.as_bytes(), "{}", spelling);
        assert_eq!(canonical_path(path.as_bytes()), path.as_bytes(), "{}", path);
    }
}

#[test]
fn paths_compare_as_the_standard_library_compares_them() {
    let spellings = [
        "/", "//", "/.", "/..", "/a", "/a/", "//a", "/a/.", "a", "./a", "a/.", "a//", ".", "./",
        "./.", "..", "a/b", "a/./b", "./a/b", "a/../b", "", "/./a", ".a", "./.a",
    ];
    for a in spellings {
        for b in spellings {
            assert_eq!(
                FilePath::new(a.as_bytes()).same(&FilePath::new(b.as_bytes())),
                std::path::Path::new(a) == std::path::Path::new(b),
                "{} and {}",
                a,
                b
            );
        }
    }
}

#[test]
fn a_path_keeps_its_spelling() {
    let path = FilePath::new(b"/usr//./lib/");
    assert_eq!(path.as_bytes(), b"/usr//./lib/");
    assert_eq!(path.clone().as_bytes(), b"/usr//./lib/");
    assert_eq!(path, FilePath::new(b"/usr/lib"));
    assert_ne!(path, FilePath::new(b"usr/lib"));
}
