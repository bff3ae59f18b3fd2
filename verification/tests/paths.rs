//! Paths, their order and sets of them, held against `std::path`.
use island::path::{Component, FilePath, PathOrder};
use island::path_set::PathSet;
use std::path::Path;

const SPELLINGS: [&str; 46] = [
    "", "/", "//", "///", ".", "..", "./", "../", "/.", "/..", "a", "a/", "/a", "/a/", "//a",
    "a/b", "a//b", "a/./b", "a/../b", "./a", "././a", "a/.", "a/b/.", "/a/b", "/a/b/", "/a/b/.",
    "/a//b", "/a/./b", "/./a", "/a/b/c", "a/b/..", "...", ".a", "a.", "/...", "./.", "././",
    "/usr/lib/libc.so.6", "/usr/lib/x86_64/", "/nix/store/abc-glibc/lib/libm.so", "libc.so.6",
    "a-b", "a b", "a/b-c", "/a-b", "\u{e9}/\u{4e2d}",
];

fn path(text: &str) -> FilePath {
    FilePath::from_text(text)
}

fn text(path: &FilePath) -> String {
    String::from_utf8(path.bytes.clone()).unwrap()
}

#[test]
fn parent_is_that_of_std() {
    for s in SPELLINGS {
        let expected = Path::new(s).parent().map(|p| p.to_str().unwrap().to_string());
        assert_eq!(path(s).parent().map(|p| text(&p)), expected, "{:?}", s);
    }
}

#[test]
fn parent_on_given_values() {
    assert_eq!(path("/usr/lib/libc.so.6").parent().map(|p| text(&p)), Some("/usr/lib".to_string()));
    assert_eq!(path("/a/./b/").parent().map(|p| text(&p)), Some("/a".to_string()));
    assert_eq!(path("/a").parent().map(|p| text(&p)), Some("/".to_string()));
    assert_eq!(path("a").parent().map(|p| text(&p)), Some("".to_string()));
    assert!(path("/").parent().is_none());
    assert!(path("").parent().is_none());
}

#[test]
fn parent_of_bytes_that_are_no_text() {
    let p = FilePath::new(vec![47, 255, 47, 254]);
    assert_eq!(p.parent().unwrap().bytes, vec![47, 255]);
}

#[test]
fn absolute_is_that_of_std() {
    for s in SPELLINGS {
        assert_eq!(path(s).is_absolute(), Path::new(s).is_absolute(), "{:?}", s);
        assert_eq!(path(s).is_empty(), s.is_empty());
    }
}

#[test]
fn order_is_that_of_std() {
    for a in SPELLINGS {
        for b in SPELLINGS {
            let expected = if Path::new(a) == Path::new(b) {
                PathOrder::Same
            } else if Path::new(a) < Path::new(b) {
                PathOrder::Before
            } else {
                PathOrder::After
            };
            assert_eq!(path(a).compare(&path(b)), expected, "{:?} {:?}", a, b);
        }
    }
}

#[test]
fn join_is_that_of_std() {
    for a in SPELLINGS {
        for b in SPELLINGS {
            let expected = Path::new(a).join(b).to_str().unwrap().to_string();
            assert_eq!(text(&path(a).join(&path(b))), expected, "{:?} {:?}", a, b);
        }
    }
}

#[test]
fn components_are_those_of_std() {
    for s in SPELLINGS {
        let ours: Vec<String> = path(s)
            .components()
            .iter()
            .map(|c| match c {
                Component::Root => "/".to_string(),
                Component::CurDir => ".".to_string(),
                Component::ParentDir => "..".to_string(),
                Component::Normal(name) => String::from_utf8(name.clone()).unwrap(),
            })
            .collect();
        let theirs: Vec<String> = Path::new(s)
            .components()
            .map(|c| c.as_os_str().to_str().unwrap().to_string())
            .collect();
        assert_eq!(ours, theirs, "{:?}", s);
    }
}

#[test]
fn component_order_puts_names_last() {
    let list = path("/a").components();
    let up = path("..").components();
    let here = path(".").components();
    assert!(list[0].is_before(&here[0]));
    assert!(here[0].is_before(&up[0]));
    assert!(up[0].is_before(&list[1]));
    assert!(!list[1].is_before(&list[1]));
    assert!(list[1].is_same(&path("a").components()[0]));
    assert!(!list[1].is_same(&list[0]));
}

#[test]
fn set_is_that_of_std() {
    let mut set = PathSet::new();
    let mut theirs: std::collections::BTreeSet<std::path::PathBuf> = std::collections::BTreeSet::new();
    for s in SPELLINGS {
        set.insert(path(s));
        theirs.insert(std::path::PathBuf::from(s));
    }
    let ours: Vec<String> = set.into_vec().iter().map(text).collect();
    let expected: Vec<String> = theirs.iter().map(|p| p.to_str().unwrap().to_string()).collect();
    assert_eq!(ours, expected);
}

#[test]
fn set_keeps_the_first_spelling() {
    let mut set = PathSet::new();
    set.extend(&vec![path("/b/"), path("/a"), path("/b"), path("/a/.")]);
    set.extend(&vec![path("/a/b"), path("//a")]);
    let ours: Vec<String> = set.into_vec().iter().map(text).collect();
    assert_eq!(ours, vec!["/a", "/a/b", "/b/"]);
}

#[test]
fn byte_order() {
    assert!(island::order::bytes_less(b"a", b"b"));
    assert!(island::order::bytes_less(b"a", b"ab"));
    assert!(island::order::bytes_less(b"", b"a"));
    assert!(!island::order::bytes_less(b"a", b"a"));
    assert!(!island::order::bytes_less(b"b", b"ab"));
}
