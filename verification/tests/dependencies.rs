//! Search paths, the search for libraries, and what a command needs.
use island::dependency::{
    lddtree_collect_extra_library_paths, missing_library_warning,
    resolve_command_dependency_paths, resolve_dependency_tree, DependencySearch, DependencyTree,
    Library, SearchStep,
};
use island::path::FilePath;

fn path(text: &str) -> FilePath {
    FilePath::from_text(text)
}

fn paths(list: &[&str]) -> Vec<FilePath> {
    list.iter().map(|t| path(t)).collect()
}

fn texts(list: &[FilePath]) -> Vec<String> {
    list.iter().map(|p| String::from_utf8(p.bytes.clone()).unwrap()).collect()
}

fn found(name: &str, realpath: &str) -> Library {
    Library {
        name: name.to_string(),
        path: path(realpath),
        realpath: Some(path(realpath)),
        runpath: vec![],
        rpath: vec![],
    }
}

fn missing(name: &str) -> Library {
    Library {
        name: name.to_string(),
        path: path(name),
        realpath: None,
        runpath: vec![],
        rpath: vec![],
    }
}

fn tree(libraries: Vec<Library>) -> DependencyTree {
    DependencyTree { runpath: vec![], rpath: vec![], libraries }
}

#[test]
fn extra_paths_of_an_empty_tree() {
    assert!(lddtree_collect_extra_library_paths(&tree(vec![])).is_empty());
}

#[test]
fn extra_paths_are_sorted_absolute_and_unique() {
    let mut with_paths = found("liba.so", "/opt/a/lib/liba.so.1");
    with_paths.runpath = paths(&["/z", "relative", "/opt/a/lib/"]);
    with_paths.rpath = paths(&["/y", "$ORIGIN/../lib"]);
    let mut unnormal = missing("libb.so");
    unnormal.path = path("/usr/lib/libb.so");
    let t = DependencyTree {
        runpath: paths(&["/run", "lib"]),
        rpath: paths(&["/rp", "/run/."]),
        libraries: vec![with_paths, unnormal, missing("libc.so")],
    };
    assert_eq!(
        texts(&lddtree_collect_extra_library_paths(&t)),
        vec!["/opt/a/lib/", "/rp", "/run", "/usr/lib", "/y", "/z"]
    );
}

#[test]
fn a_realpath_without_parent_gives_no_directory() {
    assert!(lddtree_collect_extra_library_paths(&tree(vec![found("root", "/")])).is_empty());
    assert_eq!(
        texts(&lddtree_collect_extra_library_paths(&tree(vec![found("rel", "x.so")]))),
        vec![""]
    );
}

#[test]
fn a_complete_tree_ends_the_search_at_once() {
    let search = DependencySearch::new();
    assert!(search.library_paths().is_empty());
    let reply: Result<DependencyTree, u8> = Ok(tree(vec![found("liba.so", "/lib/liba.so")]));
    match resolve_dependency_tree(search, reply) {
        SearchStep::Done(t) => assert_eq!(t.libraries.len(), 1),
        _ => panic!("the search goes on"),
    }
}

#[test]
fn a_failed_analysis_ends_the_search() {
    match resolve_dependency_tree(DependencySearch::new(), Err(7u8)) {
        SearchStep::Failed(e) => assert_eq!(e, 7),
        _ => panic!("the failure is lost"),
    }
}

fn go_on(search: DependencySearch, t: DependencyTree) -> DependencySearch {
    let reply: Result<DependencyTree, u8> = Ok(t);
    match resolve_dependency_tree(search, reply) {
        SearchStep::Analyze(next) => next,
        _ => panic!("the search ends"),
    }
}

fn is_done(search: DependencySearch, t: DependencyTree) -> bool {
    let reply: Result<DependencyTree, u8> = Ok(t);
    matches!(resolve_dependency_tree(search, reply), SearchStep::Done(_))
}

#[test]
fn search_paths_accumulate() {
    let first = go_on(
        DependencySearch::new(),
        tree(vec![found("liba.so", "/a/liba.so"), missing("libb.so"), missing("libc.so")]),
    );
    assert_eq!(texts(first.library_paths()), vec!["/a"]);
    let second = go_on(
        first,
        tree(vec![found("libb.so", "/b/libb.so"), found("d", "/B/d"), missing("libc.so")]),
    );
    assert_eq!(texts(second.library_paths()), vec!["/B", "/a", "/b"]);
}

#[test]
fn a_search_without_progress_ends() {
    let first = go_on(
        DependencySearch::new(),
        tree(vec![found("liba.so", "/a/liba.so"), missing("libb.so")]),
    );
    assert!(is_done(first, tree(vec![found("liba.so", "/a/liba.so"), missing("libb.so")])));
}

#[test]
fn no_search_makes_a_fifth_analysis() {
    let mut search = DependencySearch::new();
    for n in 0..3 {
        let mut libraries = vec![missing("libz.so")];
        for i in 0..n {
            libraries.push(found("lib", &format!("/{}/lib.so", i)));
        }
        search = go_on(search, tree(libraries));
    }
    let mut libraries = vec![missing("libz.so")];
    for i in 0..9 {
        libraries.push(found("lib", &format!("/{}/lib.so", i)));
    }
    assert!(is_done(search, tree(libraries)));
}

#[test]
fn a_library_with_an_absolute_or_empty_path_is_not_missing() {
    let mut absolute = missing("libb.so");
    absolute.path = path("/lib/libb.so");
    let mut empty = missing("");
    empty.path = path("");
    assert!(is_done(DependencySearch::new(), tree(vec![absolute, empty])));
}

#[test]
fn command_paths_without_dependencies() {
    let r = resolve_command_dependency_paths(&path("/bin/sh"), &None);
    assert_eq!(texts(&r.paths), vec!["/bin/sh"]);
    assert!(r.warnings.is_empty());
}

#[test]
fn command_paths_with_dependencies() {
    let mut absolute = missing("libb.so");
    absolute.path = path("/lib/libb.so");
    let t = tree(vec![
        found("liba.so", "/a/liba.so.1"),
        missing("libc.so"),
        absolute,
        missing("libd.so"),
    ]);
    let r = resolve_command_dependency_paths(&path("/bin/sh"), &Some(t));
    assert_eq!(texts(&r.paths), vec!["/bin/sh", "/a/liba.so.1", "/lib/libb.so"]);
    assert_eq!(
        r.warnings,
        vec![
            "Warning: could not resolve library path for libc.so: libc.so",
            "Warning: could not resolve library path for libd.so: libd.so"
        ]
    );
}

#[test]
fn a_path_that_is_no_text_is_shown_with_replacements() {
    let mut odd = missing("libx.so");
    odd.path = FilePath::new(vec![108, 255, 120]);
    let r = resolve_command_dependency_paths(&path("/bin/sh"), &Some(tree(vec![odd])));
    assert_eq!(
        r.warnings,
        vec!["Warning: could not resolve library path for libx.so: l\u{fffd}x"]
    );
}

#[test]
fn warning_text() {
    assert_eq!(
        missing_library_warning("a", "b"),
        "Warning: could not resolve library path for a: b"
    );
}
