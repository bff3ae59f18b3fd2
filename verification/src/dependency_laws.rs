//! What holds of every dependency tree and every search.
use crate::dependency::{
    absolute_only, command_paths, command_warnings, has_missing, history_search_paths, is_missing,
    libraries_search_paths, library_directory, library_file, library_files, library_search_paths,
    missing_library_text, missing_library_texts, only_dependencies_are_allowed, option_view,
    search_ends, search_goes_on, tree_search_paths, DependencyTree, Library, LibraryView,
    TreeView,
};
use crate::path::{components, is_absolute_path, parent_path, path_views, FilePath};
use crate::path_laws::{path_sets_hold_only_their_list, path_sets_name_all_of_their_list};
use crate::path_set::{path_set_exists, path_set_of};
use crate::text::lossy_form;
use vstd::prelude::*;

verus! {

// ---- Views ----

/// The view of a list of paths has the bytes of each, in order.
pub proof fn path_views_hold_all(list: Seq<FilePath>)
    ensures
        path_views(list).len() == list.len(),
        forall|i: int| 0 <= i < list.len() ==> path_views(list)[i] == (#[trigger] list[i]).bytes@,
{
}

/// The view of a library has all that the library has.
pub proof fn library_views_hold_all(library: Library)
    ensures
        library@.name == library.name@,
        library@.path == library.path.bytes@,
        library@.realpath is Some <==> library.realpath is Some,
        library.realpath is Some ==> library@.realpath->0 == library.realpath->0.bytes@,
        library@.runpath.len() == library.runpath@.len(),
        forall|i: int|
            0 <= i < library.runpath@.len() ==> library@.runpath[i]
                == (#[trigger] library.runpath@[i]).bytes@,
        library@.rpath.len() == library.rpath@.len(),
        forall|i: int|
            0 <= i < library.rpath@.len() ==> library@.rpath[i]
                == (#[trigger] library.rpath@[i]).bytes@,
{
}

/// The view of a dependency tree has all that the tree has.
pub proof fn tree_views_hold_all(tree: DependencyTree)
    ensures
        tree@.runpath.len() == tree.runpath@.len(),
        forall|i: int|
            0 <= i < tree.runpath@.len() ==> tree@.runpath[i]
                == (#[trigger] tree.runpath@[i]).bytes@,
        tree@.rpath.len() == tree.rpath@.len(),
        forall|i: int|
            0 <= i < tree.rpath@.len() ==> tree@.rpath[i] == (#[trigger] tree.rpath@[i]).bytes@,
        tree@.libraries.len() == tree.libraries@.len(),
        forall|i: int|
            0 <= i < tree.libraries@.len() ==> tree@.libraries[i]
                == (#[trigger] tree.libraries@[i])@,
{
}

/// The view of a tree that may be missing is that of the tree, or is missing too.
pub proof fn optional_tree_views_hold_all(tree: Option<DependencyTree>)
    ensures
        option_view(tree) is Some <==> tree is Some,
        tree is Some ==> option_view(tree)->0 == (tree->0)@,
{
}

// ---- The search paths of a tree ----

proof fn lemma_absolute_only(list: Seq<Seq<u8>>)
    ensures
        absolute_only(list) == list.filter(|p: Seq<u8>| p.len() > 0 && p[0] == 47),
{
    assert((|p: Seq<u8>| is_absolute_path(p)) =~= (|p: Seq<u8>| p.len() > 0 && p[0] == 47));
}

/// A binary without libraries gives the absolute paths of its `RUNPATH`, then those of its
/// `RPATH`.
pub proof fn search_paths_of_a_binary(runpath: Seq<Seq<u8>>, rpath: Seq<Seq<u8>>)
    ensures
        tree_search_paths(TreeView { runpath, rpath, libraries: seq![] }) == runpath.filter(
            |p: Seq<u8>| p.len() > 0 && p[0] == 47,
        ) + rpath.filter(|p: Seq<u8>| p.len() > 0 && p[0] == 47),
{
    lemma_absolute_only(runpath);
    lemma_absolute_only(rpath);
    assert(libraries_search_paths(seq![]) =~= seq![]);
    assert(tree_search_paths(TreeView { runpath, rpath, libraries: seq![] }) =~= absolute_only(
        runpath,
    ) + absolute_only(rpath));
}

/// One library more gives, behind what there was, the absolute paths of its `RUNPATH`, those
/// of its `RPATH`, and the directory of its canonical path; where it has none, that of its
/// path, if that is absolute.
pub proof fn search_paths_of_one_library_more(tree: TreeView, library: LibraryView)
    ensures
        ({
            let more = TreeView { libraries: tree.libraries.push(library), ..tree };
            let file = match library.realpath {
                Some(p) => Some(p),
                None => if library.path.len() > 0 && library.path[0] == 47 {
                    Some(library.path)
                } else {
                    None
                },
            };
            let directory = match file {
                Some(p) => match parent_path(p) {
                    Some(q) => seq![q],
                    None => seq![],
                },
                None => seq![],
            };
            tree_search_paths(more) == tree_search_paths(tree) + library.runpath.filter(
                |p: Seq<u8>| p.len() > 0 && p[0] == 47,
            ) + library.rpath.filter(|p: Seq<u8>| p.len() > 0 && p[0] == 47) + directory
        }),
{
    let more = TreeView { libraries: tree.libraries.push(library), ..tree };
    lemma_absolute_only(library.runpath);
    lemma_absolute_only(library.rpath);
    assert(more.libraries.drop_last() =~= tree.libraries);
    assert(more.libraries.last() == library);
    assert(tree_search_paths(more) =~= tree_search_paths(tree) + absolute_only(library.runpath)
        + absolute_only(library.rpath) + library_directory(library));
}

proof fn lemma_library_paths_in_list(libraries: Seq<LibraryView>, i: int, q: Seq<u8>)
    requires
        0 <= i < libraries.len(),
        library_search_paths(libraries[i]).contains(q),
    ensures
        libraries_search_paths(libraries).contains(q),
    decreases libraries.len(),
{
    let rest = libraries.drop_last();
    let a = libraries_search_paths(rest);
    let b = library_search_paths(libraries.last());
    if i == libraries.len() - 1 {
        let k = b.index_of(q);
        assert((a + b)[a.len() + k] == q);
    } else {
        assert(rest[i] == libraries[i]);
        lemma_library_paths_in_list(rest, i, q);
        let k = a.index_of(q);
        assert((a + b)[k] == q);
    }
}

proof fn lemma_list_paths_from_library(libraries: Seq<LibraryView>, q: Seq<u8>) -> (i: int)
    requires
        libraries_search_paths(libraries).contains(q),
    ensures
        0 <= i < libraries.len(),
        library_search_paths(libraries[i]).contains(q),
    decreases libraries.len(),
{
    let rest = libraries.drop_last();
    let a = libraries_search_paths(rest);
    let b = library_search_paths(libraries.last());
    let k = (a + b).index_of(q);
    if k < a.len() {
        assert(a[k] == q);
        let i = lemma_list_paths_from_library(rest, q);
        assert(rest[i] == libraries[i]);
        i
    } else {
        assert(b[k - a.len()] == q);
        libraries.len() - 1
    }
}

proof fn lemma_contains_three(a: Seq<Seq<u8>>, b: Seq<Seq<u8>>, c: Seq<Seq<u8>>, q: Seq<u8>)
    ensures
        (a + b + c).contains(q) <==> a.contains(q) || b.contains(q) || c.contains(q),
{
    let all = a + b + c;
    if a.contains(q) {
        assert(all[a.index_of(q)] == q);
    }
    if b.contains(q) {
        assert(all[a.len() + b.index_of(q)] == q);
    }
    if c.contains(q) {
        assert(all[a.len() + b.len() + c.index_of(q)] == q);
    }
    if all.contains(q) {
        let k = all.index_of(q);
        if k < a.len() {
            assert(a[k] == q);
        } else if k < a.len() + b.len() {
            assert(b[k - a.len()] == q);
        } else {
            assert(c[k - a.len() - b.len()] == q);
        }
    }
}

proof fn lemma_absolute_only_contains(list: Seq<Seq<u8>>, q: Seq<u8>)
    ensures
        absolute_only(list).contains(q) <==> list.contains(q) && q.len() > 0 && q[0] == 47,
    decreases list.len(),
{
    reveal(Seq::filter);
    if list.len() > 0 {
        let rest = list.drop_last();
        lemma_absolute_only_contains(rest, q);
        assert(list =~= rest.push(list.last()));
        let kept = absolute_only(rest);
        if absolute_only(list).contains(q) {
            let k = absolute_only(list).index_of(q);
            if k < kept.len() {
                assert(kept[k] == q);
                assert(list[rest.index_of(q)] == q);
            } else {
                assert(list[list.len() - 1] == q);
            }
        }
        if list.contains(q) && q.len() > 0 && q[0] == 47 {
            let k = list.index_of(q);
            if k < rest.len() {
                assert(rest[k] == q);
                assert(absolute_only(list)[kept.index_of(q)] == q);
            } else {
                assert(absolute_only(list)[kept.len() as int] == q);
            }
        }
    }
}

/// Every path that a tree gives is searched, under some spelling.
proof fn lemma_searched(tree: TreeView, q: Seq<u8>) -> (k: int)
    requires
        tree_search_paths(tree).contains(q),
    ensures
        0 <= k < path_set_of(tree_search_paths(tree)).len(),
        components(path_set_of(tree_search_paths(tree))[k]) == components(q),
{
    let list = tree_search_paths(tree);
    path_set_exists(list);
    path_sets_name_all_of_their_list(path_set_of(list), list, list.index_of(q))
}

/// The directory of a library that was found is searched, whatever else the library has: that
/// of its canonical path, or that of its path where it has none and the path is absolute.
pub proof fn directories_of_found_libraries_are_searched(
    tree: TreeView,
    i: int,
    file: Seq<u8>,
    directory: Seq<u8>,
) -> (k: int)
    requires
        0 <= i < tree.libraries.len(),
        tree.libraries[i].realpath == Some(file) || (tree.libraries[i].realpath is None
            && tree.libraries[i].path == file && file.len() > 0 && file[0] == 47),
        parent_path(file) == Some(directory),
    ensures
        0 <= k < path_set_of(tree_search_paths(tree)).len(),
        components(path_set_of(tree_search_paths(tree))[k]) == components(directory),
{
    let library = tree.libraries[i];
    assert(library_directory(library)[0] == directory);
    lemma_contains_three(
        absolute_only(library.runpath),
        absolute_only(library.rpath),
        library_directory(library),
        directory,
    );
    lemma_library_paths_in_list(tree.libraries, i, directory);
    lemma_contains_three(
        absolute_only(tree.runpath),
        absolute_only(tree.rpath),
        libraries_search_paths(tree.libraries),
        directory,
    );
    lemma_searched(tree, directory)
}

/// Every absolute path in a `RUNPATH` or `RPATH` is searched, the binary's and each library's.
pub proof fn absolute_run_paths_are_searched(tree: TreeView, i: int, q: Seq<u8>) -> (k: int)
    requires
        q.len() > 0,
        q[0] == 47,
        tree.runpath.contains(q) || tree.rpath.contains(q) || (0 <= i < tree.libraries.len() && (
        tree.libraries[i].runpath.contains(q) || tree.libraries[i].rpath.contains(q))),
    ensures
        0 <= k < path_set_of(tree_search_paths(tree)).len(),
        components(path_set_of(tree_search_paths(tree))[k]) == components(q),
{
    lemma_absolute_only_contains(tree.runpath, q);
    lemma_absolute_only_contains(tree.rpath, q);
    if !tree.runpath.contains(q) && !tree.rpath.contains(q) {
        let library = tree.libraries[i];
        lemma_absolute_only_contains(library.runpath, q);
        lemma_absolute_only_contains(library.rpath, q);
        lemma_contains_three(
            absolute_only(library.runpath),
            absolute_only(library.rpath),
            library_directory(library),
            q,
        );
        lemma_library_paths_in_list(tree.libraries, i, q);
    }
    lemma_contains_three(
        absolute_only(tree.runpath),
        absolute_only(tree.rpath),
        libraries_search_paths(tree.libraries),
        q,
    );
    lemma_searched(tree, q)
}

/// Nothing else is searched: what is searched is an absolute path of the binary, or (of the
/// library `i`) an absolute path of it or the directory in which it was found.
pub proof fn nothing_else_is_searched(tree: TreeView, k: int) -> (i: int)
    requires
        0 <= k < path_set_of(tree_search_paths(tree)).len(),
    ensures
        ({
            let q = path_set_of(tree_search_paths(tree))[k];
            let absolute = q.len() > 0 && q[0] == 47;
            ||| absolute && (tree.runpath.contains(q) || tree.rpath.contains(q))
            ||| {
                let l = tree.libraries[i];
                &&& 0 <= i < tree.libraries.len()
                &&& {
                    ||| absolute && (l.runpath.contains(q) || l.rpath.contains(q))
                    ||| l.realpath is Some && parent_path(l.realpath->0) == Some(q)
                    ||| l.realpath is None && l.path.len() > 0 && l.path[0] == 47 && parent_path(
                        l.path,
                    ) == Some(q)
                }
            }
        }),
{
    let list = tree_search_paths(tree);
    let q = path_set_of(list)[k];
    path_set_exists(list);
    let at = path_sets_hold_only_their_list(path_set_of(list), list, k);
    assert(list[at] == q);
    lemma_contains_three(
        absolute_only(tree.runpath),
        absolute_only(tree.rpath),
        libraries_search_paths(tree.libraries),
        q,
    );
    lemma_absolute_only_contains(tree.runpath, q);
    lemma_absolute_only_contains(tree.rpath, q);
    if libraries_search_paths(tree.libraries).contains(q) {
        let i = lemma_list_paths_from_library(tree.libraries, q);
        let library = tree.libraries[i];
        lemma_contains_three(
            absolute_only(library.runpath),
            absolute_only(library.rpath),
            library_directory(library),
            q,
        );
        lemma_absolute_only_contains(library.runpath, q);
        lemma_absolute_only_contains(library.rpath, q);
        i
    } else {
        0
    }
}

// ---- The search ----

/// Before the first analysis nothing is added to the search paths; each analysis adds, behind
/// what there was, what its tree gives.
pub proof fn each_analysis_adds_its_search_paths(history: Seq<TreeView>, tree: TreeView)
    ensures
        history_search_paths(seq![]) == Seq::<Seq<u8>>::empty(),
        history_search_paths(history.push(tree)) == history_search_paths(history)
            + tree_search_paths(tree),
{
    assert(history.push(tree).drop_last() =~= history);
}

/// As long as a library is missing, at most three analyses were made, and the last was the
/// first or found more libraries than the one before, another analysis follows.
pub proof fn search_goes_on_while_it_helps(history: Seq<TreeView>, i: int)
    requires
        1 <= history.len() <= 3,
        0 <= i < history.last().libraries.len(),
        history.last().libraries[i].realpath is None,
        history.last().libraries[i].path.len() > 0,
        history.last().libraries[i].path[0] != 47,
        history.len() > 1 ==> history.last().libraries.filter(
            |l: LibraryView| l.realpath is Some,
        ).len() > history[history.len() - 2].libraries.filter(
            |l: LibraryView| l.realpath is Some,
        ).len(),
    ensures
        !search_ends(history),
{
    assert(is_missing(history.last().libraries[i]));
    assert(has_missing(history.last()));
}

/// A search does not end before its first analysis.
pub proof fn search_begins_with_an_analysis()
    ensures
        !search_ends(seq![]),
{
}

/// A search ends when each library has a canonical path, an absolute path or an empty one.
pub proof fn search_ends_when_nothing_is_missing(history: Seq<TreeView>)
    requires
        history.len() > 0,
        forall|i: int|
            0 <= i < history.last().libraries.len() ==> {
                let l = #[trigger] history.last().libraries[i];
                l.realpath is Some || l.path.len() == 0 || l.path[0] == 47
            },
    ensures
        search_ends(history),
{
    if has_missing(history.last()) {
        let i = choose|i: int|
            0 <= i < history.last().libraries.len() && is_missing(
                #[trigger] history.last().libraries[i],
            );
        assert(false);
    }
}

/// A search ends with its fourth analysis, and with one that found no more libraries than the
/// one before.
pub proof fn search_ends_without_hope(history: Seq<TreeView>)
    requires
        history.len() >= 4 || (history.len() >= 2 && history.last().libraries.filter(
            |l: LibraryView| l.realpath is Some,
        ).len() <= history[history.len() - 2].libraries.filter(
            |l: LibraryView| l.realpath is Some,
        ).len()),
    ensures
        search_ends(history),
{
}

/// A search that has not ended has not ended with any of its analyses, and made three at most.
pub proof fn search_that_goes_on(history: Seq<TreeView>, n: int)
    requires
        search_goes_on(history),
        0 <= n <= history.len(),
    ensures
        !search_ends(history.take(n)),
        history.len() <= 3,
{
    assert(history.take(history.len() as int) =~= history);
}

// ---- What a command needs ----

/// Without dependencies, or without libraries, a command needs itself alone, and nothing is
/// warned about.
pub proof fn a_command_needs_itself(
    command_path: Seq<u8>,
    runpath: Seq<Seq<u8>>,
    rpath: Seq<Seq<u8>>,
)
    ensures
        command_paths(command_path, None) == seq![command_path],
        command_warnings(None) == Seq::<Seq<char>>::empty(),
        command_paths(command_path, Some(TreeView { runpath, rpath, libraries: seq![] }))
            == seq![command_path],
        command_warnings(Some(TreeView { runpath, rpath, libraries: seq![] })) == Seq::<
            Seq<char>,
        >::empty(),
{
    assert(seq![command_path] + library_files(seq![]) =~= seq![command_path]);
}

/// One library more is allowed by its canonical path, where it has none by its path if that is
/// absolute, and is warned about otherwise.
pub proof fn a_command_needs_each_library(
    command_path: Seq<u8>,
    tree: TreeView,
    library: LibraryView,
)
    ensures
        ({
            let more = TreeView { libraries: tree.libraries.push(library), ..tree };
            let paths = command_paths(command_path, Some(tree));
            let warnings = command_warnings(Some(tree));
            let absolute = library.path.len() > 0 && library.path[0] == 47;
            match library.realpath {
                Some(p) => {
                    &&& command_paths(command_path, Some(more)) == paths.push(p)
                    &&& command_warnings(Some(more)) == warnings
                },
                None => if absolute {
                    &&& command_paths(command_path, Some(more)) == paths.push(library.path)
                    &&& command_warnings(Some(more)) == warnings
                } else {
                    &&& command_paths(command_path, Some(more)) == paths
                    &&& command_warnings(Some(more)) == warnings.push(
                        "Warning: could not resolve library path for "@ + library.name + ": "@
                            + lossy_form(library.path),
                    )
                },
            }
        }),
{
    let more = tree.libraries.push(library);
    assert(more.drop_last() =~= tree.libraries);
    assert(more.last() == library);
    let own = seq![command_path];
    let files = library_files(tree.libraries);
    if let Some(p) = library_file(library) {
        assert(own + files.push(p) =~= (own + files).push(p));
    }
}

proof fn lemma_file_is_allowed(libraries: Seq<LibraryView>, i: int)
    requires
        0 <= i < libraries.len(),
        library_file(libraries[i]) is Some,
    ensures
        library_files(libraries).contains(library_file(libraries[i])->0),
    decreases libraries.len(),
{
    let files = library_files(libraries);
    let rest = libraries.drop_last();
    if i == libraries.len() - 1 {
        assert(files[files.len() - 1] == library_file(libraries[i])->0);
    } else {
        assert(rest[i] == libraries[i]);
        lemma_file_is_allowed(rest, i);
        let k = library_files(rest).index_of(library_file(libraries[i])->0);
        assert(files[k] == library_files(rest)[k]);
    }
}

/// A library with a canonical path is allowed by it; one without, but with an absolute path,
/// by that. Whatever else the library has plays no part.
pub proof fn found_libraries_are_allowed_by_their_paths(
    command_path: Seq<u8>,
    tree: TreeView,
    i: int,
)
    requires
        0 <= i < tree.libraries.len(),
    ensures
        tree.libraries[i].realpath is Some ==> command_paths(command_path, Some(tree)).contains(
            tree.libraries[i].realpath->0,
        ),
        tree.libraries[i].realpath is None && tree.libraries[i].path.len() > 0
            && tree.libraries[i].path[0] == 47 ==> command_paths(
            command_path,
            Some(tree),
        ).contains(tree.libraries[i].path),
        command_paths(command_path, Some(tree))[0] == command_path,
{
    let files = library_files(tree.libraries);
    let all = seq![command_path] + files;
    if let Some(p) = library_file(tree.libraries[i]) {
        lemma_file_is_allowed(tree.libraries, i);
        assert(all[1 + files.index_of(p)] == p);
    }
}

/// What is allowed besides the command is the canonical path of a library, or the absolute
/// path of one that has none.
pub proof fn only_paths_of_libraries_are_allowed(
    command_path: Seq<u8>,
    tree: TreeView,
    k: int,
) -> (i: int)
    requires
        0 < k < command_paths(command_path, Some(tree)).len(),
    ensures
        0 <= i < tree.libraries.len(),
        ({
            let q = command_paths(command_path, Some(tree))[k];
            let l = tree.libraries[i];
            ||| l.realpath == Some(q)
            ||| l.realpath is None && l.path == q && q.len() > 0 && q[0] == 47
        }),
{
    only_dependencies_are_allowed(command_path, tree, k)
}

/// Each library without a canonical path and without an absolute path is warned about, by its
/// name and path.
pub proof fn missing_libraries_are_warned_about(tree: TreeView, i: int)
    requires
        0 <= i < tree.libraries.len(),
        tree.libraries[i].realpath is None,
        tree.libraries[i].path.len() == 0 || tree.libraries[i].path[0] != 47,
    ensures
        command_warnings(Some(tree)).contains(
            "Warning: could not resolve library path for "@ + tree.libraries[i].name + ": "@
                + lossy_form(tree.libraries[i].path),
        ),
{
    lemma_missing_is_warned(tree.libraries, i);
}

proof fn lemma_missing_is_warned(libraries: Seq<LibraryView>, i: int)
    requires
        0 <= i < libraries.len(),
        library_file(libraries[i]) is None,
    ensures
        missing_library_texts(libraries).contains(
            missing_library_text(libraries[i].name, lossy_form(libraries[i].path)),
        ),
    decreases libraries.len(),
{
    let texts = missing_library_texts(libraries);
    let text = missing_library_text(libraries[i].name, lossy_form(libraries[i].path));
    let rest = libraries.drop_last();
    if i == libraries.len() - 1 {
        assert(texts[texts.len() - 1] == text);
    } else {
        assert(rest[i] == libraries[i]);
        lemma_missing_is_warned(rest, i);
        let k = missing_library_texts(rest).index_of(text);
        assert(texts[k] == text);
    }
}

/// Only such libraries are warned about: a library that was found never is.
pub proof fn only_missing_libraries_are_warned_about(tree: TreeView, k: int) -> (i: int)
    requires
        0 <= k < command_warnings(Some(tree)).len(),
    ensures
        0 <= i < tree.libraries.len(),
        tree.libraries[i].realpath is None,
        tree.libraries[i].path.len() == 0 || tree.libraries[i].path[0] != 47,
        command_warnings(Some(tree))[k] == "Warning: could not resolve library path for "@
            + tree.libraries[i].name + ": "@ + lossy_form(tree.libraries[i].path),
{
    lemma_warned_is_missing(tree.libraries, k)
}

proof fn lemma_warned_is_missing(libraries: Seq<LibraryView>, k: int) -> (i: int)
    requires
        0 <= k < missing_library_texts(libraries).len(),
    ensures
        0 <= i < libraries.len(),
        library_file(libraries[i]) is None,
        missing_library_texts(libraries)[k] == missing_library_text(
            libraries[i].name,
            lossy_form(libraries[i].path),
        ),
    decreases libraries.len(),
{
    let rest = libraries.drop_last();
    if k < missing_library_texts(rest).len() {
        let i = lemma_warned_is_missing(rest, k);
        assert(rest[i] == libraries[i]);
        i
    } else {
        libraries.len() - 1
    }
}

} // verus!
