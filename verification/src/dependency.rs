//! The shared libraries that a command needs, and where to search for them.
use crate::path::{is_absolute_path, parent_path, path_views, FilePath};
use crate::path_set::{
    first_named_at, first_spelling, insertion_extends_list, is_path_set_of, path_set_contains,
    path_set_is, path_set_of, path_sets_combine, PathSet,
};
use crate::text::{concat_texts, lossy_form, path_text, shown_as_text, text_views};
use vstd::prelude::*;
use vstd::string::*;

verus! {

/// How often a command is analyzed again with more search paths.
pub const MAX_PASSES: usize = 3;

/// A shared library, as a mathematical value.
#[verifier::ext_equal]
pub struct LibraryView {
    pub name: Seq<char>,
    pub path: Seq<u8>,
    pub realpath: Option<Seq<u8>>,
    pub runpath: Seq<Seq<u8>>,
    pub rpath: Seq<Seq<u8>>,
}

/// A dependency tree, as a mathematical value.
#[verifier::ext_equal]
pub struct TreeView {
    pub runpath: Seq<Seq<u8>>,
    pub rpath: Seq<Seq<u8>>,
    pub libraries: Seq<LibraryView>,
}

/// A shared library that a command depends on.
pub struct Library {
    /// The name under which the library is needed.
    pub name: String,
    /// Where the library was found; its bare name if it was not.
    pub path: FilePath,
    /// The canonical path, if the library was found.
    pub realpath: Option<FilePath>,
    /// The library's own `RUNPATH`.
    pub runpath: Vec<FilePath>,
    /// The library's own `RPATH`.
    pub rpath: Vec<FilePath>,
}

impl View for Library {
    type V = LibraryView;

    open spec fn view(&self) -> LibraryView {
        LibraryView {
            name: self.name@,
            path: self.path@,
            realpath: match self.realpath {
                Some(p) => Some(p@),
                None => None,
            },
            runpath: path_views(self.runpath@),
            rpath: path_views(self.rpath@),
        }
    }
}

/// What an analysis of a command's binary finds.
pub struct DependencyTree {
    /// The binary's `RUNPATH`.
    pub runpath: Vec<FilePath>,
    /// The binary's `RPATH`.
    pub rpath: Vec<FilePath>,
    /// The libraries that the binary needs, directly or through others.
    pub libraries: Vec<Library>,
}

/// What a list of libraries holds.
pub open spec fn library_views(libraries: Seq<Library>) -> Seq<LibraryView> {
    Seq::new(libraries.len(), |i: int| libraries[i]@)
}

impl View for DependencyTree {
    type V = TreeView;

    open spec fn view(&self) -> TreeView {
        TreeView {
            runpath: path_views(self.runpath@),
            rpath: path_views(self.rpath@),
            libraries: library_views(self.libraries@),
        }
    }
}

// ---- Search paths ----

/// The absolute paths of a list.
pub open spec fn absolute_only(list: Seq<Seq<u8>>) -> Seq<Seq<u8>> {
    list.filter(|p: Seq<u8>| is_absolute_path(p))
}

/// A path's parent, as a list.
pub open spec fn parent_list(p: Seq<u8>) -> Seq<Seq<u8>> {
    match parent_path(p) {
        Some(q) => seq![q],
        None => seq![],
    }
}

/// The directory that a library lies in, if it was found.
pub open spec fn library_directory(library: LibraryView) -> Seq<Seq<u8>> {
    match library.realpath {
        Some(p) => parent_list(p),
        None => if is_absolute_path(library.path) {
            parent_list(library.path)
        } else {
            seq![]
        },
    }
}

/// The search paths that a library gives: those in its binary, then its directory.
pub open spec fn library_search_paths(library: LibraryView) -> Seq<Seq<u8>> {
    absolute_only(library.runpath) + absolute_only(library.rpath) + library_directory(library)
}

/// The search paths that several libraries give, one after the other.
pub open spec fn libraries_search_paths(libraries: Seq<LibraryView>) -> Seq<Seq<u8>>
    decreases libraries.len(),
{
    if libraries.len() == 0 {
        seq![]
    } else {
        libraries_search_paths(libraries.drop_last()) + library_search_paths(libraries.last())
    }
}

/// The search paths that a dependency tree gives: the binary's, then those of its libraries.
pub open spec fn tree_search_paths(tree: TreeView) -> Seq<Seq<u8>> {
    absolute_only(tree.runpath) + absolute_only(tree.rpath) + libraries_search_paths(
        tree.libraries,
    )
}

/// Puts the absolute paths of a list into a set.
fn insert_absolute(set: &mut PathSet, list: &Vec<FilePath>)
    requires
        old(set).well_formed(),
    ensures
        final(set).well_formed(),
        forall|earlier: Seq<Seq<u8>>| #[trigger]
            is_path_set_of(old(set)@, earlier) ==> is_path_set_of(
                final(set)@,
                earlier + absolute_only(path_views(list@)),
            ),
{
    let ghost before = set@;
    let ghost views = path_views(list@);
    proof {
        assert forall|earlier: Seq<Seq<u8>>| #[trigger]
            is_path_set_of(before, earlier) implies is_path_set_of(
            set@,
            earlier + absolute_only(views.take(0)),
        ) by {
            reveal(Seq::filter);
            assert(earlier + absolute_only(views.take(0)) =~= earlier);
        }
    }
    let mut i: usize = 0;
    while i < list.len()
        invariant
            i <= list@.len(),
            views == path_views(list@),
            set.well_formed(),
            forall|earlier: Seq<Seq<u8>>| #[trigger]
                is_path_set_of(before, earlier) ==> is_path_set_of(
                    set@,
                    earlier + absolute_only(views.take(i as int)),
                ),
        decreases list@.len() - i,
    {
        let ghost mid = set@;
        let absolute = list[i].is_absolute();
        if absolute {
            set.insert(list[i].clone());
        }
        proof {
            let p = views[i as int];
            let rest = views.take(i as int);
            assert(views.take(i + 1).drop_last() =~= rest);
            assert(views.take(i + 1).last() == p);
            assert forall|earlier: Seq<Seq<u8>>| #[trigger]
                is_path_set_of(before, earlier) implies is_path_set_of(
                set@,
                earlier + absolute_only(views.take(i + 1)),
            ) by {
                reveal(Seq::filter);
                if absolute {
                    insertion_extends_list(mid, earlier + absolute_only(rest), p, set@);
                    assert((earlier + absolute_only(rest)).push(p) =~= earlier + absolute_only(
                        views.take(i + 1),
                    ));
                } else {
                    assert(absolute_only(views.take(i + 1)) =~= absolute_only(rest));
                }
            }
        }
        i += 1;
    }
    assert(views.take(i as int) =~= views);
}

/// Puts the parent of a path, if it has one, into a set.
fn insert_parent(set: &mut PathSet, path: &FilePath)
    requires
        old(set).well_formed(),
    ensures
        final(set).well_formed(),
        forall|earlier: Seq<Seq<u8>>| #[trigger]
            is_path_set_of(old(set)@, earlier) ==> is_path_set_of(
                final(set)@,
                earlier + parent_list(path@),
            ),
{
    let ghost before = set@;
    match path.parent() {
        Some(parent) => {
            let ghost p = parent@;
            set.insert(parent);
            proof {
                assert forall|earlier: Seq<Seq<u8>>| #[trigger]
                    is_path_set_of(before, earlier) implies is_path_set_of(
                    set@,
                    earlier + parent_list(path@),
                ) by {
                    insertion_extends_list(before, earlier, p, set@);
                    assert(earlier.push(p) =~= earlier + parent_list(path@));
                }
            }
        },
        None => {
            proof {
                assert forall|earlier: Seq<Seq<u8>>| #[trigger]
                    is_path_set_of(before, earlier) implies is_path_set_of(
                    set@,
                    earlier + parent_list(path@),
                ) by {
                    assert(earlier + parent_list(path@) =~= earlier);
                }
            }
        },
    }
}

/// The search paths that a dependency tree gives, each once, in the order of paths.
pub fn lddtree_collect_extra_library_paths(tree: &DependencyTree) -> (r: Vec<FilePath>)
    ensures
        path_views(r@) == path_set_of(tree_search_paths(tree@)),
        is_path_set_of(path_views(r@), tree_search_paths(tree@)),
{
    let mut paths = PathSet::new();
    let ghost mut list: Seq<Seq<u8>> = Seq::empty();
    insert_absolute(&mut paths, &tree.runpath);
    proof {
        list = list + absolute_only(tree@.runpath);
        assert(is_path_set_of(paths@, list));
    }
    insert_absolute(&mut paths, &tree.rpath);
    proof {
        list = list + absolute_only(tree@.rpath);
        assert(is_path_set_of(paths@, list));
        assert(list =~= absolute_only(tree@.runpath) + absolute_only(tree@.rpath));
    }
    let ghost binary = list;
    let ghost libraries = tree@.libraries;
    proof {
        assert(binary + libraries_search_paths(libraries.take(0)) =~= binary);
    }
    let mut i: usize = 0;
    while i < tree.libraries.len()
        invariant
            i <= tree.libraries@.len(),
            libraries == library_views(tree.libraries@),
            paths.well_formed(),
            is_path_set_of(
                paths@,
                binary + libraries_search_paths(libraries.take(i as int)),
            ),
        decreases tree.libraries@.len() - i,
    {
        let library = &tree.libraries[i];
        let ghost done = binary + libraries_search_paths(libraries.take(i as int));
        insert_absolute(&mut paths, &library.runpath);
        let ghost with_runpath = done + absolute_only(library@.runpath);
        assert(is_path_set_of(paths@, with_runpath));
        insert_absolute(&mut paths, &library.rpath);
        let ghost with_rpath = with_runpath + absolute_only(library@.rpath);
        assert(is_path_set_of(paths@, with_rpath));
        match &library.realpath {
            Some(realpath) => {
                insert_parent(&mut paths, realpath);
            },
            None => {
                if library.path.is_absolute() {
                    insert_parent(&mut paths, &library.path);
                } else {
                    assert(with_rpath + library_directory(library@) =~= with_rpath);
                }
            },
        }
        proof {
            assert(is_path_set_of(paths@, with_rpath + library_directory(library@)));
            let next = libraries.take(i + 1);
            assert(next.drop_last() =~= libraries.take(i as int));
            assert(next.last() == library@);
            assert(with_rpath + library_directory(library@) =~= binary + libraries_search_paths(
                next,
            ));
        }
        i += 1;
    }
    assert(libraries.take(i as int) =~= libraries);
    proof {
        path_set_is(paths@, tree_search_paths(tree@));
    }
    paths.into_vec()
}

// ---- The search ----

/// The library was not found.
pub open spec fn is_missing(library: LibraryView) -> bool {
    library.realpath is None && !is_absolute_path(library.path) && library.path.len() > 0
}

/// Some library of the tree was not found.
pub open spec fn has_missing(tree: TreeView) -> bool {
    exists|i: int| 0 <= i < tree.libraries.len() && is_missing(#[trigger] tree.libraries[i])
}

/// How many libraries of the tree were found.
pub open spec fn found_count(tree: TreeView) -> nat {
    tree.libraries.filter(|l: LibraryView| l.realpath is Some).len()
}

/// The search paths that the trees found so far give, one after the other.
pub open spec fn history_search_paths(history: Seq<TreeView>) -> Seq<Seq<u8>>
    decreases history.len(),
{
    if history.len() == 0 {
        seq![]
    } else {
        history_search_paths(history.drop_last()) + tree_search_paths(history.last())
    }
}

/// The search ends with the last of the trees found so far: nothing is missing in it, no
/// pass is left, or it has no more libraries found than the one before.
pub open spec fn search_ends(history: Seq<TreeView>) -> bool {
    let n = history.len();
    &&& n > 0
    &&& {
        ||| !has_missing(history.last())
        ||| n > MAX_PASSES
        ||| n > 1 && found_count(history.last()) <= found_count(history[n - 2])
    }
}

/// The search did not end with any of the trees found so far.
pub open spec fn search_goes_on(history: Seq<TreeView>) -> bool {
    forall|n: int| 0 <= n <= history.len() ==> !search_ends(#[trigger] history.take(n))
}

/// A search for the libraries of a command that has not ended.
pub struct DependencySearch {
    trees: Ghost<Seq<TreeView>>,
    analyses: usize,
    found: usize,
    extra_paths: Vec<FilePath>,
}

/// What follows on an analysis.
pub enum SearchStep<E> {
    /// Another analysis, with the search's library paths.
    Analyze(DependencySearch),
    /// The search ends with this tree.
    Done(DependencyTree),
    /// The search fails.
    Failed(E),
}

impl DependencySearch {
    /// The trees that the analyses have found so far.
    pub closed spec fn history(&self) -> Seq<TreeView> {
        self.trees@
    }

    /// What the search keeps: it has not ended, and its library paths are those that the
    /// trees give.
    pub closed spec fn well_formed(&self) -> bool {
        &&& search_goes_on(self.history())
        &&& self.analyses == self.history().len()
        &&& self.history().len() > 0 ==> self.found == found_count(self.history().last())
        &&& is_path_set_of(path_views(self.extra_paths@), history_search_paths(self.history()))
    }

    /// A search before its first analysis.
    pub fn new() -> (r: DependencySearch)
        ensures
            r.well_formed(),
            r.history() == Seq::<TreeView>::empty(),
    {
        let paths = PathSet::new();
        let r = DependencySearch {
            trees: Ghost(Seq::empty()),
            analyses: 0,
            found: 0,
            extra_paths: paths.into_vec(),
        };
        proof {
            assert forall|n: int| 0 <= n <= r.history().len() implies !search_ends(
                #[trigger] r.history().take(n),
            ) by {}
            assert(history_search_paths(r.history()) =~= Seq::<Seq<u8>>::empty());
        }
        r
    }

    /// The library paths of the next analysis: what all trees so far give, each once, in the
    /// order of paths.
    pub fn library_paths(&self) -> (r: &Vec<FilePath>)
        requires
            self.well_formed(),
        ensures
            path_views(r@) == path_set_of(history_search_paths(self.history())),
            is_path_set_of(path_views(r@), history_search_paths(self.history())),
    {
        proof {
            path_set_is(path_views(self.extra_paths@), history_search_paths(self.history()));
        }
        &self.extra_paths
    }
}

/// Whether some library of the tree was not found.
fn any_missing(tree: &DependencyTree) -> (r: bool)
    ensures
        r == has_missing(tree@),
{
    let mut i: usize = 0;
    while i < tree.libraries.len()
        invariant
            i <= tree.libraries@.len(),
            forall|j: int| 0 <= j < i ==> !is_missing(#[trigger] tree@.libraries[j]),
        decreases tree.libraries@.len() - i,
    {
        let library = &tree.libraries[i];
        assert(tree@.libraries[i as int] == library@);
        if library.realpath.is_none() && !library.path.is_absolute() && !library.path.is_empty() {
            assert(is_missing(tree@.libraries[i as int]));
            return true;
        }
        i += 1;
    }
    false
}

/// How many libraries of the tree were found.
fn count_found(tree: &DependencyTree) -> (r: usize)
    ensures
        r == found_count(tree@),
{
    let ghost libraries = tree@.libraries;
    let ghost is_found = |l: LibraryView| l.realpath is Some;
    let mut count: usize = 0;
    let mut i: usize = 0;
    proof {
        reveal(Seq::filter);
    }
    while i < tree.libraries.len()
        invariant
            i <= tree.libraries@.len(),
            libraries == library_views(tree.libraries@),
            is_found == (|l: LibraryView| l.realpath is Some),
            count == libraries.take(i as int).filter(is_found).len(),
            count <= i,
        decreases tree.libraries@.len() - i,
    {
        proof {
            reveal(Seq::filter);
            assert(libraries.take(i + 1).drop_last() =~= libraries.take(i as int));
            assert(libraries.take(i + 1).last() == tree.libraries@[i as int]@);
        }
        if tree.libraries[i].realpath.is_some() {
            count += 1;
        }
        i += 1;
    }
    assert(libraries.take(i as int) =~= libraries);
    count
}

/// What follows when an analysis with the search's library paths gives `reply`: its error,
/// the end of the search, or another analysis.
pub fn resolve_dependency_tree<E>(
    search: DependencySearch,
    reply: Result<DependencyTree, E>,
) -> (r: SearchStep<E>)
    requires
        search.well_formed(),
    ensures
        match reply {
            Err(e) => r == SearchStep::<E>::Failed(e),
            Ok(tree) => {
                let history = search.history().push(tree@);
                if search_ends(history) {
                    r == SearchStep::<E>::Done(tree)
                } else {
                    &&& r matches SearchStep::Analyze(next)
                    &&& next.well_formed()
                    &&& next.history() == history
                }
            },
        },
{
    let tree = match reply {
        Ok(tree) => tree,
        Err(e) => {
            return SearchStep::Failed(e);
        },
    };
    let ghost before = search.history();
    let ghost history = before.push(tree@);
    let found = count_found(&tree);
    proof {
        assert(history.last() == tree@);
        if before.len() > 0 {
            assert(history[history.len() - 2] == before.last());
        }
        search_is_bounded(before);
    }
    if !any_missing(&tree) || search.analyses >= MAX_PASSES || (search.analyses > 0 && found
        <= search.found) {
        return SearchStep::Done(tree);
    }
    let newly_discovered = lddtree_collect_extra_library_paths(&tree);
    let mut combined = PathSet::new();
    combined.extend(&search.extra_paths);
    combined.extend(&newly_discovered);
    proof {
        let a = path_views(search.extra_paths@);
        let b = path_views(newly_discovered@);
        assert(Seq::<Seq<u8>>::empty() + a =~= a);
        assert(is_path_set_of(combined@, a + b));
        path_sets_combine(
            a,
            b,
            history_search_paths(before),
            tree_search_paths(tree@),
            combined@,
        );
        assert(history.drop_last() =~= before);
        assert forall|n: int| 0 <= n <= history.len() implies !search_ends(
            #[trigger] history.take(n),
        ) by {
            if n < history.len() {
                assert(history.take(n) =~= before.take(n));
            } else {
                assert(history.take(n) =~= history);
            }
        }
    }
    SearchStep::Analyze(
        DependencySearch {
            trees: Ghost(history),
            analyses: search.analyses + 1,
            found,
            extra_paths: combined.into_vec(),
        },
    )
}

/// A search that goes on has made at most [`MAX_PASSES`] analyses, so no search makes more
/// than one beyond that.
pub proof fn search_is_bounded(history: Seq<TreeView>)
    requires
        search_goes_on(history),
    ensures
        history.len() <= MAX_PASSES,
{
    assert(history.take(history.len() as int) =~= history);
}

/// While a search goes on, each analysis finds more libraries than the one before, and
/// misses some.
pub proof fn search_makes_progress(history: Seq<TreeView>, i: int)
    requires
        search_goes_on(history),
        0 <= i < history.len(),
    ensures
        has_missing(history[i]),
        i > 0 ==> found_count(history[i - 1]) < found_count(history[i]),
{
    let h = history.take(i + 1);
    assert(!search_ends(h));
    assert(h.last() == history[i]);
    if i > 0 {
        assert(h[i - 1] == history[i - 1]);
    }
}

proof fn lemma_first_spelling_grows(list: Seq<Seq<u8>>, more: Seq<Seq<u8>>, p: Seq<u8>)
    requires
        first_spelling(list, p),
    ensures
        first_spelling(list + more, p),
{
    let k = choose|k: int| first_named_at(list, p, k);
    assert(first_named_at(list + more, p, k));
}

/// No search path is lost: what one analysis searches, the next searches too, spelled as
/// before.
pub proof fn library_paths_accumulate(
    history: Seq<TreeView>,
    tree: TreeView,
    paths: Seq<Seq<u8>>,
    next_paths: Seq<Seq<u8>>,
    i: int,
)
    requires
        is_path_set_of(paths, history_search_paths(history)),
        is_path_set_of(next_paths, history_search_paths(history.push(tree))),
        0 <= i < paths.len(),
    ensures
        next_paths.contains(paths[i]),
{
    assert(history.push(tree).drop_last() =~= history);
    assert(first_spelling(history_search_paths(history), paths[i])) by {
        reveal(is_path_set_of);
    }
    lemma_first_spelling_grows(
        history_search_paths(history),
        tree_search_paths(tree),
        paths[i],
    );
    path_set_contains(next_paths, history_search_paths(history.push(tree)), paths[i]);
}

// ---- The paths that a command needs ----

/// The file of a library, if it was found: its canonical path, else its path where that is
/// absolute.
pub open spec fn library_file(library: LibraryView) -> Option<Seq<u8>> {
    match library.realpath {
        Some(p) => Some(p),
        None => if is_absolute_path(library.path) {
            Some(library.path)
        } else {
            None
        },
    }
}

/// The files of the libraries that were found.
pub open spec fn library_files(libraries: Seq<LibraryView>) -> Seq<Seq<u8>>
    decreases libraries.len(),
{
    if libraries.len() == 0 {
        seq![]
    } else {
        let rest = library_files(libraries.drop_last());
        match library_file(libraries.last()) {
            Some(p) => rest.push(p),
            None => rest,
        }
    }
}

/// What is said of a library that was not found, with its path as it is shown.
pub open spec fn missing_library_text(name: Seq<char>, shown_path: Seq<char>) -> Seq<char> {
    "Warning: could not resolve library path for "@ + name + ": "@ + shown_path
}

/// What is said of a library that was not found.
pub fn missing_library_warning(name: &str, shown_path: &str) -> (r: String)
    ensures
        r@ == missing_library_text(name@, shown_path@),
{
    let mut r = concat_texts("Warning: could not resolve library path for ", name);
    r.append(": ");
    r.append(shown_path);
    r
}

/// What is said of the libraries that were not found.
pub open spec fn missing_library_texts(libraries: Seq<LibraryView>) -> Seq<Seq<char>>
    decreases libraries.len(),
{
    if libraries.len() == 0 {
        seq![]
    } else {
        let rest = missing_library_texts(libraries.drop_last());
        match library_file(libraries.last()) {
            Some(_) => rest,
            None => {
                let l = libraries.last();
                rest.push(missing_library_text(l.name, lossy_form(l.path)))
            },
        }
    }
}

/// The paths that a command needs to read and execute.
pub struct CommandDependencies {
    /// The command's own path, then its libraries'.
    pub paths: Vec<FilePath>,
    /// A warning for each library that was not found.
    pub warnings: Vec<String>,
}

/// The paths that a command needs: its own alone where dependencies are not resolved.
pub open spec fn command_paths(command_path: Seq<u8>, tree: Option<TreeView>) -> Seq<Seq<u8>> {
    match tree {
        Some(t) => seq![command_path] + library_files(t.libraries),
        None => seq![command_path],
    }
}

/// The paths of the libraries that were not found.
pub open spec fn missing_library_paths(libraries: Seq<LibraryView>) -> Seq<Seq<u8>>
    decreases libraries.len(),
{
    if libraries.len() == 0 {
        seq![]
    } else {
        let rest = missing_library_paths(libraries.drop_last());
        match library_file(libraries.last()) {
            Some(_) => rest,
            None => rest.push(libraries.last().path),
        }
    }
}

/// The paths that [`command_warnings`] show.
pub open spec fn warned_paths(tree: Option<TreeView>) -> Seq<Seq<u8>> {
    match tree {
        Some(t) => missing_library_paths(t.libraries),
        None => seq![],
    }
}

/// The warnings that belong to [`command_paths`].
pub open spec fn command_warnings(tree: Option<TreeView>) -> Seq<Seq<char>> {
    match tree {
        Some(t) => missing_library_texts(t.libraries),
        None => seq![],
    }
}

/// The paths that a command needs: its own and, unless dependencies are not resolved
/// (`None`), those of its libraries in the order of the tree.
pub fn resolve_command_dependency_paths(
    command_path: &FilePath,
    dependencies: &Option<DependencyTree>,
) -> (r: CommandDependencies)
    ensures
        path_views(r.paths@) == command_paths(command_path@, option_view(*dependencies)),
        text_views(r.warnings@) == command_warnings(option_view(*dependencies)),
        shown_as_text(warned_paths(option_view(*dependencies))),
{
    let mut paths: Vec<FilePath> = Vec::new();
    let mut warnings: Vec<String> = Vec::new();
    paths.push(command_path.clone());
    assert(path_views(paths@) =~= seq![command_path@]);
    assert(text_views(warnings@) =~= Seq::<Seq<char>>::empty());
    if let Some(tree) = dependencies {
        let ghost libraries = tree@.libraries;
        let ghost own = seq![command_path@];
        let mut i: usize = 0;
        assert(own + library_files(libraries.take(0)) =~= own);
        while i < tree.libraries.len()
            invariant
                i <= tree.libraries@.len(),
                libraries == library_views(tree.libraries@),
                path_views(paths@) == own + library_files(libraries.take(i as int)),
                text_views(warnings@) == missing_library_texts(libraries.take(i as int)),
                shown_as_text(missing_library_paths(libraries.take(i as int))),
            decreases tree.libraries@.len() - i,
        {
            let library = &tree.libraries[i];
            let ghost paths_before = path_views(paths@);
            let ghost warnings_before = text_views(warnings@);
            proof {
                assert(libraries.take(i + 1).drop_last() =~= libraries.take(i as int));
                assert(libraries.take(i + 1).last() == library@);
            }
            match &library.realpath {
                Some(realpath) => {
                    paths.push(realpath.clone());
                    assert(path_views(paths@) =~= paths_before.push(realpath@));
                },
                None => {
                    if library.path.is_absolute() {
                        paths.push(library.path.clone());
                        assert(path_views(paths@) =~= paths_before.push(library.path@));
                    } else {
                        let text = missing_library_warning(
                            library.name.as_str(),
                            path_text(&library.path).as_str(),
                        );
                        let ghost said = text@;
                        warnings.push(text);
                        assert(text_views(warnings@) =~= warnings_before.push(said));
                    }
                },
            }
            assert(path_views(paths@) =~= own + library_files(libraries.take(i + 1)));
            i += 1;
        }
        assert(libraries.take(i as int) =~= libraries);
    }
    CommandDependencies { paths, warnings }
}

/// The tree of a search, if there was one.
pub open spec fn option_view(tree: Option<DependencyTree>) -> Option<TreeView> {
    match tree {
        Some(t) => Some(t@),
        None => None,
    }
}

/// Each library is either allowed or warned about.
pub proof fn libraries_are_accounted_for(libraries: Seq<LibraryView>)
    ensures
        library_files(libraries).len() + missing_library_texts(libraries).len()
            == libraries.len(),
    decreases libraries.len(),
{
    if libraries.len() > 0 {
        libraries_are_accounted_for(libraries.drop_last());
    }
}

/// The command itself is allowed, and so is each library that was found.
pub proof fn found_libraries_are_allowed(command_path: Seq<u8>, tree: TreeView, i: int)
    requires
        0 <= i < tree.libraries.len(),
        library_file(tree.libraries[i]) is Some,
    ensures
        command_paths(command_path, Some(tree)).contains(command_path),
        command_paths(command_path, Some(tree)).contains(library_file(tree.libraries[i])->0),
{
    let paths = command_paths(command_path, Some(tree));
    assert(paths[0] == command_path);
    let k = lemma_library_file_at(tree.libraries, i);
    assert(paths[k + 1] == library_file(tree.libraries[i])->0);
}

proof fn lemma_library_file_at(libraries: Seq<LibraryView>, i: int) -> (k: int)
    requires
        0 <= i < libraries.len(),
        library_file(libraries[i]) is Some,
    ensures
        0 <= k < library_files(libraries).len(),
        library_files(libraries)[k] == library_file(libraries[i])->0,
    decreases libraries.len(),
{
    if i == libraries.len() - 1 {
        library_files(libraries).len() - 1
    } else {
        let rest = libraries.drop_last();
        assert(rest[i] == libraries[i]);
        lemma_library_file_at(rest, i)
    }
}

/// Nothing else is allowed: each path is the command's or the file of one of its libraries.
pub proof fn only_dependencies_are_allowed(command_path: Seq<u8>, tree: TreeView, k: int) -> (i:
    int)
    requires
        0 <= k < command_paths(command_path, Some(tree)).len(),
    ensures
        k == 0 ==> command_paths(command_path, Some(tree))[k] == command_path,
        k > 0 ==> 0 <= i < tree.libraries.len() && library_file(tree.libraries[i]) == Some(
            command_paths(command_path, Some(tree))[k],
        ),
{
    if k == 0 {
        0
    } else {
        lemma_library_file_from(tree.libraries, k - 1)
    }
}

proof fn lemma_library_file_from(libraries: Seq<LibraryView>, k: int) -> (i: int)
    requires
        0 <= k < library_files(libraries).len(),
    ensures
        0 <= i < libraries.len(),
        library_file(libraries[i]) == Some(library_files(libraries)[k]),
    decreases libraries.len(),
{
    let rest = libraries.drop_last();
    if k < library_files(rest).len() {
        let i = lemma_library_file_from(rest, k);
        assert(rest[i] == libraries[i]);
        i
    } else {
        libraries.len() - 1
    }
}

} // verus!
