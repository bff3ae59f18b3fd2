//! Sets of paths, in the order of paths.
use crate::path::{
    path_less, path_less_irreflexive, path_less_total, path_less_transitive, path_views,
    same_path, FilePath, PathOrder,
};
use vstd::prelude::*;

verus! {

/// Each path comes before the next.
pub open spec fn ascending(paths: Seq<Seq<u8>>) -> bool {
    forall|i: int, j: int| 0 <= i < j < paths.len() ==> path_less(paths[i], paths[j])
}

/// Some spelling of `p` is in the list.
pub open spec fn names_path(paths: Seq<Seq<u8>>, p: Seq<u8>) -> bool {
    exists|i: int| 0 <= i < paths.len() && same_path(#[trigger] paths[i], p)
}

/// `p` stands at position `k` of the list, and no spelling of it before.
pub open spec fn first_named_at(paths: Seq<Seq<u8>>, p: Seq<u8>, k: int) -> bool {
    &&& 0 <= k < paths.len()
    &&& paths[k] == p
    &&& forall|j: int| 0 <= j < k ==> !same_path(#[trigger] paths[j], p)
}

/// `p` is how the list spells its path first.
pub open spec fn first_spelling(paths: Seq<Seq<u8>>, p: Seq<u8>) -> bool {
    exists|k: int| first_named_at(paths, p, k)
}

/// `set` holds the paths of `list`, each once, as `list` spells it first, in the order of
/// paths.
#[verifier::opaque]
pub open spec fn is_path_set_of(set: Seq<Seq<u8>>, list: Seq<Seq<u8>>) -> bool {
    &&& ascending(set)
    &&& forall|i: int| 0 <= i < set.len() ==> first_spelling(list, #[trigger] set[i])
    &&& forall|k: int| 0 <= k < list.len() ==> names_path(set, #[trigger] list[k])
}

/// The set of the paths of a list.
pub open spec fn path_set_of(list: Seq<Seq<u8>>) -> Seq<Seq<u8>> {
    choose|set: Seq<Seq<u8>>| is_path_set_of(set, list)
}

/// What a path set is after `p` was put in.
pub open spec fn is_inserted(before: Seq<Seq<u8>>, p: Seq<u8>, after: Seq<Seq<u8>>) -> bool {
    if names_path(before, p) {
        after == before
    } else {
        &&& ascending(after)
        &&& exists|k: int| 0 <= k <= before.len() && after == #[trigger] before.insert(k, p)
    }
}

proof fn lemma_first_spelling_push(list: Seq<Seq<u8>>, p: Seq<u8>, q: Seq<u8>)
    requires
        first_spelling(list, q),
    ensures
        first_spelling(list.push(p), q),
{
    let k = choose|k: int| first_named_at(list, q, k);
    assert(first_named_at(list.push(p), q, k));
}

/// Putting a path into the set of a list gives the set of the list with that path behind it.
pub proof fn insertion_extends_list(
    set: Seq<Seq<u8>>,
    list: Seq<Seq<u8>>,
    p: Seq<u8>,
    after: Seq<Seq<u8>>,
)
    requires
        is_path_set_of(set, list),
        is_inserted(set, p, after),
    ensures
        is_path_set_of(after, list.push(p)),
{
    reveal(is_path_set_of);
    let longer = list.push(p);
    if names_path(set, p) {
        assert forall|i: int| 0 <= i < after.len() implies first_spelling(
            longer,
            #[trigger] after[i],
        ) by {
            lemma_first_spelling_push(list, p, set[i]);
        }
        assert forall|k: int| 0 <= k < longer.len() implies names_path(
            after,
            #[trigger] longer[k],
        ) by {
            if k < list.len() {
                assert(longer[k] == list[k]);
            }
        }
    } else {
        let at = choose|k: int| 0 <= k <= set.len() && after == #[trigger] set.insert(k, p);
        assert forall|i: int| 0 <= i < after.len() implies first_spelling(
            longer,
            #[trigger] after[i],
        ) by {
            if i == at {
                assert forall|j: int| 0 <= j < list.len() implies !same_path(
                    #[trigger] longer[j],
                    p,
                ) by {
                    assert(longer[j] == list[j]);
                    assert(names_path(set, list[j]));
                    let m = choose|m: int| 0 <= m < set.len() && same_path(
                        #[trigger] set[m],
                        list[j],
                    );
                    if same_path(longer[j], p) {
                        assert(same_path(set[m], p));
                    }
                }
                assert(first_named_at(longer, p, list.len() as int));
            } else if i < at {
                lemma_first_spelling_push(list, p, set[i]);
            } else {
                lemma_first_spelling_push(list, p, set[i - 1]);
            }
        }
        assert forall|k: int| 0 <= k < longer.len() implies names_path(
            after,
            #[trigger] longer[k],
        ) by {
            if k < list.len() {
                assert(longer[k] == list[k]);
                assert(names_path(set, list[k]));
                let m = choose|m: int| 0 <= m < set.len() && same_path(
                    #[trigger] set[m],
                    list[k],
                );
                let i = if m < at {
                    m
                } else {
                    m + 1
                };
                assert(after[i] == set[m]);
            } else {
                assert(after[at] == p);
            }
        }
    }
}

/// Two path sets that name the same paths in the same spelling are equal.
proof fn lemma_same_members(a: Seq<Seq<u8>>, b: Seq<Seq<u8>>)
    requires
        ascending(a),
        ascending(b),
        forall|i: int| 0 <= i < a.len() ==> b.contains(#[trigger] a[i]),
        forall|i: int| 0 <= i < b.len() ==> a.contains(#[trigger] b[i]),
    ensures
        a == b,
    decreases a.len(),
{
    if a.len() == 0 {
        if b.len() > 0 {
            assert(a.contains(b[0]));
        }
        assert(a =~= b);
    } else {
        assert(b.contains(a[0]));
        let x = a.last();
        let y = b.last();
        let i = b.index_of(x);
        let j = a.index_of(y);
        assert(b.contains(a[a.len() - 1]));
        assert(a.contains(b[b.len() - 1]));
        assert(b[i] == x && a[j] == y);
        if i < b.len() - 1 && j < a.len() - 1 {
            assert(path_less(x, y));
            assert(path_less(y, x));
            path_less_transitive(x, y, x);
            path_less_irreflexive(x, x);
        }
        assert(x == y);
        let a1 = a.drop_last();
        let b1 = b.drop_last();
        assert forall|i: int| 0 <= i < a1.len() implies b1.contains(#[trigger] a1[i]) by {
            assert(b.contains(a[i]));
            let k = b.index_of(a[i]);
            if k == b.len() - 1 {
                assert(path_less(a[i], x));
                path_less_irreflexive(x, x);
            }
            assert(b1[k] == a1[i]);
        }
        assert forall|i: int| 0 <= i < b1.len() implies a1.contains(#[trigger] b1[i]) by {
            assert(a.contains(b[i]));
            let k = a.index_of(b[i]);
            if k == a.len() - 1 {
                assert(path_less(b[i], y));
                path_less_irreflexive(y, y);
            }
            assert(a1[k] == b1[i]);
        }
        lemma_same_members(a1, b1);
        assert(a =~= a1.push(x));
        assert(b =~= b1.push(y));
    }
}

/// The set of a list holds each path as the list spells it first.
pub proof fn path_set_contains(set: Seq<Seq<u8>>, list: Seq<Seq<u8>>, p: Seq<u8>)
    requires
        is_path_set_of(set, list),
        first_spelling(list, p),
    ensures
        set.contains(p),
{
    reveal(is_path_set_of);
    let k = choose|k: int| first_named_at(list, p, k);
    assert(names_path(set, list[k]));
    let i = choose|i: int| 0 <= i < set.len() && same_path(#[trigger] set[i], p);
    assert(first_spelling(list, set[i]));
    let j = choose|j: int| first_named_at(list, set[i], j);
    if j < k {
        assert(same_path(list[j], p));
    } else if k < j {
        assert(same_path(list[k], set[i]));
    }
    assert(set[i] == p);
}

/// A list has one path set.
pub proof fn path_set_is_unique(a: Seq<Seq<u8>>, b: Seq<Seq<u8>>, list: Seq<Seq<u8>>)
    requires
        is_path_set_of(a, list),
        is_path_set_of(b, list),
    ensures
        a == b,
{
    reveal(is_path_set_of);
    assert forall|i: int| 0 <= i < a.len() implies b.contains(#[trigger] a[i]) by {
        path_set_contains(b, list, a[i]);
    }
    assert forall|i: int| 0 <= i < b.len() implies a.contains(#[trigger] b[i]) by {
        path_set_contains(a, list, b[i]);
    }
    lemma_same_members(a, b);
}

/// A path that a set does not name has a place in it.
proof fn lemma_place(set: Seq<Seq<u8>>, p: Seq<u8>, k: int) -> (after: Seq<Seq<u8>>)
    requires
        ascending(set),
        !names_path(set, p),
        0 <= k <= set.len(),
        forall|i: int| 0 <= i < k ==> path_less(#[trigger] set[i], p),
    ensures
        is_inserted(set, p, after),
    decreases set.len() - k,
{
    if k < set.len() {
        assert(!same_path(set[k], p));
        path_less_total(set[k], p);
    }
    if k < set.len() && path_less(set[k], p) {
        lemma_place(set, p, k + 1)
    } else {
        let after = set.insert(k, p);
        assert forall|i: int, j: int| 0 <= i < j < after.len() implies path_less(
            after[i],
            after[j],
        ) by {
            if i < k && j == k {
                assert(path_less(set[i], p));
            } else if i == k && j > k + 1 {
                path_less_transitive(p, set[k], set[j - 1]);
            }
        }
        after
    }
}

/// Every list has a path set.
pub proof fn path_set_exists(list: Seq<Seq<u8>>)
    ensures
        is_path_set_of(path_set_of(list), list),
    decreases list.len(),
{
    if list.len() == 0 {
        reveal(is_path_set_of);
        assert(is_path_set_of(Seq::<Seq<u8>>::empty(), list));
    } else {
        let rest = list.drop_last();
        let p = list.last();
        path_set_exists(rest);
        let set = path_set_of(rest);
        let after = if names_path(set, p) {
            set
        } else {
            assert(ascending(set)) by {
                reveal(is_path_set_of);
            }
            lemma_place(set, p, 0)
        };
        insertion_extends_list(set, rest, p, after);
        assert(rest.push(p) =~= list);
        assert(is_path_set_of(after, list));
    }
}

/// What is a path set of a list is the path set of it.
pub proof fn path_set_is(set: Seq<Seq<u8>>, list: Seq<Seq<u8>>)
    requires
        is_path_set_of(set, list),
    ensures
        set == path_set_of(list),
{
    path_set_is_unique(set, path_set_of(list), list);
}

proof fn lemma_combined_spelling(
    a: Seq<Seq<u8>>,
    b: Seq<Seq<u8>>,
    list_a: Seq<Seq<u8>>,
    list_b: Seq<Seq<u8>>,
    p: Seq<u8>,
)
    requires
        forall|i: int| 0 <= i < a.len() ==> first_spelling(list_a, #[trigger] a[i]),
        forall|i: int| 0 <= i < b.len() ==> first_spelling(list_b, #[trigger] b[i]),
        forall|k: int| 0 <= k < list_a.len() ==> names_path(a, #[trigger] list_a[k]),
        first_spelling(a + b, p),
    ensures
        first_spelling(list_a + list_b, p),
{
    let both = a + b;
    let lists = list_a + list_b;
    let k = choose|k: int| first_named_at(both, p, k);
    if k < a.len() {
        assert(a[k] == p);
        assert(first_spelling(list_a, a[k]));
        let m = choose|m: int| first_named_at(list_a, p, m);
        assert forall|j: int| 0 <= j < m implies !same_path(#[trigger] lists[j], p) by {
            assert(lists[j] == list_a[j]);
        }
        assert(first_named_at(lists, p, m));
    } else {
        assert(b[k - a.len()] == p);
        assert(first_spelling(list_b, b[k - a.len()]));
        let m = choose|m: int| first_named_at(list_b, p, m);
        let n = list_a.len() + m;
        assert forall|j: int| 0 <= j < n implies !same_path(#[trigger] lists[j], p) by {
            if j < list_a.len() {
                assert(lists[j] == list_a[j]);
                let q = choose|q: int| 0 <= q < a.len() && same_path(#[trigger] a[q], list_a[j]);
                assert(both[q] == a[q]);
            } else {
                assert(lists[j] == list_b[j - list_a.len()]);
            }
        }
        assert(lists[n] == list_b[m]);
        assert(first_named_at(lists, p, n));
    }
}

proof fn lemma_combined_name(
    a: Seq<Seq<u8>>,
    b: Seq<Seq<u8>>,
    list_a: Seq<Seq<u8>>,
    list_b: Seq<Seq<u8>>,
    set: Seq<Seq<u8>>,
    n: int,
)
    requires
        forall|k: int| 0 <= k < list_a.len() ==> names_path(a, #[trigger] list_a[k]),
        forall|k: int| 0 <= k < list_b.len() ==> names_path(b, #[trigger] list_b[k]),
        forall|k: int| 0 <= k < (a + b).len() ==> names_path(set, #[trigger] (a + b)[k]),
        0 <= n < (list_a + list_b).len(),
    ensures
        names_path(set, (list_a + list_b)[n]),
{
    let both = a + b;
    let p = (list_a + list_b)[n];
    let at = if n < list_a.len() {
        assert(p == list_a[n]);
        choose|q: int| 0 <= q < a.len() && same_path(#[trigger] a[q], p)
    } else {
        assert(p == list_b[n - list_a.len()]);
        a.len() + choose|q: int| 0 <= q < b.len() && same_path(#[trigger] b[q], p)
    };
    assert(same_path(both[at], p));
    let i = choose|i: int| 0 <= i < set.len() && same_path(#[trigger] set[i], both[at]);
    assert(same_path(set[i], p));
}

/// The set of two path sets is the set of the lists that they are of.
pub proof fn path_sets_combine(
    a: Seq<Seq<u8>>,
    b: Seq<Seq<u8>>,
    list_a: Seq<Seq<u8>>,
    list_b: Seq<Seq<u8>>,
    set: Seq<Seq<u8>>,
)
    requires
        is_path_set_of(a, list_a),
        is_path_set_of(b, list_b),
        is_path_set_of(set, a + b),
    ensures
        is_path_set_of(set, list_a + list_b),
{
    reveal(is_path_set_of);
    assert forall|i: int| 0 <= i < set.len() implies first_spelling(
        list_a + list_b,
        #[trigger] set[i],
    ) by {
        lemma_combined_spelling(a, b, list_a, list_b, set[i]);
    }
    assert forall|k: int| 0 <= k < (list_a + list_b).len() implies names_path(
        set,
        #[trigger] (list_a + list_b)[k],
    ) by {
        lemma_combined_name(a, b, list_a, list_b, set, k);
    }
}

/// A set of paths.
pub struct PathSet {
    paths: Vec<FilePath>,
}

impl View for PathSet {
    type V = Seq<Seq<u8>>;

    closed spec fn view(&self) -> Seq<Seq<u8>> {
        path_views(self.paths@)
    }
}

impl PathSet {
    /// The set holds each path once, in the order of paths.
    pub open spec fn well_formed(&self) -> bool {
        ascending(self@)
    }

    /// The empty set.
    pub fn new() -> (r: PathSet)
        ensures
            r.well_formed(),
            r@ == Seq::<Seq<u8>>::empty(),
            is_path_set_of(r@, Seq::<Seq<u8>>::empty()),
    {
        reveal(is_path_set_of);
        let r = PathSet { paths: Vec::new() };
        assert(r@ =~= Seq::<Seq<u8>>::empty());
        r
    }

    /// Puts a path in, unless the set has some spelling of it.
    pub fn insert(&mut self, path: FilePath)
        requires
            old(self).well_formed(),
        ensures
            final(self).well_formed(),
            is_inserted(old(self)@, path@, final(self)@),
    {
        let ghost before = self@;
        let n = self.paths.len();
        let mut at: usize = 0;
        while at < n
            invariant
                n == self.paths@.len(),
                before == self@,
                before == path_views(self.paths@),
                ascending(before),
                at <= n,
                forall|i: int| 0 <= i < at ==> path_less(#[trigger] before[i], path@),
            ensures
                at <= n,
                at < n ==> path_less(path@, before[at as int]),
            decreases n - at,
        {
            match self.paths[at].compare(&path) {
                PathOrder::Before => {
                    at += 1;
                },
                PathOrder::Same => {
                    assert(same_path(before[at as int], path@));
                    assert(names_path(before, path@));
                    return ;
                },
                PathOrder::After => {
                    break;
                },
            }
        }
        let ghost p = path@;
        proof {
            if names_path(before, p) {
                let i = choose|i: int| 0 <= i < before.len() && same_path(#[trigger] before[i], p);
                if i < at {
                    path_less_irreflexive(before[i], p);
                } else {
                    if i > at {
                        path_less_transitive(p, before[at as int], before[i]);
                    }
                    path_less_irreflexive(p, before[i]);
                }
            }
        }
        self.paths.insert(at, path);
        proof {
            assert(self@ =~= before.insert(at as int, p));
            let after = self@;
            assert forall|i: int, j: int| 0 <= i < j < after.len() implies path_less(
                after[i],
                after[j],
            ) by {
                if i < at && j == at {
                    assert(path_less(before[i], p));
                } else if i == at {
                    if j - 1 > at {
                        path_less_transitive(p, before[at as int], before[j - 1]);
                    }
                }
            }
        }
    }

    /// Puts the paths of a list in, from the first to the last.
    pub fn extend(&mut self, list: &Vec<FilePath>)
        requires
            old(self).well_formed(),
        ensures
            final(self).well_formed(),
            forall|earlier: Seq<Seq<u8>>| #[trigger]
                is_path_set_of(old(self)@, earlier) ==> is_path_set_of(
                    final(self)@,
                    earlier + path_views(list@),
                ),
    {
        let ghost before = self@;
        let ghost added = path_views(list@);
        proof {
            assert forall|earlier: Seq<Seq<u8>>| #[trigger]
                is_path_set_of(before, earlier) implies is_path_set_of(
                self@,
                earlier + added.take(0),
            ) by {
                assert(earlier + added.take(0) =~= earlier);
            }
        }
        let mut i: usize = 0;
        while i < list.len()
            invariant
                i <= list@.len(),
                added == path_views(list@),
                self.well_formed(),
                forall|earlier: Seq<Seq<u8>>| #[trigger]
                    is_path_set_of(before, earlier) ==> is_path_set_of(
                        self@,
                        earlier + added.take(i as int),
                    ),
            decreases list@.len() - i,
        {
            let ghost mid = self@;
            self.insert(list[i].clone());
            proof {
                assert forall|earlier: Seq<Seq<u8>>| #[trigger]
                    is_path_set_of(before, earlier) implies is_path_set_of(
                    self@,
                    earlier + added.take(i + 1),
                ) by {
                    insertion_extends_list(
                        mid,
                        earlier + added.take(i as int),
                        added[i as int],
                        self@,
                    );
                    assert((earlier + added.take(i as int)).push(added[i as int]) =~= earlier
                        + added.take(i + 1));
                }
            }
            i += 1;
        }
        assert(added.take(i as int) =~= added);
    }

    /// The paths of the set, in their order.
    pub fn into_vec(self) -> (r: Vec<FilePath>)
        ensures
            path_views(r@) == self@,
    {
        self.paths
    }
}

} // verus!
