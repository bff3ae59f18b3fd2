//! What holds of every path, whatever it names.
use crate::order::{
    byte_less, lesser_at, lex_less, lex_less_irreflexive, lex_less_transitive,
};
use crate::path::{
    component_less, components, is_absolute_path, is_parent, joined_path, last_piece_start,
    lemma_clean_is_shortest, lemma_components_single, lemma_components_split,
    lemma_last_piece_start, lemma_last_piece_start_is, lemma_root, lemma_trailing_separator,
    parent_exists, parent_is_unique, parent_path, path_less, path_less_irreflexive,
    path_less_transitive, piece_component, same_path, ComponentView,
};
use crate::path_set::{
    ascending, first_named_at, first_spelling, is_inserted, is_path_set_of, names_path,
};
use vstd::prelude::*;

verus! {

// ---- Bytes ----

/// The first byte in which two byte strings differ decides which comes first.
pub proof fn first_different_byte_decides(a: Seq<u8>, b: Seq<u8>, k: int)
    requires
        0 <= k < a.len(),
        k < b.len(),
        forall|i: int| 0 <= i < k ==> a[i] == b[i],
        a[k] < b[k],
    ensures
        lex_less(byte_less(), a, b),
        !lex_less(byte_less(), b, a),
{
    assert(lesser_at(byte_less(), a, b, k));
    if lex_less(byte_less(), b, a) {
        let m = choose|m: int| lesser_at(byte_less(), b, a, m);
        assert(m <= k);
    }
}

/// A byte string comes before every longer one that begins with it.
pub proof fn beginning_comes_first(a: Seq<u8>, more: Seq<u8>)
    requires
        more.len() > 0,
    ensures
        lex_less(byte_less(), a, a + more),
        !lex_less(byte_less(), a + more, a),
{
    let b = a + more;
    assert(lesser_at(byte_less(), a, b, a.len() as int));
    if lex_less(byte_less(), b, a) {
        let m = choose|m: int| lesser_at(byte_less(), b, a, m);
        assert(b[m] == a[m]);
    }
}

// ---- Components ----

/// A path is absolute exactly if its first byte is a separator.
pub proof fn absolute_paths_begin_with_a_separator(s: Seq<u8>)
    ensures
        s.len() == 0 ==> !is_absolute_path(s),
        s.len() > 0 ==> is_absolute_path(s) == (s[0] == 47),
{
}

/// A path without separators is one component: the current directory, the parent directory
/// or a name. The empty path has none.
pub proof fn components_of_a_single_piece(piece: Seq<u8>)
    requires
        forall|i: int| 0 <= i < piece.len() ==> piece[i] != 47,
    ensures
        piece.len() == 0 ==> components(piece) == Seq::<ComponentView>::empty(),
        piece == seq![46u8] ==> components(piece) == seq![ComponentView::CurDir],
        piece == seq![46u8, 46u8] ==> components(piece) == seq![ComponentView::ParentDir],
        piece.len() > 0 && piece != seq![46u8] && piece != seq![46u8, 46u8] ==> components(piece)
            == seq![ComponentView::Normal(piece)],
{
    lemma_last_piece_start_is(piece, 0);
    lemma_components_single(piece);
    assert(seq![46u8].len() == 1 && seq![46u8, 46u8].len() == 2);
}

/// A separator is the root at the beginning of a path, and nothing at its end.
pub proof fn components_with_a_separator_behind(s: Seq<u8>)
    ensures
        s.len() == 0 ==> components(s.push(47)) == seq![ComponentView::Root],
        s.len() > 0 ==> components(s.push(47)) == components(s),
{
    let t = s.push(47);
    if s.len() == 0 {
        lemma_root(t);
    } else {
        lemma_trailing_separator(t);
        assert(t.drop_last() =~= s);
    }
}

/// A piece behind a separator adds its component: nothing for an empty piece and `.`, the
/// parent directory for `..`, and else a name.
pub proof fn components_with_a_piece_behind(s: Seq<u8>, piece: Seq<u8>)
    requires
        forall|i: int| 0 <= i < piece.len() ==> piece[i] != 47,
    ensures
        piece.len() == 0 || piece == seq![46u8] ==> components(s.push(47) + piece) == components(
            s.push(47),
        ),
        piece == seq![46u8, 46u8] ==> components(s.push(47) + piece) == components(
            s.push(47),
        ).push(ComponentView::ParentDir),
        piece.len() > 0 && piece != seq![46u8] && piece != seq![46u8, 46u8] ==> components(
            s.push(47) + piece,
        ) == components(s.push(47)).push(ComponentView::Normal(piece)),
{
    let head = s.push(47);
    let t = head + piece;
    let k = head.len() as int;
    assert(t[k - 1] == 47);
    lemma_last_piece_start_is(t, k);
    lemma_components_split(t);
    assert(t.take(k) =~= head);
    assert(t.skip(k) =~= piece);
    assert(seq![46u8].len() == 1 && seq![46u8, 46u8].len() == 2);
    assert(components(t) =~= components(head) + piece_component(piece));
    if piece.len() == 0 || piece == seq![46u8] {
        assert(components(t) =~= components(head));
    } else if piece == seq![46u8, 46u8] {
        assert(components(t) =~= components(head).push(ComponentView::ParentDir));
    } else {
        assert(components(t) =~= components(head).push(ComponentView::Normal(piece)));
    }
}

/// Spellings name the same path exactly if they have the same components.
pub proof fn same_paths_have_the_same_components(a: Seq<u8>, b: Seq<u8>)
    ensures
        same_path(a, b) == (components(a) == components(b)),
{
}

// ---- Joining ----

/// A path joined with a relative one holds both, with one separator between them unless the
/// first is empty or has one at its end; an absolute one takes its place.
pub proof fn joined_paths_hold_both(s: Seq<u8>, tail: Seq<u8>)
    ensures
        tail.len() > 0 && tail[0] == 47 ==> joined_path(s, tail) == tail,
        !(tail.len() > 0 && tail[0] == 47) && (s.len() == 0 || s[s.len() - 1] == 47)
            ==> joined_path(s, tail) == s + tail,
        !(tail.len() > 0 && tail[0] == 47) && s.len() > 0 && s[s.len() - 1] != 47
            ==> joined_path(s, tail) == s + seq![47u8] + tail,
{
    assert(s.push(47) + tail =~= s + seq![47u8] + tail);
}

/// Joining a directory with a name adds that name to its components.
pub proof fn joining_adds_a_component(s: Seq<u8>, name: Seq<u8>)
    requires
        s.len() > 0,
        name.len() > 0,
        name != seq![46u8],
        name != seq![46u8, 46u8],
        forall|i: int| 0 <= i < name.len() ==> name[i] != 47,
    ensures
        components(joined_path(s, name)) == components(s).push(ComponentView::Normal(name)),
{
    if s.last() == 47 {
        let t = s.drop_last();
        assert(t.push(47) =~= s);
        components_with_a_piece_behind(t, name);
    } else {
        components_with_a_piece_behind(s, name);
        components_with_a_separator_behind(s);
    }
}

// ---- Parents ----

/// What lies in a directory has that directory as its parent.
pub proof fn parent_of_an_entry(s: Seq<u8>, name: Seq<u8>)
    requires
        s.len() > 0,
        name.len() > 0,
        name != seq![46u8],
        name != seq![46u8, 46u8],
        forall|i: int| 0 <= i < name.len() ==> name[i] != 47,
    ensures
        parent_path(joined_path(s, name)) is Some,
        components(parent_path(joined_path(s, name))->0) == components(s),
{
    joining_adds_a_component(s, name);
    let t = joined_path(s, name);
    assert(components(t).last() == ComponentView::Normal(name));
    parent_exists(t);
    assert(components(t).drop_last() =~= components(s));
}

/// The parent of a path is a beginning of it, shorter than it, with all components but the
/// last, and no separator at its end unless it is the root; no shorter one has them.
pub proof fn parent_is_a_beginning(s: Seq<u8>, q: Seq<u8>)
    requires
        parent_path(s) == Some(q),
    ensures
        q.len() < s.len(),
        forall|i: int| 0 <= i < q.len() ==> q[i] == s[i],
        components(s).len() > 0,
        components(q) == components(s).drop_last(),
        q.len() > 1 ==> q[q.len() - 1] != 47,
        forall|i: int|
            0 <= i < q.len() ==> #[trigger] components(s.take(i)) != components(s).drop_last(),
{
    parent_exists(s);
    assert(q == s.take(q.len() as int));
    if q.len() == s.len() {
        assert(q =~= s);
        assert(components(q).len() == components(s).len());
    }
    if q.len() > 1 && q[q.len() - 1] == 47 {
        lemma_trailing_separator(q);
        assert(q.drop_last() =~= s.take(q.len() - 1));
    }
}

/// A path has no parent exactly if it has no components or only the root.
pub proof fn only_the_root_and_the_empty_path_have_no_parent(s: Seq<u8>)
    ensures
        parent_path(s) is None <==> (components(s).len() == 0 || components(s)
            == seq![ComponentView::Root]),
{
    if components(s).len() > 0 && components(s).last() == ComponentView::Root {
        lemma_root_is_first(s);
        assert(components(s) =~= seq![ComponentView::Root]);
    }
}

/// The root is a component only at the beginning of a path.
proof fn lemma_root_is_first(s: Seq<u8>)
    requires
        components(s).len() > 0,
        components(s).last() == ComponentView::Root,
    ensures
        components(s).len() == 1,
    decreases s.len(),
{
    let k = last_piece_start(s);
    lemma_last_piece_start(s);
    if k == 0 {
        lemma_components_single(s);
    } else {
        lemma_components_split(s);
        let head = s.take(k);
        let piece = piece_component(s.skip(k));
        if piece.len() > 0 {
            assert(components(s).last() == piece.last());
        } else {
            assert(components(s) =~= components(head));
            assert(head.last() == 47);
            if k == 1 {
                lemma_root(head);
            } else {
                lemma_trailing_separator(head);
                lemma_root_is_first(head.drop_last());
            }
        }
    }
}

/// A path that ends with its last component is the parent of what lies in it, letter for
/// letter.
pub proof fn parent_of_an_entry_is_spelled_as_before(s: Seq<u8>, name: Seq<u8>)
    requires
        s.len() > 0,
        s[s.len() - 1] != 47,
        s[s.len() - 1] != 46,
        name.len() > 0,
        name != seq![46u8],
        name != seq![46u8, 46u8],
        forall|i: int| 0 <= i < name.len() ==> name[i] != 47,
    ensures
        parent_path(joined_path(s, name)) == Some(s),
{
    let t = joined_path(s, name);
    parent_of_an_entry(s, name);
    parent_exists(t);
    joining_adds_a_component(s, name);
    assert(t.take(s.len() as int) =~= s);
    assert forall|i: int| 0 <= i < s.len() implies #[trigger] components(t.take(i)) != components(
        s,
    ) by {
        assert(t.take(i) =~= s.take(i));
        lemma_clean_is_shortest(s, i);
    }
    assert(components(t).drop_last() =~= components(s));
    assert(is_parent(t, s));
    parent_is_unique(t, s, parent_path(t)->0);
}

// ---- Order ----

/// Of two components the root comes first, then `.`, then `..`, then names; of two names the
/// one with the lesser byte at the first place `m` where they differ, or that ends there.
pub proof fn components_are_ordered(a: ComponentView, b: ComponentView, m: int)
    ensures
        a is Root ==> component_less()(a, b) == !(b is Root),
        a is CurDir ==> component_less()(a, b) == (b is ParentDir || b is Normal),
        a is ParentDir ==> component_less()(a, b) == (b is Normal),
        a is Normal && !(b is Normal) ==> !component_less()(a, b),
        a is Normal && a == b ==> !component_less()(a, b),
        a is Normal && b is Normal ==> {
            let x = a->Normal_0;
            let y = b->Normal_0;
            &&& 0 <= m <= x.len()
            &&& m < y.len()
            &&& forall|i: int| 0 <= i < m ==> x[i] == y[i]
            &&& m == x.len() || x[m] < y[m]
        } ==> component_less()(a, b) && !component_less()(b, a),
{
    if a is Normal && b is Normal {
        let x = a->Normal_0;
        let y = b->Normal_0;
        lex_less_irreflexive(byte_less(), x);
        if 0 <= m <= x.len() && m < y.len() && (forall|i: int| 0 <= i < m ==> x[i] == y[i]) && (m
            == x.len() || x[m] < y[m]) {
            assert(lesser_at(byte_less(), x, y, m));
            if lex_less(byte_less(), y, x) {
                lex_less_transitive(byte_less(), x, y, x);
            }
        }
    }
}

/// The first name in which two paths differ decides which comes first, by its bytes.
pub proof fn first_different_name_decides(
    a: Seq<u8>,
    b: Seq<u8>,
    k: int,
    x: Seq<u8>,
    y: Seq<u8>,
    m: int,
)
    requires
        0 <= k < components(a).len(),
        k < components(b).len(),
        forall|i: int| 0 <= i < k ==> components(a)[i] == components(b)[i],
        components(a)[k] == ComponentView::Normal(x),
        components(b)[k] == ComponentView::Normal(y),
        0 <= m <= x.len(),
        m < y.len(),
        forall|i: int| 0 <= i < m ==> x[i] == y[i],
        m == x.len() || x[m] < y[m],
    ensures
        path_less(a, b),
        !path_less(b, a),
{
    assert(lesser_at(byte_less(), x, y, m));
    lemma_less_at(a, b, k);
}

/// The root comes before all other components, a leading `.` before `..`, and names come last.
pub proof fn names_come_last(a: Seq<u8>, b: Seq<u8>, k: int)
    requires
        0 <= k < components(a).len(),
        k < components(b).len(),
        forall|i: int| 0 <= i < k ==> components(a)[i] == components(b)[i],
        ({
            let x = components(a)[k];
            let y = components(b)[k];
            ||| x is Root && !(y is Root)
            ||| x is CurDir && (y is ParentDir || y is Normal)
            ||| x is ParentDir && y is Normal
        }),
    ensures
        path_less(a, b),
        !path_less(b, a),
{
    lemma_less_at(a, b, k);
}

proof fn lemma_less_at(a: Seq<u8>, b: Seq<u8>, k: int)
    requires
        0 <= k < components(a).len(),
        k < components(b).len(),
        forall|i: int| 0 <= i < k ==> components(a)[i] == components(b)[i],
        component_less()(components(a)[k], components(b)[k]),
    ensures
        path_less(a, b),
        !path_less(b, a),
{
    assert(lesser_at(component_less(), components(a), components(b), k));
    if path_less(b, a) {
        path_less_transitive(a, b, a);
        path_less_irreflexive(a, a);
    }
}

/// A path comes before every path that has its components and more.
pub proof fn directories_come_before_their_entries(a: Seq<u8>, b: Seq<u8>)
    requires
        components(a).len() < components(b).len(),
        forall|i: int| 0 <= i < components(a).len() ==> components(a)[i] == components(b)[i],
    ensures
        path_less(a, b),
        !path_less(b, a),
{
    assert(lesser_at(component_less(), components(a), components(b), components(a).len() as int));
    if path_less(b, a) {
        path_less_transitive(a, b, a);
        path_less_irreflexive(a, a);
    }
}

// ---- Sets ----

/// A path set is in the order of paths.
pub proof fn path_sets_are_in_order(set: Seq<Seq<u8>>, list: Seq<Seq<u8>>, i: int, j: int)
    requires
        is_path_set_of(set, list),
        0 <= i < j < set.len(),
    ensures
        path_less(set[i], set[j]),
{
    reveal(is_path_set_of);
}

/// What is in the path set of a list is in the list, and nothing before it in the list has
/// the same components.
pub proof fn path_sets_hold_only_their_list(
    set: Seq<Seq<u8>>,
    list: Seq<Seq<u8>>,
    i: int,
) -> (k: int)
    requires
        is_path_set_of(set, list),
        0 <= i < set.len(),
    ensures
        0 <= k < list.len(),
        list[k] == set[i],
        forall|j: int| 0 <= j < k ==> components(#[trigger] list[j]) != components(set[i]),
{
    reveal(is_path_set_of);
    assert(first_spelling(list, set[i]));
    let k = choose|k: int| first_named_at(list, set[i], k);
    assert forall|j: int| 0 <= j < k implies components(#[trigger] list[j]) != components(
        set[i],
    ) by {
        assert(!same_path(list[j], set[i]));
    }
    k
}

/// What is in a list has its components named in the path set of the list.
pub proof fn path_sets_name_all_of_their_list(
    set: Seq<Seq<u8>>,
    list: Seq<Seq<u8>>,
    k: int,
) -> (i: int)
    requires
        is_path_set_of(set, list),
        0 <= k < list.len(),
    ensures
        0 <= i < set.len(),
        components(set[i]) == components(list[k]),
{
    reveal(is_path_set_of);
    assert(names_path(set, list[k]));
    choose|i: int| 0 <= i < set.len() && same_path(#[trigger] set[i], list[k])
}

/// Putting a path into a set keeps all that it held, adds the path unless it was named, and
/// adds nothing else.
pub proof fn insertion_keeps_and_adds(before: Seq<Seq<u8>>, p: Seq<u8>, after: Seq<Seq<u8>>)
    requires
        ascending(before),
        is_inserted(before, p, after),
    ensures
        forall|i: int, j: int| 0 <= i < j < after.len() ==> path_less(after[i], after[j]),
        forall|i: int| 0 <= i < before.len() ==> after.contains(#[trigger] before[i]),
        exists|i: int| 0 <= i < after.len() && components(#[trigger] after[i]) == components(p),
        forall|i: int|
            0 <= i < after.len() ==> (before.contains(#[trigger] after[i]) || after[i] == p),
        (exists|i: int|
            0 <= i < before.len() && components(#[trigger] before[i]) == components(p)) ==> after
            == before,
        !(exists|i: int|
            0 <= i < before.len() && components(#[trigger] before[i]) == components(p))
            ==> after.contains(p) && after.len() == before.len() + 1,
{
    let named = exists|i: int|
        0 <= i < before.len() && components(#[trigger] before[i]) == components(p);
    if names_path(before, p) {
        let i = choose|i: int| 0 <= i < before.len() && same_path(#[trigger] before[i], p);
        assert(components(after[i]) == components(p));
        assert(components(before[i]) == components(p));
        assert forall|i: int| 0 <= i < before.len() implies after.contains(
            #[trigger] before[i],
        ) by {
            assert(after[i] == before[i]);
        }
    } else {
        if named {
            let i = choose|i: int|
                0 <= i < before.len() && components(#[trigger] before[i]) == components(p);
            assert(same_path(before[i], p));
        }
        let at = choose|k: int| 0 <= k <= before.len() && after == #[trigger] before.insert(k, p);
        assert(after[at] == p);
        assert(components(after[at]) == components(p));
        assert forall|i: int| 0 <= i < before.len() implies after.contains(
            #[trigger] before[i],
        ) by {
            let j = if i < at {
                i
            } else {
                i + 1
            };
            assert(after[j] == before[i]);
        }
        assert forall|i: int| 0 <= i < after.len() implies before.contains(#[trigger] after[i])
            || after[i] == p by {
            if i < at {
                assert(before[i] == after[i]);
            } else if i > at {
                assert(before[i - 1] == after[i]);
            }
        }
    }
}

} // verus!
