//! File paths as Linux has them: bytes, separated by `/`.
//!
//! Two spellings of a path are the same path when they have the same components: repeated
//! separators, a trailing separator and `.` (but for a leading one) name no component.
use crate::order::{
    byte_less, bytes_less, lesser_at, lex_less, lex_less_irreflexive, lex_less_is_order,
    lex_less_total, lex_less_transitive, strict_total_order,
};
use vstd::prelude::*;
use vstd::string::*;
use vstd::utf8::encode_utf8;

verus! {

/// The byte that separates the components of a path.
pub const SEPARATOR: u8 = 47;

/// The byte of which the components `.` and `..` are made.
pub const DOT: u8 = 46;

/// A component of a path, as a mathematical value.
pub enum ComponentView {
    Root,
    CurDir,
    ParentDir,
    Normal(Seq<u8>),
}

/// A component of a path.
pub enum Component {
    /// The root directory.
    Root,
    /// A leading `.` of a relative path.
    CurDir,
    /// A `..`.
    ParentDir,
    /// A name.
    Normal(Vec<u8>),
}

impl View for Component {
    type V = ComponentView;

    open spec fn view(&self) -> ComponentView {
        match *self {
            Component::Root => ComponentView::Root,
            Component::CurDir => ComponentView::CurDir,
            Component::ParentDir => ComponentView::ParentDir,
            Component::Normal(name) => ComponentView::Normal(name@),
        }
    }
}

/// A file path.
pub struct FilePath {
    /// The path as it is written.
    pub bytes: Vec<u8>,
}

impl View for FilePath {
    type V = Seq<u8>;

    open spec fn view(&self) -> Seq<u8> {
        self.bytes@
    }
}

/// What a list of paths holds.
pub open spec fn path_views(paths: Seq<FilePath>) -> Seq<Seq<u8>> {
    Seq::new(paths.len(), |i: int| paths[i]@)
}

/// Where the last piece of `s` begins: behind its last separator.
pub open spec fn last_piece_start(s: Seq<u8>) -> int
    decreases s.len(),
{
    if s.len() == 0 {
        0
    } else if s.last() == SEPARATOR {
        s.len() as int
    } else {
        last_piece_start(s.drop_last())
    }
}

/// The component that a piece between two separators names, if any.
pub open spec fn piece_component(piece: Seq<u8>) -> Seq<ComponentView> {
    if piece.len() == 0 || piece == seq![DOT] {
        seq![]
    } else if piece == seq![DOT, DOT] {
        seq![ComponentView::ParentDir]
    } else {
        seq![ComponentView::Normal(piece)]
    }
}

/// The components that the pieces of `s` name, from left to right.
pub open spec fn piece_components(s: Seq<u8>) -> Seq<ComponentView>
    decreases s.len(),
    via piece_components_decreases
{
    let k = last_piece_start(s);
    (if k == 0 {
        seq![]
    } else {
        piece_components(s.take(k - 1))
    }) + piece_component(s.skip(k))
}

#[via_fn]
proof fn piece_components_decreases(s: Seq<u8>) {
    lemma_last_piece_start(s);
}

/// The path begins at the root.
pub open spec fn is_absolute_path(s: Seq<u8>) -> bool {
    s.len() > 0 && s[0] == SEPARATOR
}

/// The path begins with a component `.`.
pub open spec fn starts_with_cur_dir(s: Seq<u8>) -> bool {
    s.len() > 0 && s[0] == DOT && (s.len() == 1 || s[1] == SEPARATOR)
}

/// What stands before the named components of a path.
pub open spec fn lead(s: Seq<u8>) -> Seq<ComponentView> {
    if is_absolute_path(s) {
        seq![ComponentView::Root]
    } else if starts_with_cur_dir(s) {
        seq![ComponentView::CurDir]
    } else {
        seq![]
    }
}

/// The components of a path.
pub open spec fn components(s: Seq<u8>) -> Seq<ComponentView> {
    lead(s) + piece_components(s)
}

/// The path has a last component that can be taken away: it is neither empty nor the root.
pub open spec fn has_parent(s: Seq<u8>) -> bool {
    components(s).len() > 0 && components(s).last() != ComponentView::Root
}

/// `q` is what is left of `s` without its last component: the shortest beginning of `s`
/// that has all components of `s` but the last.
pub open spec fn is_parent(s: Seq<u8>, q: Seq<u8>) -> bool {
    &&& q.len() <= s.len()
    &&& q == s.take(q.len() as int)
    &&& components(q) == components(s).drop_last()
    &&& forall|i: int| 0 <= i < q.len() ==> #[trigger] components(s.take(i)) != components(q)
}

/// The parent of a path, if it has one.
pub open spec fn parent_path(s: Seq<u8>) -> Option<Seq<u8>> {
    if has_parent(s) {
        Some(choose|q: Seq<u8>| is_parent(s, q))
    } else {
        None
    }
}

/// `s` followed by `tail`; an absolute `tail` takes the place of `s`.
pub open spec fn joined_path(s: Seq<u8>, tail: Seq<u8>) -> Seq<u8> {
    if is_absolute_path(tail) {
        tail
    } else if s.len() > 0 && s.last() != SEPARATOR {
        s.push(SEPARATOR) + tail
    } else {
        s + tail
    }
}

/// Where a component stands among the others: the root first, names last.
pub open spec fn component_rank(c: ComponentView) -> int {
    match c {
        ComponentView::Root => 0,
        ComponentView::CurDir => 1,
        ComponentView::ParentDir => 2,
        ComponentView::Normal(_) => 3,
    }
}

/// The order of components: by rank, and names byte by byte.
pub open spec fn component_less() -> spec_fn(ComponentView, ComponentView) -> bool {
    |a: ComponentView, b: ComponentView|
        match (a, b) {
            (ComponentView::Normal(x), ComponentView::Normal(y)) => lex_less(byte_less(), x, y),
            _ => component_rank(a) < component_rank(b),
        }
}

/// The two spellings name the same path.
pub open spec fn same_path(a: Seq<u8>, b: Seq<u8>) -> bool {
    components(a) == components(b)
}

/// The order of paths: component by component.
pub open spec fn path_less(a: Seq<u8>, b: Seq<u8>) -> bool {
    lex_less(component_less(), components(a), components(b))
}

/// How one path stands to another.
#[derive(Clone, Copy, PartialEq, Eq, Debug, Structural)]
pub enum PathOrder {
    Before,
    Same,
    After,
}

// ---- The order ----

proof fn lemma_component_order()
    ensures
        strict_total_order(component_less()),
{
    let less = component_less();
    lex_less_is_order(byte_less());
    let lex = |a: Seq<u8>, b: Seq<u8>| lex_less(byte_less(), a, b);
    assert forall|x: ComponentView| !#[trigger] less(x, x) by {
        if let ComponentView::Normal(n) = x {
            assert(!lex(n, n));
        }
    }
    assert forall|x: ComponentView, y: ComponentView, z: ComponentView|
        #[trigger] less(x, y) && #[trigger] less(y, z) implies less(x, z) by {
        match (x, y, z) {
            (
                ComponentView::Normal(a),
                ComponentView::Normal(b),
                ComponentView::Normal(c),
            ) => {
                assert(lex(a, b) && lex(b, c));
                assert(lex(a, c));
            },
            _ => {},
        }
    }
    assert forall|x: ComponentView, y: ComponentView| x == y || #[trigger] less(x, y) || less(
        y,
        x,
    ) by {
        match (x, y) {
            (ComponentView::Normal(a), ComponentView::Normal(b)) => {
                assert(a == b || lex(a, b) || lex(b, a));
            },
            _ => {},
        }
    }
}

/// No path comes before a path that it is the same as.
pub proof fn path_less_irreflexive(a: Seq<u8>, b: Seq<u8>)
    requires
        same_path(a, b),
    ensures
        !path_less(a, b),
{
    lemma_component_order();
    lex_less_irreflexive(component_less(), components(a));
}

/// The order of paths is transitive.
pub proof fn path_less_transitive(a: Seq<u8>, b: Seq<u8>, c: Seq<u8>)
    requires
        path_less(a, b),
        path_less(b, c),
    ensures
        path_less(a, c),
{
    lemma_component_order();
    lex_less_transitive(component_less(), components(a), components(b), components(c));
}

/// Of two paths that are not the same one comes before the other.
pub proof fn path_less_total(a: Seq<u8>, b: Seq<u8>)
    ensures
        same_path(a, b) || path_less(a, b) || path_less(b, a),
{
    lemma_component_order();
    lex_less_total(component_less(), components(a), components(b));
}

// ---- The last piece ----

pub(crate) proof fn lemma_last_piece_start(s: Seq<u8>)
    ensures
        0 <= last_piece_start(s) <= s.len(),
        last_piece_start(s) > 0 ==> s[last_piece_start(s) - 1] == SEPARATOR,
        forall|i: int| last_piece_start(s) <= i < s.len() ==> s[i] != SEPARATOR,
    decreases s.len(),
{
    if s.len() > 0 && s.last() != SEPARATOR {
        let t = s.drop_last();
        lemma_last_piece_start(t);
        assert forall|i: int| last_piece_start(s) <= i < s.len() implies s[i] != SEPARATOR by {
            if i < t.len() {
                assert(t[i] == s[i]);
            }
        }
    }
}

/// The start of the last piece is the only position with a separator, or nothing, before it
/// and none behind it.
pub(crate) proof fn lemma_last_piece_start_is(s: Seq<u8>, k: int)
    requires
        0 <= k <= s.len(),
        k > 0 ==> s[k - 1] == SEPARATOR,
        forall|i: int| k <= i < s.len() ==> s[i] != SEPARATOR,
    ensures
        last_piece_start(s) == k,
{
    lemma_last_piece_start(s);
    let j = last_piece_start(s);
    if j < k {
        assert(s[k - 1] != SEPARATOR);
    } else if k < j {
        assert(s[j - 1] != SEPARATOR);
    }
}

/// A path is the beginning up to its last piece, and that piece.
pub(crate) proof fn lemma_components_split(s: Seq<u8>)
    requires
        last_piece_start(s) > 0,
    ensures
        0 < last_piece_start(s) <= s.len(),
        components(s) == components(s.take(last_piece_start(s))) + piece_component(
            s.skip(last_piece_start(s)),
        ),
{
    lemma_last_piece_start(s);
    let k = last_piece_start(s);
    let t = s.take(k);
    lemma_last_piece_start_is(t, k);
    assert(t.take(k - 1) =~= s.take(k - 1));
    assert(t.skip(k) =~= seq![]);
    assert(piece_components(t) =~= piece_components(s.take(k - 1)));
    assert(s.take(k)[0] == s[0]);
    if k >= 2 {
        assert(s.take(k)[1] == s[1]);
    }
    assert(lead(t) == lead(s));
    assert(components(s) =~= components(t) + piece_component(s.skip(k)));
}

/// A path of one piece is that piece, but for a single `.`.
pub(crate) proof fn lemma_components_single(s: Seq<u8>)
    requires
        last_piece_start(s) == 0,
    ensures
        s == seq![DOT] ==> components(s) == seq![ComponentView::CurDir],
        s != seq![DOT] ==> components(s) == piece_component(s),
{
    lemma_last_piece_start(s);
    assert(s.skip(0) =~= s);
    assert(piece_components(s) =~= piece_component(s));
    if s.len() > 0 {
        assert(s[0] != SEPARATOR);
    }
    if s.len() > 1 {
        assert(s[1] != SEPARATOR);
    }
    if s.len() == 1 && s[0] == DOT {
        assert(s =~= seq![DOT]);
        assert(components(s) =~= seq![ComponentView::CurDir]);
    } else {
        assert(components(s) =~= piece_component(s));
    }
}

/// A separator at the end names nothing, unless it is the whole path.
pub(crate) proof fn lemma_trailing_separator(s: Seq<u8>)
    requires
        s.len() >= 2,
        s.last() == SEPARATOR,
    ensures
        components(s) == components(s.drop_last()),
{
    let t = s.drop_last();
    let n = s.len() as int;
    lemma_last_piece_start_is(s, n);
    assert(s.take(n - 1) =~= t);
    assert(s.skip(n) =~= seq![]);
    assert(piece_components(s) =~= piece_components(t));
    assert(t[0] == s[0]);
    if n >= 3 {
        assert(t[1] == s[1]);
    }
    assert(lead(s) == lead(t));
}

/// A `.` behind a separator names nothing.
proof fn lemma_trailing_dot(s: Seq<u8>)
    requires
        s.len() >= 2,
        s.last() == DOT,
        s[s.len() - 2] == SEPARATOR,
    ensures
        components(s) == components(s.drop_last()),
{
    let n = s.len() as int;
    lemma_last_piece_start_is(s, n - 1);
    lemma_components_split(s);
    assert(s.take(n - 1) =~= s.drop_last());
    assert(s.skip(n - 1) =~= seq![DOT]);
    assert(components(s) =~= components(s.drop_last()));
}

/// A longer beginning of a path has at least as many components.
proof fn lemma_components_grow(s: Seq<u8>, i: int)
    requires
        0 <= i <= s.len(),
    ensures
        components(s.take(i)).len() <= components(s).len(),
    decreases s.len(),
{
    if i == s.len() {
        assert(s.take(i) =~= s);
    } else {
        let t = s.drop_last();
        assert(t.take(i) =~= s.take(i));
        lemma_components_grow(t, i);
        if s.last() == SEPARATOR {
            if s.len() >= 2 {
                lemma_trailing_separator(s);
            } else {
                assert(t =~= seq![]);
                lemma_components_single(t);
            }
        } else {
            let k = last_piece_start(s);
            lemma_last_piece_start(s);
            lemma_last_piece_start_is(t, k);
            if k == 0 {
                lemma_components_single(s);
                lemma_components_single(t);
            } else {
                lemma_components_split(s);
                lemma_components_split(t);
                assert(t.take(k) =~= s.take(k));
                let p = s.skip(k);
                let q = t.skip(k);
                assert(q =~= p.drop_last());
            }
        }
    }
}

/// The path ends where its last component ends.
pub(crate) open spec fn ends_clean(s: Seq<u8>) -> bool {
    ||| s.len() <= 1
    ||| !(s.last() == SEPARATOR || (s.last() == DOT && s[s.len() - 2] == SEPARATOR))
}

/// No shorter beginning of a path that ends with its last component has its components.
pub(crate) proof fn lemma_clean_is_shortest(s: Seq<u8>, i: int)
    requires
        ends_clean(s),
        0 <= i < s.len(),
    ensures
        components(s.take(i)) != components(s),
{
    let k = last_piece_start(s);
    lemma_last_piece_start(s);
    let t = s.take(i);
    if k == 0 && i == 0 {
        assert(t =~= seq![]);
        lemma_components_single(s);
        lemma_components_single(t);
        assert(components(s).len() > 0);
    } else if i <= k {
        lemma_components_split(s);
        let b = s.take(k);
        assert(b.take(i) =~= t);
        lemma_components_grow(b, i);
        if s.last() == SEPARATOR {
            assert(s.len() == 1);
            assert(t =~= seq![]);
            lemma_components_single(t);
            assert(components(s).len() > 0);
        } else {
            let p = s.skip(k);
            assert(p.len() > 0 && p.last() == s.last());
            if p == seq![DOT] {
                assert(p.len() == 1);
                assert(s[s.len() - 2] == SEPARATOR);
                assert(false);
            }
            assert(piece_component(p).len() == 1);
        }
    } else {
        lemma_last_piece_start_is(t, k);
        let p = s.skip(k);
        let q = t.skip(k);
        assert(p.len() != q.len());
        assert(q =~= p.take(i - k));
        if k == 0 {
            lemma_components_single(s);
            lemma_components_single(t);
            assert(p =~= s && q =~= t);
            if s == seq![DOT] {
                assert(false);
            }
            if components(s) == components(t) {
                assert(components(s).len() == 1);
                assert(components(s)[0] == components(t)[0]);
            }
        } else {
            lemma_components_split(s);
            lemma_components_split(t);
            assert(t.take(k) =~= s.take(k));
            let c = components(s.take(k));
            if p == seq![DOT] {
                assert(p.len() == 1);
                assert(s.last() == p.last());
                assert(false);
            }
            if components(s) == components(t) {
                assert(piece_component(p).len() == 1);
                assert(piece_component(q).len() == 1);
                assert(components(s)[c.len() as int] == piece_component(p)[0]);
                assert(components(t)[c.len() as int] == piece_component(q)[0]);
            }
        }
    }
}

/// The root has one component.
pub(crate) proof fn lemma_root(s: Seq<u8>)
    requires
        s.len() == 1,
        s[0] == SEPARATOR,
    ensures
        components(s) == seq![ComponentView::Root],
{
    lemma_last_piece_start_is(s, 1);
    assert(s.skip(1) =~= seq![]);
    let e = s.take(0);
    assert(e =~= seq![]);
    assert(e.skip(0) =~= seq![]);
    assert(piece_components(e) =~= seq![]);
    assert(components(s) =~= seq![ComponentView::Root]);
}

/// What stands before the last piece of a path that ends with its last component has all
/// components but that one.
proof fn lemma_without_last(s: Seq<u8>, k: int)
    requires
        ends_clean(s),
        k == last_piece_start(s),
        k < s.len(),
    ensures
        components(s).len() > 0,
        components(s).last() != ComponentView::Root,
        components(s.take(k)) == components(s).drop_last(),
{
    lemma_last_piece_start(s);
    let t = s.take(k);
    let p = s.skip(k);
    if k == 0 {
        lemma_components_single(s);
        assert(t =~= seq![]);
        lemma_components_single(t);
        assert(components(s).len() == 1);
    } else {
        lemma_components_split(s);
        assert(p.last() == s.last());
        if p == seq![DOT] {
            assert(p.len() == 1);
            assert(s[s.len() - 2] == SEPARATOR);
            assert(s.last() == DOT);
            assert(false);
        }
        assert(piece_component(p).len() == 1);
        assert(components(s).last() == piece_component(p)[0]);
    }
    assert(components(s).drop_last() =~= components(t));
}

/// A path has one parent at most.
pub proof fn parent_is_unique(s: Seq<u8>, q: Seq<u8>, r: Seq<u8>)
    requires
        is_parent(s, q),
        is_parent(s, r),
    ensures
        q == r,
{
    if q.len() < r.len() {
        assert(components(s.take(q.len() as int)) == components(r));
    } else if r.len() < q.len() {
        assert(components(s.take(r.len() as int)) == components(q));
    }
}

/// Every path but the root and the empty path has a parent.
pub proof fn parent_exists(s: Seq<u8>)
    requires
        has_parent(s),
    ensures
        parent_path(s) is Some,
        is_parent(s, parent_path(s)->0),
{
    let end = lemma_trim(s, s.len() as int);
    assert(s.take(s.len() as int) =~= s);
    let t = s.take(end);
    lemma_last_piece_start(t);
    let k = last_piece_start(t);
    if end == 0 {
        lemma_components_single(t);
    }
    if k == t.len() {
        lemma_root(t);
    }
    lemma_without_last(t, k);
    assert(t.take(k) =~= s.take(k));
    let cut = lemma_trim(s, k);
    lemma_is_parent(s, k, cut);
    assert(is_parent(s, s.take(cut)));
}

/// What names no component at the end of the first `end` bytes can be left away.
proof fn lemma_trim(s: Seq<u8>, end: int) -> (r: int)
    requires
        0 <= end <= s.len(),
    ensures
        0 <= r <= end,
        components(s.take(r)) == components(s.take(end)),
        ends_clean(s.take(r)),
    decreases end,
{
    let t = s.take(end);
    if ends_clean(t) {
        end
    } else {
        assert(t.drop_last() =~= s.take(end - 1));
        if t.last() == SEPARATOR {
            lemma_trailing_separator(t);
        } else {
            lemma_trailing_dot(t);
        }
        lemma_trim(s, end - 1)
    }
}

/// A beginning that ends with its last component is the parent, if it has the components.
proof fn lemma_is_parent(s: Seq<u8>, k: int, cut: int)
    requires
        0 <= cut <= k <= s.len(),
        ends_clean(s.take(cut)),
        components(s.take(cut)) == components(s.take(k)),
        components(s.take(k)) == components(s).drop_last(),
    ensures
        is_parent(s, s.take(cut)),
{
    let q = s.take(cut);
    assert forall|i: int| 0 <= i < q.len() implies #[trigger] components(s.take(i)) != components(
        q,
    ) by {
        assert(q.take(i) =~= s.take(i));
        lemma_clean_is_shortest(q, i);
    }
}

/// The components that stand before position `start` of a path.
spec fn components_before(s: Seq<u8>, start: int) -> Seq<ComponentView> {
    lead(s) + (if start == 0 {
        seq![]
    } else {
        piece_components(s.take(start - 1))
    })
}

/// What a list of components holds.
pub open spec fn component_views(list: Seq<Component>) -> Seq<ComponentView> {
    Seq::new(list.len(), |i: int| list[i]@)
}

fn same_bytes(a: &Vec<u8>, b: &Vec<u8>) -> (r: bool)
    ensures
        r == (a@ == b@),
{
    if a.len() != b.len() {
        return false;
    }
    let mut i: usize = 0;
    while i < a.len()
        invariant
            i <= a@.len(),
            a@.len() == b@.len(),
            forall|j: int| 0 <= j < i ==> a@[j] == b@[j],
        decreases a@.len() - i,
    {
        if a[i] != b[i] {
            return false;
        }
        i += 1;
    }
    assert(a@ =~= b@);
    true
}

impl Component {
    /// Whether two components are the same.
    pub fn is_same(&self, other: &Component) -> (r: bool)
        ensures
            r == (self@ == other@),
    {
        match (self, other) {
            (Component::Root, Component::Root) => true,
            (Component::CurDir, Component::CurDir) => true,
            (Component::ParentDir, Component::ParentDir) => true,
            (Component::Normal(a), Component::Normal(b)) => same_bytes(a, b),
            _ => false,
        }
    }

    fn rank(&self) -> (r: u8)
        ensures
            r == component_rank(self@),
    {
        match self {
            Component::Root => 0,
            Component::CurDir => 1,
            Component::ParentDir => 2,
            Component::Normal(_) => 3,
        }
    }

    /// Whether this component comes before the other.
    pub fn is_before(&self, other: &Component) -> (r: bool)
        ensures
            r == component_less()(self@, other@),
    {
        match (self, other) {
            (Component::Normal(a), Component::Normal(b)) => bytes_less(
                a.as_slice(),
                b.as_slice(),
            ),
            _ => self.rank() < other.rank(),
        }
    }
}

impl FilePath {
    /// The path that `bytes` spell.
    pub fn new(bytes: Vec<u8>) -> (r: FilePath)
        ensures
            r@ == bytes@,
    {
        FilePath { bytes }
    }

    /// The path that a string spells.
    pub fn from_text(text: &str) -> (r: FilePath)
        ensures
            r@ == encode_utf8(text@),
    {
        FilePath { bytes: text.as_bytes_vec() }
    }

    /// Whether the path begins at the root.
    pub fn is_absolute(&self) -> (r: bool)
        ensures
            r == is_absolute_path(self@),
    {
        self.bytes.len() > 0 && self.bytes[0] == SEPARATOR
    }

    /// Whether the path is empty.
    pub fn is_empty(&self) -> (r: bool)
        ensures
            r == (self@.len() == 0),
    {
        self.bytes.len() == 0
    }

    /// How much of the first `end` bytes is left without what names no component at their
    /// end.
    fn trimmed_end(&self, end: usize) -> (r: usize)
        requires
            end <= self@.len(),
        ensures
            r <= end,
            components(self@.take(r as int)) == components(self@.take(end as int)),
            ends_clean(self@.take(r as int)),
    {
        let mut r: usize = end;
        while r >= 2 && (self.bytes[r - 1] == SEPARATOR || (self.bytes[r - 1] == DOT
            && self.bytes[r - 2] == SEPARATOR))
            invariant
                r <= end <= self@.len(),
                components(self@.take(r as int)) == components(self@.take(end as int)),
            decreases r,
        {
            proof {
                let s = self@.take(r as int);
                assert(s.drop_last() =~= self@.take(r - 1));
                if s.last() == SEPARATOR {
                    lemma_trailing_separator(s);
                } else {
                    lemma_trailing_dot(s);
                }
            }
            r -= 1;
        }
        r
    }

    /// The path without its last component: `None` for the root and for the empty path.
    pub fn parent(&self) -> (r: Option<FilePath>)
        ensures
            r is Some <==> has_parent(self@),
            r matches Some(q) ==> is_parent(self@, q@) && parent_path(self@) == Some(q@),
    {
        let n = self.bytes.len();
        let end = self.trimmed_end(n);
        let ghost s = self@.take(end as int);
        proof {
            assert(self@.take(n as int) =~= self@);
        }
        if end == 0 {
            proof {
                lemma_components_single(s);
            }
            return None;
        }
        let mut k: usize = end;
        while k > 0 && self.bytes[k - 1] != SEPARATOR
            invariant
                k <= end <= self@.len(),
                forall|i: int| k <= i < end ==> self@[i] != SEPARATOR,
            decreases k,
        {
            k -= 1;
        }
        proof {
            lemma_last_piece_start_is(s, k as int);
        }
        if k == end {
            proof {
                assert(s.last() == SEPARATOR);
                assert(end == 1);
                lemma_root(s);
            }
            return None;
        }
        let cut = self.trimmed_end(k);
        proof {
            lemma_without_last(s, k as int);
            assert(s.take(k as int) =~= self@.take(k as int));
            let q = self@.take(cut as int);
            lemma_is_parent(self@, k as int, cut as int);
            assert(is_parent(self@, q));
            let c = choose|c: Seq<u8>| is_parent(self@, c);
            parent_is_unique(self@, q, c);
        }
        let mut bytes: Vec<u8> = Vec::new();
        let mut i: usize = 0;
        while i < cut
            invariant
                i <= cut <= self@.len(),
                bytes@ == self@.take(i as int),
            decreases cut - i,
        {
            bytes.push(self.bytes[i]);
            proof {
                assert(self@.take(i as int).push(self@[i as int]) =~= self@.take(i + 1));
            }
            i += 1;
        }
        Some(FilePath { bytes })
    }

    /// Adds what the piece from `start` to `end` names.
    fn push_piece(&self, out: &mut Vec<Component>, start: usize, end: usize)
        requires
            start <= end <= self@.len(),
            start > 0 ==> self@[start - 1] == SEPARATOR,
            forall|i: int| start <= i < end ==> self@[i] != SEPARATOR,
            component_views(old(out)@) == components_before(self@, start as int),
        ensures
            component_views(final(out)@) == lead(self@) + piece_components(self@.take(end as int)),
    {
        let ghost t = self@.take(end as int);
        let ghost before = component_views(out@);
        let mut piece: Vec<u8> = Vec::new();
        let mut i: usize = start;
        while i < end
            invariant
                start <= i <= end <= self@.len(),
                piece@ == self@.subrange(start as int, i as int),
            decreases end - i,
        {
            piece.push(self.bytes[i]);
            proof {
                assert(self@.subrange(start as int, i as int).push(self@[i as int])
                    =~= self@.subrange(start as int, i + 1));
            }
            i += 1;
        }
        proof {
            lemma_last_piece_start_is(t, start as int);
            assert(t.skip(start as int) =~= piece@);
            if start > 0 {
                assert(t.take(start - 1) =~= self@.take(start - 1));
            }
            assert(lead(self@) + piece_components(t) =~= before + piece_component(piece@));
            assert(seq![DOT].len() == 1 && seq![DOT, DOT].len() == 2);
        }
        let ghost held = piece@;
        if piece.len() == 0 {
            assert(component_views(out@) =~= before + piece_component(held));
        } else if piece.len() == 1 && piece[0] == DOT {
            assert(held =~= seq![DOT]);
            assert(component_views(out@) =~= before + piece_component(held));
        } else if piece.len() == 2 && piece[0] == DOT && piece[1] == DOT {
            assert(held =~= seq![DOT, DOT]);
            out.push(Component::ParentDir);
            assert(component_views(out@) =~= before + piece_component(held));
        } else {
            out.push(Component::Normal(piece));
            assert(component_views(out@) =~= before + piece_component(held));
        }
    }

    /// The components of the path.
    pub fn components(&self) -> (r: Vec<Component>)
        ensures
            component_views(r@) == components(self@),
    {
        let mut out: Vec<Component> = Vec::new();
        let n = self.bytes.len();
        if self.is_absolute() {
            out.push(Component::Root);
        } else if n > 0 && self.bytes[0] == DOT && (n == 1 || self.bytes[1] == SEPARATOR) {
            out.push(Component::CurDir);
        }
        assert(component_views(out@) =~= components_before(self@, 0));
        let mut start: usize = 0;
        let mut i: usize = 0;
        while i < n
            invariant
                n == self@.len(),
                start <= i <= n,
                start > 0 ==> self@[start - 1] == SEPARATOR,
                forall|j: int| start <= j < i ==> self@[j] != SEPARATOR,
                component_views(out@) == components_before(self@, start as int),
            decreases n - i,
        {
            if self.bytes[i] == SEPARATOR {
                self.push_piece(&mut out, start, i);
                start = i + 1;
            }
            i += 1;
        }
        self.push_piece(&mut out, start, n);
        assert(self@.take(n as int) =~= self@);
        out
    }

    /// How this path stands to the other.
    pub fn compare(&self, other: &FilePath) -> (r: PathOrder)
        ensures
            r == PathOrder::Before <==> path_less(self@, other@),
            r == PathOrder::Same <==> same_path(self@, other@),
            r == PathOrder::After <==> path_less(other@, self@),
    {
        let a = self.components();
        let b = other.components();
        let ghost u = component_views(a@);
        let ghost v = component_views(b@);
        let ghost less = component_less();
        let mut i: usize = 0;
        while i < a.len() && i < b.len() && a[i].is_same(&b[i])
            invariant
                u == component_views(a@),
                v == component_views(b@),
                i <= u.len(),
                i <= v.len(),
                forall|j: int| 0 <= j < i ==> u[j] == v[j],
            decreases u.len() - i,
        {
            assert(u[i as int] == v[i as int]);
            i += 1;
        }
        proof {
            path_less_total(self@, other@);
            if path_less(self@, other@) {
                if path_less(other@, self@) {
                    path_less_transitive(self@, other@, self@);
                    path_less_irreflexive(self@, self@);
                }
                if same_path(self@, other@) {
                    path_less_irreflexive(self@, other@);
                }
            } else if path_less(other@, self@) {
                if same_path(other@, self@) {
                    path_less_irreflexive(other@, self@);
                }
            }
        }
        if i == a.len() && i == b.len() {
            assert(u =~= v);
            PathOrder::Same
        } else if i == a.len() || (i < b.len() && a[i].is_before(&b[i])) {
            assert(lesser_at(less, u, v, i as int));
            PathOrder::Before
        } else {
            proof {
                lemma_component_order();
                if i < b.len() {
                    assert(u[i as int] != v[i as int]);
                    assert(!less(u[i as int], v[i as int]));
                    assert(less(v[i as int], u[i as int]));
                }
                assert(lesser_at(less, v, u, i as int));
            }
            PathOrder::After
        }
    }

    /// The path followed by `tail`; an absolute `tail` takes its place.
    pub fn join(&self, tail: &FilePath) -> (r: FilePath)
        ensures
            r@ == joined_path(self@, tail@),
    {
        if tail.is_absolute() {
            return tail.clone();
        }
        let mut bytes: Vec<u8> = self.bytes.clone();
        assert(bytes@ =~= self@);
        let n = bytes.len();
        if n > 0 && bytes[n - 1] != SEPARATOR {
            bytes.push(SEPARATOR);
        }
        let ghost head = bytes@;
        let mut i: usize = 0;
        while i < tail.bytes.len()
            invariant
                i <= tail@.len(),
                bytes@ == head + tail@.take(i as int),
            decreases tail@.len() - i,
        {
            bytes.push(tail.bytes[i]);
            proof {
                assert(tail@.take(i as int).push(tail@[i as int]) =~= tail@.take(i + 1));
            }
            i += 1;
        }
        assert(tail@.take(tail@.len() as int) =~= tail@);
        FilePath { bytes }
    }
}

/// A copy of a list of paths.
pub(crate) fn copy_paths(list: &Vec<FilePath>) -> (r: Vec<FilePath>)
    ensures
        path_views(r@) == path_views(list@),
{
    let mut r: Vec<FilePath> = Vec::new();
    let mut i: usize = 0;
    while i < list.len()
        invariant
            i <= list@.len(),
            r@.len() == i,
            forall|j: int| 0 <= j < i ==> (#[trigger] r@[j])@ == list@[j]@,
        decreases list@.len() - i,
    {
        r.push(list[i].clone());
        i += 1;
    }
    assert(path_views(r@) =~= path_views(list@));
    r
}

impl Clone for FilePath {
    fn clone(&self) -> (r: Self)
        ensures
            r@ == self@,
    {
        FilePath { bytes: self.bytes.clone() }
    }
}

} // verus!
