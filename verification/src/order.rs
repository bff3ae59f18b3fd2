//! Lexicographic order on sequences.
use vstd::prelude::*;

verus! {

/// `less` orders its type strictly and totally.
pub open spec fn strict_total_order<T>(less: spec_fn(T, T) -> bool) -> bool {
    &&& forall|x: T| !#[trigger] less(x, x)
    &&& forall|x: T, y: T, z: T| #[trigger] less(x, y) && #[trigger] less(y, z) ==> less(x, z)
    &&& forall|x: T, y: T| x == y || #[trigger] less(x, y) || less(y, x)
}

/// `a` and `b` agree before position `k`, and at `k` the sequence `a` has ended or holds
/// the lesser item.
pub open spec fn lesser_at<T>(less: spec_fn(T, T) -> bool, a: Seq<T>, b: Seq<T>, k: int) -> bool {
    &&& 0 <= k <= a.len()
    &&& k < b.len()
    &&& forall|i: int| 0 <= i < k ==> a[i] == b[i]
    &&& k == a.len() || less(a[k], b[k])
}

/// The lexicographic order that `less` induces: a proper prefix comes first.
pub open spec fn lex_less<T>(less: spec_fn(T, T) -> bool, a: Seq<T>, b: Seq<T>) -> bool {
    exists|k: int| lesser_at(less, a, b, k)
}

/// The order of bytes.
pub open spec fn byte_less() -> spec_fn(u8, u8) -> bool {
    |x: u8, y: u8| x < y
}

/// No sequence comes before itself.
pub proof fn lex_less_irreflexive<T>(less: spec_fn(T, T) -> bool, a: Seq<T>)
    requires
        strict_total_order(less),
    ensures
        !lex_less(less, a, a),
{
}

/// The lexicographic order is transitive.
pub proof fn lex_less_transitive<T>(
    less: spec_fn(T, T) -> bool,
    a: Seq<T>,
    b: Seq<T>,
    c: Seq<T>,
)
    requires
        strict_total_order(less),
        lex_less(less, a, b),
        lex_less(less, b, c),
    ensures
        lex_less(less, a, c),
{
    let j = choose|k: int| lesser_at(less, a, b, k);
    let k = choose|k: int| lesser_at(less, b, c, k);
    if j < k {
        assert(a[j] == a[j] && b[j] == c[j]);
        assert(lesser_at(less, a, c, j));
    } else if k < j {
        assert(a[k] == b[k]);
        assert(lesser_at(less, a, c, k));
    } else {
        if j < a.len() {
            assert(less(a[j], b[j]) && less(b[j], c[j]));
        }
        assert(lesser_at(less, a, c, j));
    }
}

/// The length of the longest common prefix.
spec fn common_prefix<T>(a: Seq<T>, b: Seq<T>) -> int
    decreases a.len(),
{
    if a.len() == 0 || b.len() == 0 || a[0] != b[0] {
        0
    } else {
        1 + common_prefix(a.drop_first(), b.drop_first())
    }
}

proof fn lemma_common_prefix<T>(a: Seq<T>, b: Seq<T>)
    ensures
        ({
            let k = common_prefix(a, b);
            &&& 0 <= k <= a.len()
            &&& k <= b.len()
            &&& forall|i: int| 0 <= i < k ==> a[i] == b[i]
            &&& k < a.len() && k < b.len() ==> a[k] != b[k]
        }),
    decreases a.len(),
{
    if a.len() == 0 || b.len() == 0 || a[0] != b[0] {
    } else {
        let a1 = a.drop_first();
        let b1 = b.drop_first();
        lemma_common_prefix(a1, b1);
        let k = common_prefix(a, b);
        assert forall|i: int| 0 <= i < k implies a[i] == b[i] by {
            if i > 0 {
                assert(a1[i - 1] == b1[i - 1]);
            }
        }
        if k < a.len() && k < b.len() {
            assert(a1[k - 1] == a[k] && b1[k - 1] == b[k]);
        }
    }
}

/// Of two different sequences one comes before the other.
pub proof fn lex_less_total<T>(less: spec_fn(T, T) -> bool, a: Seq<T>, b: Seq<T>)
    requires
        strict_total_order(less),
    ensures
        a == b || lex_less(less, a, b) || lex_less(less, b, a),
{
    let k = common_prefix(a, b);
    lemma_common_prefix(a, b);
    if k == a.len() && k == b.len() {
        assert(a =~= b);
    } else if k == a.len() {
        assert(lesser_at(less, a, b, k));
    } else if k == b.len() {
        assert(lesser_at(less, b, a, k));
    } else {
        assert(a[k] != b[k]);
        if less(a[k], b[k]) {
            assert(lesser_at(less, a, b, k));
        } else {
            assert(lesser_at(less, b, a, k));
        }
    }
}

/// The lexicographic order that a strict total order induces is itself one.
pub proof fn lex_less_is_order<T>(less: spec_fn(T, T) -> bool)
    requires
        strict_total_order(less),
    ensures
        strict_total_order(|a: Seq<T>, b: Seq<T>| lex_less(less, a, b)),
{
    let lex = |a: Seq<T>, b: Seq<T>| lex_less(less, a, b);
    assert forall|x: Seq<T>| !#[trigger] lex(x, x) by {
        lex_less_irreflexive(less, x);
    }
    assert forall|x: Seq<T>, y: Seq<T>, z: Seq<T>| #[trigger] lex(x, y) && #[trigger] lex(y, z)
        implies lex(x, z) by {
        lex_less_transitive(less, x, y, z);
    }
    assert forall|x: Seq<T>, y: Seq<T>| x == y || #[trigger] lex(x, y) || lex(y, x) by {
        lex_less_total(less, x, y);
    }
}

/// Whether `a` comes before `b`, byte by byte.
pub fn bytes_less(a: &[u8], b: &[u8]) -> (r: bool)
    ensures
        r == lex_less(byte_less(), a@, b@),
{
    let mut i: usize = 0;
    while i < a.len() && i < b.len() && a[i] == b[i]
        invariant
            i <= a@.len(),
            i <= b@.len(),
            forall|j: int| 0 <= j < i ==> a@[j] == b@[j],
        decreases a@.len() - i,
    {
        i += 1;
    }
    let r = i < b.len() && (i == a.len() || a[i] < b[i]);
    proof {
        if r {
            assert(lesser_at(byte_less(), a@, b@, i as int));
        } else if lex_less(byte_less(), a@, b@) {
            let k = choose|k: int| lesser_at(byte_less(), a@, b@, k);
            assert(k <= i);
            assert(false);
        }
    }
    r
}

} // verus!
