//! What holds of every text and of every list of variables.
use crate::environment::{assigned, name_less, names_ascend, var_views, EnvVar};
use crate::path_laws::{beginning_comes_first, first_different_byte_decides};
use crate::text::{
    bracketed, debug_form, debug_list, decimal, digit, double_quoted, is_plain_debug_char,
    is_plain_toml_char, joined, quoted_list, text_views,
};
use vstd::prelude::*;
use vstd::utf8::encode_utf8;

verus! {

// ---- Text ----

/// Nothing joined is nothing, and one part joined is that part.
pub proof fn few_parts_joined(part: Seq<char>, separator: Seq<char>)
    ensures
        joined(seq![], separator) == Seq::<char>::empty(),
        joined(seq![part], separator) == part,
{
}

/// Two lists joined together are both joined, with one separator between them.
pub proof fn joining_splits(a: Seq<Seq<char>>, b: Seq<Seq<char>>, separator: Seq<char>)
    requires
        a.len() > 0,
        b.len() > 0,
    ensures
        joined(a + b, separator) == joined(a, separator) + separator + joined(b, separator),
    decreases b.len(),
{
    let all = a + b;
    assert(all.last() == b.last());
    if b.len() == 1 {
        assert(all.drop_last() =~= a);
        assert(b[0] == b.last());
        assert(joined(all, separator) =~= joined(a, separator) + separator + joined(b, separator));
    } else {
        let rest = b.drop_last();
        assert(all.drop_last() =~= a + rest);
        joining_splits(a, rest, separator);
        assert(joined(all, separator) =~= joined(a, separator) + separator + joined(b, separator));
    }
}

/// A number below ten is its digit; ten times a number and a digit is the number with the
/// digit behind it.
pub proof fn decimal_notation(n: nat, d: nat)
    requires
        d < 10,
    ensures
        decimal(d) == seq![(48 + d) as char],
        n > 0 ==> decimal(10 * n + d) == decimal(n).push((48 + d) as char),
{
    assert(digit(d) == (48 + d) as char);
    assert((10 * n + d) / 10 == n);
    assert((10 * n + d) % 10 == d);
}

/// Brackets stand around the parts, which commas and spaces part.
pub proof fn brackets_stand_around(items: Seq<Seq<char>>)
    ensures
        bracketed(items) == seq!['['] + joined(items, seq![',', ' ']) + seq![']'],
{
    reveal_strlit("[");
    reveal_strlit("]");
    reveal_strlit(", ");
    assert("["@ =~= seq!['[']);
    assert("]"@ =~= seq![']']);
    assert(", "@ =~= seq![',', ' ']);
}

/// A list in the `Debug` format holds each of its strings in that format, in order.
pub proof fn debug_lists_hold_all(list: Seq<Seq<char>>)
    ensures
        debug_list(list) == bracketed(Seq::new(list.len(), |i: int| debug_form(list[i]))),
        quoted_list(list) == bracketed(
            Seq::new(list.len(), |i: int| seq!['"'] + list[i] + seq!['"']),
        ),
{
    assert(list.map_values(|t: Seq<char>| debug_form(t)) =~= Seq::new(
        list.len(),
        |i: int| debug_form(list[i]),
    ));
    assert(list.map_values(|t: Seq<char>| double_quoted(t)) =~= Seq::new(
        list.len(),
        |i: int| seq!['"'] + list[i] + seq!['"'],
    ));
}

/// Plain characters: printable ASCII in the `Debug` format, all but control characters in
/// TOML; the double quote and the backslash in neither.
pub proof fn plain_characters(c: char)
    ensures
        is_plain_debug_char(c) <==> (32 <= c as u32 && c as u32 <= 126 && c as u32 != 34 && c as u32
            != 92),
        is_plain_toml_char(c) <==> (32 <= c as u32 && c as u32 != 127 && c as u32 != 34 && c as u32
            != 92),
{
}

/// The view of a list of strings has the text of each, in order.
pub proof fn text_views_hold_all(list: Seq<String>)
    ensures
        text_views(list).len() == list.len(),
        forall|i: int| 0 <= i < list.len() ==> text_views(list)[i] == (#[trigger] list[i])@,
{
}

// ---- Variables ----

/// The view of a list of variables has the name and the value of each, in order.
pub proof fn var_views_hold_all(list: Seq<EnvVar>)
    ensures
        var_views(list).len() == list.len(),
        forall|i: int|
            0 <= i < list.len() ==> var_views(list)[i] == (
                (#[trigger] list[i]).name@,
                list[i].literal@,
            ),
{
}

/// Only names of the list are assigned, each to the value that the list gives it last.
pub proof fn only_listed_variables_are_assigned(
    list: Seq<(Seq<char>, Seq<char>)>,
    name: Seq<char>,
) -> (i: int)
    requires
        assigned(list).dom().contains(name),
    ensures
        0 <= i < list.len(),
        list[i].0 == name,
        list[i].1 == assigned(list)[name],
        forall|j: int| i < j < list.len() ==> (#[trigger] list[j]).0 != name,
    decreases list.len(),
{
    if list.last().0 == name {
        list.len() - 1
    } else {
        let rest = list.drop_last();
        let i = only_listed_variables_are_assigned(rest, name);
        assert forall|j: int| i < j < list.len() implies (#[trigger] list[j]).0 != name by {
            if j < rest.len() {
                assert(rest[j] == list[j]);
            }
        }
        i
    }
}

/// The first byte in which two names differ decides which comes first; a name comes before
/// every longer one that begins with it.
pub proof fn names_are_ordered_by_bytes(a: Seq<char>, b: Seq<char>, k: int)
    requires
        0 <= k <= encode_utf8(a).len(),
        k < encode_utf8(b).len(),
        forall|i: int| 0 <= i < k ==> encode_utf8(a)[i] == encode_utf8(b)[i],
        k == encode_utf8(a).len() || encode_utf8(a)[k] < encode_utf8(b)[k],
    ensures
        name_less(a, b),
        !name_less(b, a),
{
    let x = encode_utf8(a);
    let y = encode_utf8(b);
    if k == x.len() {
        beginning_comes_first(x, y.skip(k));
        assert(x + y.skip(k) =~= y);
    } else {
        first_different_byte_decides(x, y, k);
    }
}

/// In a list in order, each name comes before all behind it.
pub proof fn ordered_variables(list: Seq<(Seq<char>, Seq<char>)>, i: int, j: int)
    requires
        names_ascend(list),
        0 <= i < j < list.len(),
    ensures
        name_less(list[i].0, list[j].0),
{
}

} // verus!
