//! The environment variables that a command is given.
use crate::order::{
    byte_less, bytes_less, lex_less, lex_less_irreflexive, lex_less_total, lex_less_transitive,
};
use vstd::prelude::*;
use vstd::string::*;
use vstd::utf8::{encode_utf8, encode_utf8_decode_utf8};

verus! {

/// A variable and its value.
pub struct EnvVar {
    /// The variable.
    pub name: String,
    /// Its value, taken as it is.
    pub literal: String,
}

impl View for EnvVar {
    type V = (Seq<char>, Seq<char>);

    open spec fn view(&self) -> (Seq<char>, Seq<char>) {
        (self.name@, self.literal@)
    }
}

/// What a list of variables holds.
pub open spec fn var_views(list: Seq<EnvVar>) -> Seq<(Seq<char>, Seq<char>)> {
    Seq::new(list.len(), |i: int| list[i]@)
}

/// What variables are set to when a list is applied from the first to the last.
pub open spec fn assigned(list: Seq<(Seq<char>, Seq<char>)>) -> Map<Seq<char>, Seq<char>>
    decreases list.len(),
{
    if list.len() == 0 {
        Map::empty()
    } else {
        assigned(list.drop_last()).insert(list.last().0, list.last().1)
    }
}

/// The order of names: by their bytes.
pub open spec fn name_less(a: Seq<char>, b: Seq<char>) -> bool {
    lex_less(byte_less(), encode_utf8(a), encode_utf8(b))
}

/// Each variable comes before the next.
pub open spec fn names_ascend(list: Seq<(Seq<char>, Seq<char>)>) -> bool {
    forall|i: int, j: int| 0 <= i < j < list.len() ==> name_less(list[i].0, list[j].0)
}

proof fn lemma_name_order(a: Seq<char>, b: Seq<char>)
    ensures
        a == b || name_less(a, b) || name_less(b, a),
        a == b ==> !name_less(a, b),
        name_less(a, b) ==> !name_less(b, a),
{
    let x = encode_utf8(a);
    let y = encode_utf8(b);
    lex_less_total(byte_less(), x, y);
    lex_less_irreflexive(byte_less(), x);
    if name_less(a, b) && name_less(b, a) {
        lex_less_transitive(byte_less(), x, y, x);
    }
    encode_utf8_decode_utf8(a);
    encode_utf8_decode_utf8(b);
}

/// What is assigned where no name occurs twice.
proof fn lemma_assigned(list: Seq<(Seq<char>, Seq<char>)>)
    requires
        names_ascend(list),
    ensures
        forall|i: int|
            0 <= i < list.len() ==> assigned(list).dom().contains((#[trigger] list[i]).0)
                && assigned(list)[list[i].0] == list[i].1,
        forall|n: Seq<char>| #[trigger]
            assigned(list).dom().contains(n) ==> exists|i: int|
                0 <= i < list.len() && (#[trigger] list[i]).0 == n,
    decreases list.len(),
{
    if list.len() > 0 {
        let rest = list.drop_last();
        let last = list.last();
        lemma_assigned(rest);
        assert forall|i: int| 0 <= i < list.len() implies assigned(list).dom().contains(
            (#[trigger] list[i]).0,
        ) && assigned(list)[list[i].0] == list[i].1 by {
            if i < rest.len() {
                assert(rest[i] == list[i]);
                lemma_name_order(list[i].0, last.0);
            }
        }
        assert forall|n: Seq<char>| #[trigger]
            assigned(list).dom().contains(n) implies exists|i: int|
            0 <= i < list.len() && (#[trigger] list[i]).0 == n by {
            if n == last.0 {
                assert(list[list.len() - 1].0 == n);
            } else {
                assert(assigned(rest).dom().contains(n));
                let i = choose|i: int| 0 <= i < rest.len() && (#[trigger] rest[i]).0 == n;
                assert(list[i] == rest[i]);
            }
        }
    }
}

/// Putting a variable at its place in a list in order, or over its earlier value, assigns it.
proof fn lemma_assigned_insert(
    before: Seq<(Seq<char>, Seq<char>)>,
    after: Seq<(Seq<char>, Seq<char>)>,
    at: int,
    n: Seq<char>,
    v: Seq<char>,
)
    requires
        names_ascend(before),
        names_ascend(after),
        0 <= at <= before.len(),
        after == before.insert(at, (n, v)) || (at < before.len() && before[at].0 == n && after
            == before.update(at, (n, v))),
    ensures
        assigned(after) == assigned(before).insert(n, v),
{
    lemma_assigned(before);
    lemma_assigned(after);
    let target = assigned(before).insert(n, v);
    let inserted = after.len() > before.len();
    assert(after[at] == (n, v));
    assert forall|k: Seq<char>| #[trigger] assigned(after).dom().contains(k) implies target.dom().contains(
        k,
    ) && assigned(after)[k] == target[k] by {
        let i = choose|i: int| 0 <= i < after.len() && (#[trigger] after[i]).0 == k;
        if i == at {
        } else {
            let j = if inserted && i > at {
                i - 1
            } else {
                i
            };
            assert(before[j] == after[i]);
            if i < at {
                lemma_name_order(after[i].0, after[at].0);
            } else {
                lemma_name_order(after[at].0, after[i].0);
            }
        }
    }
    assert forall|k: Seq<char>| #[trigger] target.dom().contains(k) implies assigned(
        after,
    ).dom().contains(k) by {
        if k == n {
            assert(after[at].0 == k);
        } else {
            let j = choose|j: int| 0 <= j < before.len() && (#[trigger] before[j]).0 == k;
            let i = if inserted && j >= at {
                j + 1
            } else {
                j
            };
            assert(after[i] == before[j]);
        }
    }
    assert(assigned(after) =~= target);
}

/// Environment variables, each with one value, in the order of names.
pub struct Environment {
    vars: Vec<EnvVar>,
}

impl View for Environment {
    type V = Map<Seq<char>, Seq<char>>;

    closed spec fn view(&self) -> Map<Seq<char>, Seq<char>> {
        assigned(var_views(self.vars@))
    }
}

impl Environment {
    /// Each variable occurs once, in the order of names.
    pub closed spec fn well_formed(&self) -> bool {
        names_ascend(var_views(self.vars@))
    }

    /// No variables.
    pub fn new() -> (r: Environment)
        ensures
            r.well_formed(),
            r@ == Map::<Seq<char>, Seq<char>>::empty(),
    {
        Environment { vars: Vec::new() }
    }

    /// Sets a variable, over what it was.
    pub fn insert(&mut self, name: String, literal: String)
        requires
            old(self).well_formed(),
        ensures
            final(self).well_formed(),
            final(self)@ == old(self)@.insert(name@, literal@),
    {
        let ghost before = var_views(self.vars@);
        let ghost n = name@;
        let ghost v = literal@;
        let len = self.vars.len();
        let mut at: usize = 0;
        while at < len && bytes_less(
            self.vars[at].name.as_str().as_bytes(),
            name.as_str().as_bytes(),
        )
            invariant
                len == self.vars@.len(),
                before == var_views(self.vars@),
                n == name@,
                at <= len,
                forall|i: int| 0 <= i < at ==> name_less((#[trigger] before[i]).0, n),
            decreases len - at,
        {
            assert(name_less(before[at as int].0, n));
            at += 1;
        }
        let var = EnvVar { name, literal };
        assert(var@ == (n, v));
        if at < len && self.vars[at].name == var.name {
            self.vars.set(at, var);
            proof {
                let after = var_views(self.vars@);
                assert(after =~= before.update(at as int, (n, v)));
                assert forall|i: int, j: int| 0 <= i < j < after.len() implies name_less(
                    after[i].0,
                    after[j].0,
                ) by {
                    assert(name_less(before[i].0, before[j].0));
                }
                lemma_assigned_insert(before, after, at as int, n, v);
            }
        } else {
            self.vars.insert(at, var);
            proof {
                let after = var_views(self.vars@);
                assert(after =~= before.insert(at as int, (n, v)));
                if at < len {
                    lemma_name_order(n, before[at as int].0);
                }
                assert forall|i: int, j: int| 0 <= i < j < after.len() implies name_less(
                    after[i].0,
                    after[j].0,
                ) by {
                    if i < at && j < at {
                        assert(name_less(before[i].0, before[j].0));
                    } else if i < at && j == at {
                        assert(name_less(before[i].0, n));
                    } else if i < at {
                        assert(name_less(before[i].0, before[j - 1].0));
                    } else if i == at {
                        if j - 1 > at {
                            assert(name_less(before[at as int].0, before[j - 1].0));
                            lex_less_transitive(
                                byte_less(),
                                encode_utf8(n),
                                encode_utf8(before[at as int].0),
                                encode_utf8(before[j - 1].0),
                            );
                        }
                    } else {
                        assert(name_less(before[i - 1].0, before[j - 1].0));
                    }
                }
                lemma_assigned_insert(before, after, at as int, n, v);
            }
        }
    }

    /// The variables and their values, in the order of names.
    pub fn vars(&self) -> (r: &Vec<EnvVar>)
        requires
            self.well_formed(),
        ensures
            names_ascend(var_views(r@)),
            assigned(var_views(r@)) == self@,
    {
        &self.vars
    }
}

/// A variable has the value that it is set to last.
pub proof fn later_assignment_wins(list: Seq<(Seq<char>, Seq<char>)>, i: int)
    requires
        0 <= i < list.len(),
        forall|j: int| i < j < list.len() ==> (#[trigger] list[j]).0 != list[i].0,
    ensures
        assigned(list).dom().contains(list[i].0),
        assigned(list)[list[i].0] == list[i].1,
    decreases list.len(),
{
    if i < list.len() - 1 {
        let rest = list.drop_last();
        assert(rest[i] == list[i]);
        assert(list[list.len() - 1].0 != list[i].0);
        assert forall|j: int| i < j < rest.len() implies (#[trigger] rest[j]).0 != rest[i].0 by {
            assert(rest[j] == list[j]);
        }
        later_assignment_wins(rest, i);
    }
}

} // verus!
