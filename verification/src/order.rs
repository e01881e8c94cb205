//! The order in which stacks are processed: by name, and among equal names by position.

use crate::names::{agree_below, lex_le, name_bytes, name_le};
use crate::state::{Stack, StackView};
use vstd::prelude::*;

verus! {

/// The names of the stacks, as bytes.
pub open spec fn stack_names(stacks: Seq<StackView>) -> Seq<Seq<u8>> {
    Seq::new(stacks.len(), |i: int| name_bytes(stacks[i].name))
}

/// The stack at position `x` is processed before the one at position `y`: its name sorts
/// first, or the names are equal and it stands first.
pub open spec fn comes_before(names: Seq<Seq<u8>>, x: int, y: int) -> bool {
    &&& lex_le(names[x], names[y])
    &&& names[x] == names[y] ==> x < y
}

/// The position `x` is listed in `order`.
pub open spec fn occurs(order: Seq<usize>, x: int) -> bool {
    exists|k: int| 0 <= k < order.len() && #[trigger] order[k] == x
}

/// `order` lists every position of `names` exactly once, each before all that come after it.
pub open spec fn is_name_order(names: Seq<Seq<u8>>, order: Seq<usize>) -> bool {
    &&& order.len() == names.len()
    &&& forall|k: int| 0 <= k < order.len() ==> 0 <= #[trigger] order[k] < names.len()
    &&& forall|x: int| 0 <= x < names.len() ==> #[trigger] occurs(order, x)
    &&& forall|i: int, j: int|
        0 <= i < j < order.len() ==> comes_before(
            names,
            #[trigger] order[i] as int,
            #[trigger] order[j] as int,
        )
}

/// The order in which stacks with these names are processed.
pub open spec fn name_order(names: Seq<Seq<u8>>) -> Seq<usize> {
    choose|order: Seq<usize>| is_name_order(names, order)
}

/// Every name sorts no later than itself.
pub proof fn lemma_lex_le_reflexive(a: Seq<u8>)
    ensures
        lex_le(a, a),
{
    assert(agree_below(a, a, a.len() as int));
}

/// Two names that each sort no later than the other are the same name.
pub proof fn lemma_lex_le_antisymmetric(a: Seq<u8>, b: Seq<u8>)
    requires
        lex_le(a, b),
        lex_le(b, a),
    ensures
        a == b,
{
    // where the two first differ, each would have to hold the smaller byte
    let k1 = choose|k: int|
        0 <= k <= a.len() && k <= b.len() && #[trigger] agree_below(a, b, k) && (k == a.len() || (k
            < b.len() && a[k] < b[k]));
    assert(a =~= b);
}

/// A name that sorts no later than a second, which sorts no later than a third, sorts no
/// later than the third.
pub proof fn lemma_lex_le_transitive(a: Seq<u8>, b: Seq<u8>, c: Seq<u8>)
    requires
        lex_le(a, b),
        lex_le(b, c),
    ensures
        lex_le(a, c),
{
    let k1 = choose|k: int|
        0 <= k <= a.len() && k <= b.len() && #[trigger] agree_below(a, b, k) && (k == a.len() || (k
            < b.len() && a[k] < b[k]));
    let k2 = choose|k: int|
        0 <= k <= b.len() && k <= c.len() && #[trigger] agree_below(b, c, k) && (k == b.len() || (k
            < c.len() && b[k] < c[k]));
    let k = if k1 <= k2 {
        k1
    } else {
        k2
    };
    assert(agree_below(a, c, k));
}

/// Of two names one sorts no later than the other.
pub proof fn lemma_lex_le_total(a: Seq<u8>, b: Seq<u8>)
    ensures
        lex_le(a, b) || lex_le(b, a),
{
    lemma_total_from(a, b, 0);
}

/// Of two names that agree below `i` one sorts no later than the other.
proof fn lemma_total_from(a: Seq<u8>, b: Seq<u8>, i: int)
    requires
        0 <= i <= a.len(),
        i <= b.len(),
        agree_below(a, b, i),
    ensures
        lex_le(a, b) || lex_le(b, a),
    decreases a.len() - i,
{
    if i == a.len() {
        // a is a prefix of b
    } else if i == b.len() {
        // b is a prefix of a
        assert(agree_below(b, a, i));
    } else if a[i] < b[i] {
        // a holds the smaller byte where the two first differ
    } else if b[i] < a[i] {
        assert(agree_below(b, a, i));
    } else {
        lemma_total_from(a, b, i + 1);
    }
}

/// Of two different positions exactly one comes before the other.
pub proof fn lemma_comes_before_asymmetric(names: Seq<Seq<u8>>, x: int, y: int)
    requires
        comes_before(names, x, y),
    ensures
        !comes_before(names, y, x),
{
    if comes_before(names, y, x) {
        lemma_lex_le_antisymmetric(names[x], names[y]);
    }
}

/// There is only one order by name.
pub proof fn lemma_name_order_unique(names: Seq<Seq<u8>>, a: Seq<usize>, b: Seq<usize>)
    requires
        is_name_order(names, a),
        is_name_order(names, b),
    ensures
        a == b,
{
    assert forall|k: int| 0 <= k < a.len() implies a[k] == b[k] by {
        lemma_agree_up_to(names, a, b, k);
    }
}

/// Two orders of the same names agree at every position up to `k`.
proof fn lemma_agree_up_to(names: Seq<Seq<u8>>, a: Seq<usize>, b: Seq<usize>, k: int)
    requires
        is_name_order(names, a),
        is_name_order(names, b),
        0 <= k < a.len(),
    ensures
        forall|j: int| 0 <= j <= k ==> a[j] == b[j],
    decreases k,
{
    if k > 0 {
        lemma_agree_up_to(names, a, b, k - 1);
    }
    let x = a[k] as int;
    let y = b[k] as int;
    if x != y {
        assert(occurs(b, x));
        assert(occurs(a, y));
        lemma_comes_before_asymmetric(names, x, y);
    }
}

/// Every list of names that a machine can hold has an order.
pub proof fn lemma_name_order_exists(names: Seq<Seq<u8>>)
    requires
        names.len() <= usize::MAX,
    ensures
        is_name_order(names, name_order(names)),
{
    lemma_order_of_prefix(names, names.len() as int);
    assert(names.subrange(0, names.len() as int) =~= names);
}

/// The first `n` names have an order.
proof fn lemma_order_of_prefix(names: Seq<Seq<u8>>, n: int)
    requires
        0 <= n <= names.len(),
        names.len() <= usize::MAX,
    ensures
        exists|order: Seq<usize>| is_name_order(names.subrange(0, n), order),
    decreases n,
{
    if n == 0 {
        assert(is_name_order(names.subrange(0, 0), Seq::<usize>::empty()));
    } else {
        lemma_order_of_prefix(names, n - 1);
        let shorter = names.subrange(0, n - 1);
        let longer = names.subrange(0, n);
        let before = choose|order: Seq<usize>| is_name_order(shorter, order);
        let p = slot_for(longer, before, n - 1, before.len() as int);
        lemma_slot_for(longer, before, n - 1, before.len() as int);
        let order = before.insert(p, (n - 1) as usize);
        assert forall|a: int, b: int| 0 <= a < b < order.len() implies comes_before(
            longer,
            #[trigger] order[a] as int,
            #[trigger] order[b] as int,
        ) by {
            if a == p {
                let e = before[b - 1] as int;
                lemma_lex_le_total(longer[e], longer[n - 1]);
            }
        }
        assert forall|x: int| 0 <= x < longer.len() implies #[trigger] occurs(order, x) by {
            if x == n - 1 {
                assert(order[p] == x);
            } else {
                assert(occurs(before, x));
                let k0 = choose|k: int| 0 <= k < before.len() && #[trigger] before[k] == x;
                if k0 < p {
                    assert(order[k0] == x);
                } else {
                    assert(order[k0 + 1] == x);
                }
            }
        }
        assert(is_name_order(longer, order));
    }
}

/// Where the position `i` is put into an order of the positions before it: behind the last
/// of the first `upto` positions whose name sorts no later than its own.
spec fn slot_for(names: Seq<Seq<u8>>, order: Seq<usize>, i: int, upto: int) -> int
    decreases upto,
{
    if upto <= 0 {
        0
    } else if lex_le(names[order[upto - 1] as int], names[i]) {
        upto
    } else {
        slot_for(names, order, i, upto - 1)
    }
}

/// The positions before the slot sort no later than the new one, those from the slot on
/// sort later.
proof fn lemma_slot_for(names: Seq<Seq<u8>>, order: Seq<usize>, i: int, upto: int)
    requires
        0 <= upto <= order.len(),
        0 <= i < names.len(),
        forall|k: int| 0 <= k < order.len() ==> 0 <= #[trigger] order[k] < i,
        forall|a: int, b: int|
            0 <= a < b < order.len() ==> comes_before(
                names.subrange(0, i),
                #[trigger] order[a] as int,
                #[trigger] order[b] as int,
            ),
    ensures
        0 <= slot_for(names, order, i, upto) <= upto,
        forall|k: int|
            slot_for(names, order, i, upto) <= k < upto ==> !lex_le(
                names[#[trigger] order[k] as int],
                names[i],
            ),
        forall|k: int|
            0 <= k < slot_for(names, order, i, upto) ==> lex_le(
                names[#[trigger] order[k] as int],
                names[i],
            ),
    decreases upto,
{
    if upto > 0 {
        if lex_le(names[order[upto - 1] as int], names[i]) {
            assert forall|k: int| 0 <= k < upto implies lex_le(
                names[#[trigger] order[k] as int],
                names[i],
            ) by {
                if k < upto - 1 {
                    lemma_lex_le_transitive(
                        names[order[k] as int],
                        names[order[upto - 1] as int],
                        names[i],
                    );
                }
            }
        } else {
            lemma_slot_for(names, order, i, upto - 1);
        }
    }
}

/// The positions of the stacks in the order in which they are processed.
pub fn stacks_by_name(stacks: &Vec<Stack>) -> (order: Vec<usize>)
    ensures
        is_name_order(stack_names(stacks.deep_view()), order@),
        order@ == name_order(stack_names(stacks.deep_view())),
{
    let ghost names = stack_names(stacks.deep_view());
    let mut order: Vec<usize> = Vec::new();
    let mut i: usize = 0;
    while i < stacks.len()
        invariant
            i <= stacks.len(),
            names == stack_names(stacks.deep_view()),
            names.len() == stacks.len(),
            order.len() == i,
            forall|k: int| 0 <= k < order.len() ==> 0 <= #[trigger] order[k] < i,
            forall|x: int| 0 <= x < i ==> #[trigger] occurs(order@, x),
            forall|a: int, b: int|
                0 <= a < b < order.len() ==> comes_before(
                    names,
                    #[trigger] order[a] as int,
                    #[trigger] order[b] as int,
                ),
        decreases stacks.len() - i,
    {
        let mut p: usize = order.len();
        while p > 0 && !name_le(&stacks[order[p - 1]].name, &stacks[i].name)
            invariant
                p <= order.len(),
                i < stacks.len(),
                order.len() == i,
                names == stack_names(stacks.deep_view()),
                names.len() == stacks.len(),
                forall|k: int| 0 <= k < order.len() ==> 0 <= #[trigger] order[k] < i,
                forall|k: int|
                    p <= k < order.len() ==> !lex_le(
                        names[#[trigger] order[k] as int],
                        names[i as int],
                    ),
            decreases p,
        {
            p -= 1;
        }
        let ghost before = order@;
        order.insert(p, i);
        proof {
            assert forall|a: int, b: int| 0 <= a < b < order.len() implies comes_before(
                names,
                #[trigger] order[a] as int,
                #[trigger] order[b] as int,
            ) by {
                if b == p {
                    // order[a] stood before the slot: its name sorts no later than the new one
                    let last = before[p - 1] as int;
                    if a < p - 1 {
                        lemma_lex_le_transitive(
                            names[before[a] as int],
                            names[last],
                            names[i as int],
                        );
                    }
                } else if a == p {
                    let e = before[b - 1] as int;
                    lemma_lex_le_total(names[e], names[i as int]);
                }
            }
            assert forall|x: int| 0 <= x < i + 1 implies #[trigger] occurs(order@, x) by {
                if x == i {
                    assert(order[p as int] == x);
                } else {
                    assert(occurs(before, x));
                    let k0 = choose|k: int| 0 <= k < before.len() && #[trigger] before[k] == x;
                    if k0 < p {
                        assert(order[k0] == x);
                    } else {
                        assert(order[k0 + 1] == x);
                    }
                }
            }
        }
        i += 1;
    }
    proof {
        lemma_name_order_unique(names, order@, name_order(names));
    }
    order
}

} // verus!
