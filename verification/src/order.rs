//! Stable ordering by a key.

use vstd::prelude::*;

verus! {

/// Whether item `i` comes before item `j` when the items are put in
/// ascending order of their keys, items with one key staying as they were.
pub open spec fn comes_before(keys: Seq<int>, i: int, j: int) -> bool {
    keys[i] < keys[j] || (keys[i] == keys[j] && i < j)
}

/// Whether `order` lists the places `0..keys.len()`, each once, in
/// ascending order of their keys and, among equal keys, of the places
/// themselves.
pub open spec fn is_stable_order(keys: Seq<int>, order: Seq<usize>) -> bool {
    &&& order.len() == keys.len()
    &&& forall|a: int| 0 <= a < order.len() ==> #[trigger] order[a] < keys.len()
    &&& forall|a: int, b: int|
        0 <= a < b < order.len() ==> comes_before(
            keys,
            #[trigger] order[a] as int,
            #[trigger] order[b] as int,
        )
    &&& forall|i: int| 0 <= i < keys.len() ==> order.contains(#[trigger] (i as usize))
}

/// There is one stable order only.
pub proof fn stable_order_is_unique(keys: Seq<int>, first: Seq<usize>, second: Seq<usize>)
    requires
        is_stable_order(keys, first),
        is_stable_order(keys, second),
    ensures
        first == second,
{
    assert forall|a: int| 0 <= a < first.len() implies first[a] == second[a] by {
        orders_agree(keys, first, second, a);
    }
    assert(first =~= second);
}

proof fn orders_agree(keys: Seq<int>, first: Seq<usize>, second: Seq<usize>, a: int)
    requires
        is_stable_order(keys, first),
        is_stable_order(keys, second),
        0 <= a < first.len(),
    ensures
        first[a] == second[a],
    decreases a,
{
    if a > 0 {
        orders_agree(keys, first, second, a - 1);
    }
    assert forall|c: int| 0 <= c < a implies first[c] == second[c] by {
        orders_agree(keys, first, second, c);
    }
    let x = first[a];
    let y = second[a];
    if x != y {
        assert(second.contains(x as int as usize));
        let b = choose|b: int| 0 <= b < second.len() && second[b] == x;
        assert(first.contains(y as int as usize));
        let d = choose|d: int| 0 <= d < first.len() && first[d] == y;
        if b < a {
            assert(first[b] == x);
        }
        if d < a {
            assert(second[d] == y);
        }
        assert(comes_before(keys, second[a] as int, second[b] as int));
        assert(comes_before(keys, first[a] as int, first[d] as int));
    }
}

/// The keys of a list as integers.
pub open spec fn key_values(keys: Seq<i128>) -> Seq<int> {
    Seq::new(keys.len(), |k: int| keys[k] as int)
}

/// The places `0..keys.len()` in ascending order of their keys; places with
/// one key keep their order.
pub fn stable_order(keys: &Vec<i128>) -> (order: Vec<usize>)
    ensures
        is_stable_order(key_values(keys@), order@),
{
    let ghost values = key_values(keys@);
    let mut order: Vec<usize> = Vec::new();
    let mut i: usize = 0;
    while i < keys.len()
        invariant
            i <= keys.len(),
            order.len() == i,
            forall|a: int| 0 <= a < order.len() ==> #[trigger] order@[a] < i,
            forall|a: int, b: int|
                0 <= a < b < order.len() ==> comes_before(
                    values,
                    #[trigger] order@[a] as int,
                    #[trigger] order@[b] as int,
                ),
            forall|x: int| 0 <= x < i ==> order@.contains(#[trigger] (x as usize)),
            values == key_values(keys@),
        decreases keys.len() - i,
    {
        let mut pos: usize = 0;
        while pos < order.len() && keys[order[pos]] <= keys[i]
            invariant
                i < keys.len(),
                order.len() == i,
                pos <= order.len(),
                values == key_values(keys@),
                forall|a: int| 0 <= a < order.len() ==> #[trigger] order@[a] < i,
                forall|a: int|
                    0 <= a < pos ==> values[#[trigger] order@[a] as int] <= values[i as int],
            decreases order.len() - pos,
        {
            pos = pos + 1;
        }
        let ghost before = order@;
        order.insert(pos, i);
        proof {
            let after = order@;
            assert(after.len() == i + 1);
            assert(after[pos as int] == i);
            assert forall|a: int| 0 <= a < pos implies after[a] == before[a] by {}
            assert forall|a: int| pos < a < after.len() implies after[a] == before[a - 1] by {}
            assert forall|a: int, b: int| 0 <= a < b < after.len() implies comes_before(
                values,
                #[trigger] after[a] as int,
                #[trigger] after[b] as int,
            ) by {
                if b < pos {
                    assert(comes_before(values, before[a] as int, before[b] as int));
                } else if b == pos {
                    assert(after[a] == before[a]);
                } else if a < pos {
                    assert(comes_before(values, before[a] as int, before[b - 1] as int));
                } else if a == pos {
                    if pos < b - 1 {
                        let first = before[pos as int] as int;
                        assert(comes_before(values, first, before[b - 1] as int));
                    }
                } else {
                    assert(comes_before(values, before[a - 1] as int, before[b - 1] as int));
                }
            }
            assert forall|x: int| 0 <= x < i + 1 implies after.contains(
                #[trigger] (x as usize),
            ) by {
                if x < i {
                    assert(before.contains(x as usize));
                    let a = choose|a: int| 0 <= a < before.len() && before[a] == x as usize;
                    if a < pos {
                        assert(after[a] == x as usize);
                    } else {
                        assert(after[a + 1] == x as usize);
                    }
                } else {
                    assert(after[pos as int] == x as usize);
                }
            }
        }
        i = i + 1;
    }
    order
}

} // verus!
