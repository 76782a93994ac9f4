//! Stable sorting by keys.
#![verifier::loop_isolation(false)]

use vstd::prelude::*;

verus! {

/// Whether one key comes before another: at the first place where they
/// differ the number is smaller, or the key ends there.
pub open spec fn key_less(a: Seq<u64>, b: Seq<u64>) -> bool
    decreases a.len(),
{
    if b.len() == 0 {
        false
    } else if a.len() == 0 {
        true
    } else if a[0] == b[0] {
        key_less(a.skip(1), b.skip(1))
    } else {
        a[0] < b[0]
    }
}

/// Whether one key comes before another in the given direction.
pub open spec fn precedes(a: Seq<u64>, b: Seq<u64>, descending: bool) -> bool {
    if descending {
        key_less(b, a)
    } else {
        key_less(a, b)
    }
}

/// The key of a text, which sorts by characters.
pub open spec fn text_key(s: Seq<char>) -> Seq<u64> {
    s.map_values(|c: char| c as u64)
}

/// The key of a text.
pub fn key_of_text(text: &str) -> (r: Vec<u64>)
    ensures
        r@ == text_key(text@),
{
    let chars = crate::text::to_chars(text);
    let mut key: Vec<u64> = Vec::new();
    let mut i: usize = 0;
    assert(key@ =~= text_key(chars@.take(0)));
    while i < chars.len()
        invariant
            i <= chars.len(),
            key@ == text_key(chars@.take(i as int)),
        decreases chars.len() - i,
    {
        key.push(chars[i] as u64);
        i += 1;
        assert(key@ =~= text_key(chars@.take(i as int)));
    }
    assert(chars@.take(i as int) =~= chars@);
    key
}

fn is_less(a: &Vec<u64>, b: &Vec<u64>) -> (r: bool)
    ensures
        r == key_less(a@, b@),
{
    let mut i: usize = 0;
    assert(a@.skip(0) =~= a@);
    assert(b@.skip(0) =~= b@);
    while i < a.len() && i < b.len() && a[i] == b[i]
        invariant
            i <= a.len(),
            i <= b.len(),
            key_less(a@.skip(i as int), b@.skip(i as int)) == key_less(a@, b@),
        decreases a.len() - i,
    {
        assert(a@.skip(i as int).skip(1) =~= a@.skip(i + 1));
        assert(b@.skip(i as int).skip(1) =~= b@.skip(i + 1));
        i += 1;
    }
    if i == b.len() {
        false
    } else if i == a.len() {
        true
    } else {
        a[i] < b[i]
    }
}

fn comes_first(a: &Vec<u64>, b: &Vec<u64>, descending: bool) -> (r: bool)
    ensures
        r == precedes(a@, b@, descending),
{
    if descending {
        is_less(b, a)
    } else {
        is_less(a, b)
    }
}

/// Position `k` put into an order, behind all that it does not precede.
pub open spec fn with_position(
    order: Seq<int>,
    keys: Seq<Seq<u64>>,
    k: int,
    descending: bool,
) -> Seq<int>
    decreases order.len(),
{
    if order.len() == 0 || !precedes(keys[k], keys[order.last()], descending) {
        order.push(k)
    } else {
        with_position(order.drop_last(), keys, k, descending).push(order.last())
    }
}

/// The first `n` positions in the order of their keys, those with equal keys
/// in their old order.
pub open spec fn order_of_first(keys: Seq<Seq<u64>>, n: nat, descending: bool) -> Seq<int>
    decreases n,
{
    if n == 0 {
        Seq::empty()
    } else {
        with_position(order_of_first(keys, (n - 1) as nat, descending), keys, n - 1, descending)
    }
}

/// The positions of the keys in the order of the keys, those with equal keys
/// in their old order.
pub open spec fn order_of(keys: Seq<Seq<u64>>, descending: bool) -> Seq<int> {
    order_of_first(keys, keys.len(), descending)
}

/// Positions as machine numbers.
pub open spec fn positions(order: Seq<usize>) -> Seq<int> {
    order.map_values(|i: usize| i as int)
}

proof fn lemma_with_position(
    order: Seq<int>,
    keys: Seq<Seq<u64>>,
    k: int,
    descending: bool,
    p: int,
)
    requires
        0 <= p <= order.len(),
        forall|j: int|
            p <= j < order.len() ==> precedes(keys[k], keys[#[trigger] order[j]], descending),
        p > 0 ==> !precedes(keys[k], keys[order[p - 1]], descending),
    ensures
        with_position(order, keys, k, descending) == order.insert(p, k),
    decreases order.len(),
{
    if p == order.len() {
        if order.len() > 0 {
            assert(order.last() == order[p - 1]);
        }
        assert(order.push(k) =~= order.insert(p, k));
    } else {
        assert(order.last() == order[order.len() - 1]);
        lemma_with_position(order.drop_last(), keys, k, descending, p);
        assert(order.drop_last().insert(p, k).push(order.last()) =~= order.insert(p, k));
    }
}

/// The positions of the keys in the order of the keys.
pub fn sort_positions(keys: &Vec<Vec<u64>>, descending: bool) -> (r: Vec<usize>)
    ensures
        positions(r@) == order_of(keys.deep_view(), descending),
        forall|i: int| 0 <= i < r.len() ==> #[trigger] r[i] < keys.len(),
        r.len() == keys.len(),
{
    let ghost view = keys.deep_view();
    let mut order: Vec<usize> = Vec::new();
    let mut k: usize = 0;
    assert(positions(order@) =~= Seq::<int>::empty());
    while k < keys.len()
        invariant
            k <= keys.len(),
            order.len() == k,
            forall|i: int| 0 <= i < k ==> #[trigger] order[i] < k,
            positions(order@) == order_of_first(view, k as nat, descending),
        decreases keys.len() - k,
    {
        let ghost before = positions(order@);
        assert(view[k as int] =~= keys[k as int]@);
        let mut p: usize = k;
        while p > 0 && comes_first(&keys[k], &keys[order[p - 1]], descending)
            invariant
                p <= k,
                k < keys.len(),
                order.len() == k,
                forall|i: int| 0 <= i < k ==> #[trigger] order[i] < k,
                forall|j: int|
                    p <= j < k ==> precedes(
                        view[k as int],
                        view[#[trigger] before[j]],
                        descending,
                    ),
            decreases p,
        {
            assert(view[before[p - 1]] =~= keys[order[p - 1] as int]@);
            p -= 1;
        }
        proof {
            if p > 0 {
                assert(view[before[p - 1]] =~= keys[order[p - 1] as int]@);
            }
            lemma_with_position(before, view, k as int, descending, p as int);
        }
        let ghost old_order = order@;
        order.insert(p, k);
        assert(positions(order@) =~= before.insert(p as int, k as int));
        assert forall|i: int| 0 <= i < k + 1 implies #[trigger] order[i] < k + 1 by {
            if i < p {
                assert(order[i] == old_order[i]);
            } else if i > p {
                assert(order[i] == old_order[i - 1]);
            }
        }
        k += 1;
    }
    order
}

// Laws.

pub proof fn lemma_less_irreflexive(a: Seq<u64>)
    ensures
        !key_less(a, a),
    decreases a.len(),
{
    if a.len() > 0 {
        lemma_less_irreflexive(a.skip(1));
    }
}

pub proof fn lemma_less_total(a: Seq<u64>, b: Seq<u64>)
    ensures
        key_less(a, b) || key_less(b, a) || a == b,
    decreases a.len(),
{
    if a.len() > 0 && b.len() > 0 && a[0] == b[0] {
        lemma_less_total(a.skip(1), b.skip(1));
        if a.skip(1) == b.skip(1) {
            assert(a =~= seq![a[0]] + a.skip(1));
            assert(b =~= seq![b[0]] + b.skip(1));
        }
    } else if a.len() == 0 && b.len() == 0 {
        assert(a =~= b);
    }
}

pub proof fn lemma_less_transitive(a: Seq<u64>, b: Seq<u64>, c: Seq<u64>)
    requires
        key_less(a, b),
        key_less(b, c),
    ensures
        key_less(a, c),
    decreases a.len(),
{
    if a.len() > 0 {
        if a[0] == b[0] && b[0] == c[0] {
            lemma_less_transitive(a.skip(1), b.skip(1), c.skip(1));
        }
    }
}

/// If `a` does not come after `b`, nor `b` after `c`, then `a` does not come
/// after `c`.
pub proof fn lemma_order_transitive(a: Seq<u64>, b: Seq<u64>, c: Seq<u64>, descending: bool)
    requires
        !precedes(b, a, descending),
        !precedes(c, b, descending),
    ensures
        !precedes(c, a, descending),
{
    lemma_less_total(a, b);
    lemma_less_total(b, c);
    lemma_less_irreflexive(a);
    lemma_less_irreflexive(c);
    if precedes(c, a, descending) {
        if descending {
            if a == b {
            } else if b == c {
            } else {
                lemma_less_transitive(c, b, a);
                lemma_less_transitive(a, c, a);
            }
        } else {
            if a == b {
            } else if b == c {
            } else {
                lemma_less_transitive(a, b, c);
                lemma_less_transitive(c, a, c);
            }
        }
    }
}

proof fn lemma_asymmetric(a: Seq<u64>, b: Seq<u64>, descending: bool)
    requires
        precedes(a, b, descending),
    ensures
        !precedes(b, a, descending),
{
    if precedes(b, a, descending) {
        lemma_less_irreflexive(a);
        if descending {
            lemma_less_transitive(a, b, a);
        } else {
            lemma_less_transitive(a, b, a);
        }
    }
}

/// Whether an order lists the first `n` positions, each once, with the keys
/// in order and positions with equal keys in their old order.
pub open spec fn orders(order: Seq<int>, keys: Seq<Seq<u64>>, n: int, descending: bool) -> bool {
    &&& order.len() == n
    &&& order.no_duplicates()
    &&& forall|i: int| 0 <= i < order.len() ==> 0 <= #[trigger] order[i] < n
    &&& forall|i: int, j: int|
        0 <= i < j < order.len() ==> !precedes(
            keys[#[trigger] order[j]],
            keys[#[trigger] order[i]],
            descending,
        ) && (precedes(keys[order[i]], keys[order[j]], descending) || order[i] < order[j])
}

proof fn lemma_with_position_orders(
    order: Seq<int>,
    keys: Seq<Seq<u64>>,
    k: int,
    descending: bool,
)
    requires
        orders(order, keys, k, descending),
        0 <= k < keys.len(),
    ensures
        orders(with_position(order, keys, k, descending), keys, k + 1, descending),
{
    let p = lemma_find_place(order, keys, k, descending, order.len() as int);
    lemma_with_position(order, keys, k, descending, p);
    let new = order.insert(p, k);
    assert forall|i: int| 0 <= i < new.len() implies 0 <= #[trigger] new[i] < k + 1 by {
        if i < p {
            assert(new[i] == order[i]);
        } else if i > p {
            assert(new[i] == order[i - 1]);
        }
    }
    assert forall|i: int, j: int| 0 <= i < j < new.len() implies new[i] != new[j] by {
        if i != p && j != p {
            let a = if i < p { i } else { i - 1 };
            let b = if j < p { j } else { j - 1 };
            assert(new[i] == order[a] && new[j] == order[b]);
        } else if i == p {
            assert(new[j] == order[j - 1]);
        } else {
            assert(new[i] == order[i]);
        }
    }
    assert forall|i: int, j: int| 0 <= i < j < new.len() implies !precedes(
        keys[#[trigger] new[j]],
        keys[#[trigger] new[i]],
        descending,
    ) && (precedes(keys[new[i]], keys[new[j]], descending) || new[i] < new[j]) by {
        if i == p {
            // The new position precedes all behind it.
            assert(new[j] == order[j - 1]);
            assert(precedes(keys[k], keys[order[j - 1]], descending));
            lemma_asymmetric(keys[k], keys[order[j - 1]], descending);
        } else if j == p {
            // It precedes none before it, and is the largest.
            assert(new[i] == order[i]);
            if i < p - 1 {
                assert(!precedes(keys[order[p - 1]], keys[order[i]], descending));
                lemma_order_transitive(keys[order[i]], keys[order[p - 1]], keys[k], descending);
            }
        } else {
            let a = if i < p { i } else { i - 1 };
            let b = if j < p { j } else { j - 1 };
            assert(new[i] == order[a] && new[j] == order[b]);
        }
    }
}

proof fn lemma_find_place(
    order: Seq<int>,
    keys: Seq<Seq<u64>>,
    k: int,
    descending: bool,
    from: int,
) -> (p: int)
    requires
        0 <= from <= order.len(),
        forall|j: int|
            from <= j < order.len() ==> precedes(keys[k], keys[#[trigger] order[j]], descending),
    ensures
        0 <= p <= order.len(),
        forall|j: int|
            p <= j < order.len() ==> precedes(keys[k], keys[#[trigger] order[j]], descending),
        p > 0 ==> !precedes(keys[k], keys[order[p - 1]], descending),
    decreases from,
{
    if from > 0 && precedes(keys[k], keys[order[from - 1]], descending) {
        lemma_find_place(order, keys, k, descending, from - 1)
    } else {
        from
    }
}

proof fn lemma_orders(keys: Seq<Seq<u64>>, n: nat, descending: bool)
    requires
        n <= keys.len(),
    ensures
        orders(order_of_first(keys, n, descending), keys, n as int, descending),
    decreases n,
{
    if n > 0 {
        lemma_orders(keys, (n - 1) as nat, descending);
        lemma_with_position_orders(
            order_of_first(keys, (n - 1) as nat, descending),
            keys,
            n - 1,
            descending,
        );
    }
}

/// Sorting lists every position once, puts no key behind one that comes
/// after it, and keeps the old order where keys are equal.
pub proof fn law_sorting(keys: Seq<Seq<u64>>, descending: bool)
    ensures
        orders(order_of(keys, descending), keys, keys.len() as int, descending),
{
    lemma_orders(keys, keys.len(), descending);
}

} // verus!
