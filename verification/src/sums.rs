//! Sums over sequences, weighted by a function of the item.

use vstd::prelude::*;

verus! {

/// The sum of `f` over the items of `s`.
pub open spec fn total<T>(s: Seq<T>, f: spec_fn(T) -> int) -> int
    decreases s.len(),
{
    if s.len() == 0 {
        0
    } else {
        total(s.drop_last(), f) + f(s.last())
    }
}

/// A sequence of executable values, each seen through its view.
pub open spec fn views<T: View>(s: Seq<T>) -> Seq<T::V> {
    s.map_values(|x: T| x@)
}

/// Adding up from the first to the last stays within a signed 64-bit number at
/// every step.
pub open spec fn running_fits<T>(s: Seq<T>, f: spec_fn(T) -> int) -> bool {
    forall|k: int| 0 <= k <= s.len() ==> i64::MIN <= #[trigger] total(s.take(k), f) <= i64::MAX
}

pub proof fn total_push<T>(s: Seq<T>, x: T, f: spec_fn(T) -> int)
    ensures
        total(s.push(x), f) == total(s, f) + f(x),
{
    assert(s.push(x).drop_last() =~= s);
}

pub proof fn total_take<T>(s: Seq<T>, i: int, f: spec_fn(T) -> int)
    requires
        0 <= i < s.len(),
    ensures
        total(s.take(i + 1), f) == total(s.take(i), f) + f(s[i]),
{
    assert(s.take(i + 1) =~= s.take(i).push(s[i]));
    total_push(s.take(i), s[i], f);
}

pub proof fn total_concat<T>(a: Seq<T>, b: Seq<T>, f: spec_fn(T) -> int)
    ensures
        total(a + b, f) == total(a, f) + total(b, f),
    decreases b.len(),
{
    if b.len() == 0 {
        assert(a + b =~= a);
    } else {
        assert((a + b).drop_last() =~= a + b.drop_last());
        total_concat(a, b.drop_last(), f);
    }
}

pub proof fn total_same<T>(s: Seq<T>, f: spec_fn(T) -> int, g: spec_fn(T) -> int)
    requires
        forall|i: int| 0 <= i < s.len() ==> #[trigger] f(s[i]) == g(s[i]),
    ensures
        total(s, f) == total(s, g),
    decreases s.len(),
{
    if s.len() > 0 {
        assert(f(s[s.len() - 1]) == g(s[s.len() - 1]));
        assert forall|i: int| 0 <= i < s.drop_last().len() implies #[trigger] f(s.drop_last()[i])
            == g(s.drop_last()[i]) by {
            assert(f(s[i]) == g(s[i]));
        }
        total_same(s.drop_last(), f, g);
    }
}

pub proof fn total_at_most<T>(s: Seq<T>, f: spec_fn(T) -> int, g: spec_fn(T) -> int)
    requires
        forall|i: int| 0 <= i < s.len() ==> #[trigger] f(s[i]) <= g(s[i]),
    ensures
        total(s, f) <= total(s, g),
    decreases s.len(),
{
    if s.len() > 0 {
        assert(f(s[s.len() - 1]) <= g(s[s.len() - 1]));
        assert forall|i: int| 0 <= i < s.drop_last().len() implies #[trigger] f(s.drop_last()[i])
            <= g(s.drop_last()[i]) by {
            assert(f(s[i]) <= g(s[i]));
        }
        total_at_most(s.drop_last(), f, g);
    }
}

/// Where no item weighs less than nothing, no prefix weighs more than the whole.
pub proof fn total_prefix<T>(s: Seq<T>, i: int, f: spec_fn(T) -> int)
    requires
        0 <= i <= s.len(),
        forall|j: int| 0 <= j < s.len() ==> #[trigger] f(s[j]) >= 0,
    ensures
        0 <= total(s.take(i), f) <= total(s, f),
    decreases s.len(),
{
    if s.len() == 0 {
        assert(s.take(i) =~= s);
    } else {
        let front = s.drop_last();
        assert(f(s[s.len() - 1]) >= 0);
        assert forall|j: int| 0 <= j < front.len() implies #[trigger] f(front[j]) >= 0 by {
            assert(f(s[j]) >= 0);
        }
        if i == s.len() {
            assert(s.take(i) =~= s);
            total_prefix(front, front.len() as int, f);
            assert(front.take(front.len() as int) =~= front);
        } else {
            assert(s.take(i) =~= front.take(i));
            total_prefix(front, i, f);
        }
    }
}

pub proof fn total_update<T>(s: Seq<T>, i: int, x: T, f: spec_fn(T) -> int)
    requires
        0 <= i < s.len(),
    ensures
        total(s.update(i, x), f) == total(s, f) - f(s[i]) + f(x),
    decreases s.len(),
{
    if i == s.len() - 1 {
        assert(s.update(i, x).drop_last() =~= s.drop_last());
    } else {
        assert(s.update(i, x).drop_last() =~= s.drop_last().update(i, x));
        total_update(s.drop_last(), i, x, f);
    }
}

/// The items of `s` that `keep` holds of, each turned into another by `g`.
pub open spec fn picked<T, U>(s: Seq<T>, keep: spec_fn(T) -> bool, g: spec_fn(T) -> U) -> Seq<U>
    decreases s.len(),
{
    if s.len() == 0 {
        Seq::empty()
    } else if keep(s.last()) {
        picked(s.drop_last(), keep, g).push(g(s.last()))
    } else {
        picked(s.drop_last(), keep, g)
    }
}

pub proof fn picked_take<T, U>(s: Seq<T>, i: int, keep: spec_fn(T) -> bool, g: spec_fn(T) -> U)
    requires
        0 <= i < s.len(),
    ensures
        picked(s.take(i + 1), keep, g) == if keep(s[i]) {
            picked(s.take(i), keep, g).push(g(s[i]))
        } else {
            picked(s.take(i), keep, g)
        },
{
    assert(s.take(i + 1).drop_last() =~= s.take(i));
}

/// Each picked item comes from an item of `s`, and two picked items from two items.
pub proof fn picked_source<T, U>(
    s: Seq<T>,
    keep: spec_fn(T) -> bool,
    g: spec_fn(T) -> U,
    k: int,
) -> (i: int)
    requires
        0 <= k < picked(s, keep, g).len(),
    ensures
        0 <= i < s.len(),
        keep(s[i]),
        picked(s, keep, g)[k] == g(s[i]),
        picked(s.take(i), keep, g).len() == k,
    decreases s.len(),
{
    let front = picked(s.drop_last(), keep, g);
    if keep(s.last()) && k == front.len() {
        assert(s.take(s.len() - 1) =~= s.drop_last());
        s.len() - 1
    } else {
        let i = picked_source(s.drop_last(), keep, g, k);
        assert(s.drop_last().take(i) =~= s.take(i));
        i
    }
}

/// Of more items no fewer are picked.
pub proof fn picked_grows<T, U>(
    s: Seq<T>,
    keep: spec_fn(T) -> bool,
    g: spec_fn(T) -> U,
    a: int,
    b: int,
)
    requires
        0 <= a <= b <= s.len(),
    ensures
        picked(s.take(a), keep, g).len() <= picked(s.take(b), keep, g).len(),
    decreases b - a,
{
    if a < b {
        picked_grows(s, keep, g, a, b - 1);
        picked_take(s, b - 1, keep, g);
    }
}

/// An item of `s` that `keep` holds of is among those picked.
pub proof fn picked_target<T, U>(
    s: Seq<T>,
    keep: spec_fn(T) -> bool,
    g: spec_fn(T) -> U,
    i: int,
) -> (k: int)
    requires
        0 <= i < s.len(),
        keep(s[i]),
    ensures
        0 <= k < picked(s, keep, g).len(),
        picked(s, keep, g)[k] == g(s[i]),
    decreases s.len(),
{
    if i == s.len() - 1 {
        picked(s.drop_last(), keep, g).len() as int
    } else {
        picked_target(s.drop_last(), keep, g, i)
    }
}

/// What is picked of an item stands behind all that was picked before it.
pub proof fn picked_place<T, U>(s: Seq<T>, keep: spec_fn(T) -> bool, g: spec_fn(T) -> U, i: int)
    requires
        0 <= i < s.len(),
        keep(s[i]),
    ensures
        picked(s.take(i), keep, g).len() < picked(s, keep, g).len(),
        picked(s, keep, g)[picked(s.take(i), keep, g).len() as int] == g(s[i]),
    decreases s.len(),
{
    let front = s.drop_last();
    if i == s.len() - 1 {
        assert(s.take(i) =~= front);
    } else {
        picked_place(front, keep, g, i);
        assert(front.take(i) =~= s.take(i));
    }
}

/// As many are picked as `keep` holds of.
pub proof fn picked_count<T, U>(
    s: Seq<T>,
    keep: spec_fn(T) -> bool,
    g: spec_fn(T) -> U,
    one: spec_fn(T) -> int,
)
    requires
        forall|x: T|
            #[trigger] one(x) == (if keep(x) {
                1int
            } else {
                0
            }),
    ensures
        picked(s, keep, g).len() == total(s, one),
    decreases s.len(),
{
    if s.len() > 0 {
        picked_count(s.drop_last(), keep, g, one);
        assert(one(s.last()) >= 0);
    }
}

pub proof fn picked_total<T, U>(
    s: Seq<T>,
    keep: spec_fn(T) -> bool,
    g: spec_fn(T) -> U,
    h: spec_fn(U) -> int,
    f: spec_fn(T) -> int,
)
    requires
        forall|i: int|
            0 <= i < s.len() ==> #[trigger] f(s[i]) == (if keep(s[i]) {
                h(g(s[i]))
            } else {
                0
            }),
    ensures
        total(picked(s, keep, g), h) == total(s, f),
    decreases s.len(),
{
    if s.len() > 0 {
        let front = s.drop_last();
        assert forall|i: int| 0 <= i < front.len() implies #[trigger] f(front[i]) == (if keep(
            front[i],
        ) {
            h(g(front[i]))
        } else {
            0
        }) by {
            assert(f(s[i]) == f(front[i]));
        }
        picked_total(front, keep, g, h, f);
        assert(f(s[s.len() - 1]) == (if keep(s.last()) {
            h(g(s.last()))
        } else {
            0
        }));
        if keep(s.last()) {
            total_push(picked(front, keep, g), g(s.last()), h);
        }
    }
}

/// Where at most one item weighs anything, the sum is what it weighs.
pub proof fn total_only<T>(s: Seq<T>, i: int, f: spec_fn(T) -> int)
    requires
        0 <= i < s.len(),
        forall|j: int| 0 <= j < s.len() && j != i ==> #[trigger] f(s[j]) == 0,
    ensures
        total(s, f) == f(s[i]),
    decreases s.len(),
{
    let front = s.drop_last();
    let last = s.len() - 1;
    if i == last {
        assert forall|j: int| 0 <= j < front.len() implies #[trigger] f(front[j]) == 0 by {
            assert(f(s[j]) == 0);
        }
        total_zero(front, f);
    } else {
        assert(f(s[last]) == 0);
        assert forall|j: int| 0 <= j < front.len() && j != i implies #[trigger] f(front[j]) == 0 by {
            assert(f(s[j]) == 0);
        }
        total_only(front, i, f);
    }
}

pub proof fn total_zero<T>(s: Seq<T>, f: spec_fn(T) -> int)
    requires
        forall|j: int| 0 <= j < s.len() ==> #[trigger] f(s[j]) == 0,
    ensures
        total(s, f) == 0,
    decreases s.len(),
{
    if s.len() > 0 {
        assert(f(s[s.len() - 1]) == 0);
        assert forall|j: int| 0 <= j < s.drop_last().len() implies #[trigger] f(s.drop_last()[j])
            == 0 by {
            assert(f(s[j]) == 0);
        }
        total_zero(s.drop_last(), f);
    }
}

pub proof fn total_sum<T>(
    s: Seq<T>,
    f: spec_fn(T) -> int,
    g: spec_fn(T) -> int,
    h: spec_fn(T) -> int,
)
    requires
        forall|i: int| 0 <= i < s.len() ==> #[trigger] h(s[i]) == f(s[i]) + g(s[i]),
    ensures
        total(s, h) == total(s, f) + total(s, g),
    decreases s.len(),
{
    if s.len() > 0 {
        let front = s.drop_last();
        assert(h(s[s.len() - 1]) == f(s[s.len() - 1]) + g(s[s.len() - 1]));
        assert forall|i: int| 0 <= i < front.len() implies #[trigger] h(front[i]) == f(front[i])
            + g(front[i]) by {
            assert(h(s[i]) == f(s[i]) + g(s[i]));
        }
        total_sum(front, f, g, h);
    }
}

/// A sum is nothing over nothing, and one item more adds what it weighs.
pub proof fn a_total_grows_by_what_is_added<T>(s: Seq<T>, x: T, f: spec_fn(T) -> int)
    ensures
        total(Seq::<T>::empty(), f) == 0,
        total(s.push(x), f) == total(s, f) + f(x),
{
    total_push(s, x, f);
}

}
