//! The order in which tasks are listed and tried: most recently updated
//! first, and tasks updated at the same second in the order they were found.
use vstd::prelude::*;

verus! {

/// Whether item `x` comes before item `y` when items are ordered by `keys`,
/// largest key first, ties broken by position.
pub open spec fn comes_before(keys: Seq<i64>, x: int, y: int) -> bool {
    keys[x] > keys[y] || (keys[x] == keys[y] && x < y)
}

/// Whether `r` lists the positions of `keys` largest key first, as a stable
/// sort by descending key does.
pub open spec fn is_newest_first(keys: Seq<i64>, r: Seq<usize>) -> bool {
    &&& r.len() == keys.len()
    &&& forall|a: int| 0 <= a < r.len() ==> #[trigger] r[a] < keys.len()
    &&& forall|a: int, b: int| 0 <= a < b < r.len() ==> comes_before(keys, #[trigger] r[a] as int, #[trigger] r[b] as int)
}

/// The positions of `keys`, largest key first; equal keys keep their order.
pub fn newest_first(keys: &Vec<i64>) -> (r: Vec<usize>)
    ensures
        is_newest_first(keys@, r@),
{
    let mut r: Vec<usize> = Vec::new();
    let mut i: usize = 0;
    while i < keys.len()
        invariant
            i <= keys.len(),
            r.len() == i,
            forall|a: int| 0 <= a < r.len() ==> #[trigger] r[a] < i,
            forall|a: int, b: int|
                0 <= a < b < r.len() ==> comes_before(keys@, #[trigger] r[a] as int, #[trigger] r[b] as int),
        decreases keys.len() - i,
    {
        let k = keys[i];
        let mut p: usize = 0;
        while p < r.len() && keys[r[p]] >= k
            invariant
                p <= r.len(),
                r.len() == i,
                i < keys.len(),
                k == keys@[i as int],
                forall|a: int| 0 <= a < r.len() ==> #[trigger] r[a] < i,
                forall|a: int| 0 <= a < p ==> keys@[#[trigger] r[a] as int] >= k,
            decreases r.len() - p,
        {
            p = p + 1;
        }
        let ghost old_r = r@;
        proof {
            assert forall|a: int| p <= a < old_r.len() implies keys@[#[trigger] old_r[a] as int] < k by {
                if a > p {
                    assert(comes_before(keys@, old_r[p as int] as int, old_r[a] as int));
                }
            }
        }
        r.insert(p, i);
        proof {
            assert forall|a: int, b: int| 0 <= a < b < r.len() implies comes_before(
                keys@,
                #[trigger] r[a] as int,
                #[trigger] r[b] as int,
            ) by {
                if a < p && b < p {
                    assert(r[a] == old_r[a] && r[b] == old_r[b]);
                } else if a < p && b == p {
                    assert(r[a] == old_r[a]);
                    assert(keys@[old_r[a] as int] >= k);
                } else if a < p {
                    assert(r[a] == old_r[a] && r[b] == old_r[b - 1]);
                } else if a == p {
                    assert(r[b] == old_r[b - 1]);
                    assert(keys@[old_r[b - 1] as int] < k);
                } else {
                    assert(r[a] == old_r[a - 1] && r[b] == old_r[b - 1]);
                }
            }
            assert forall|a: int| 0 <= a < r.len() implies #[trigger] r[a] < i + 1 by {
                if a < p {
                    assert(r[a] == old_r[a]);
                } else if a > p {
                    assert(r[a] == old_r[a - 1]);
                }
            }
        }
        i = i + 1;
    }
    r
}

/// The listing order is fully determined: two orders of the same keys that
/// both list largest key first, ties by position, are the same.
pub proof fn lemma_newest_first_unique(keys: Seq<i64>, r1: Seq<usize>, r2: Seq<usize>)
    requires
        is_newest_first(keys, r1),
        is_newest_first(keys, r2),
    ensures
        r1 == r2,
{
    lemma_order_is_permutation(keys, r1);
    lemma_order_is_permutation(keys, r2);
    assert forall|a: int| 0 <= a < r1.len() implies r1[a] == r2[a] by {
        lemma_position_is_rank(keys, r1, a);
        lemma_position_is_rank(keys, r2, a);
        // both r1[a] and r2[a] are the element with exactly `a` elements before it
        if r1[a] != r2[a] {
            let x = r1[a] as int;
            let y = r2[a] as int;
            if comes_before(keys, x, y) {
                lemma_rank_monotone(keys, x, y);
            } else {
                lemma_rank_monotone(keys, y, x);
            }
        }
    }
    assert(r1 =~= r2);
}

/// The number of positions that come before position `x`.
pub open spec fn rank(keys: Seq<i64>, x: int) -> nat {
    Set::new(|y: int| 0 <= y < keys.len() && comes_before(keys, y, x)).len()
}

proof fn lemma_order_is_permutation(keys: Seq<i64>, r: Seq<usize>)
    requires
        is_newest_first(keys, r),
    ensures
        forall|x: int| 0 <= x < keys.len() ==> #[trigger] is_listed(r, x),
{
    let img = Set::new(|x: int| exists|a: int| 0 <= a < r.len() && r[a] as int == x);
    let all = Set::new(|x: int| 0 <= x < keys.len());
    lemma_image_len(keys, r, r.len() as int);
    assert(img =~= image_upto(r, r.len() as int));
    assert(img.subset_of(all));
    lemma_range_set(keys.len() as int);
    assert(all =~= range_set(keys.len() as int));
    vstd::set_lib::lemma_subset_equality(img, all);
    assert forall|x: int| 0 <= x < keys.len() implies #[trigger] is_listed(r, x) by {
        assert(all.contains(x));
        assert(img.contains(x));
    }
}

/// Whether position `x` occurs in `r`.
pub open spec fn is_listed(r: Seq<usize>, x: int) -> bool {
    exists|a: int| 0 <= a < r.len() && (#[trigger] r[a]) as int == x
}

pub open spec fn image_upto(r: Seq<usize>, n: int) -> Set<int> {
    Set::new(|x: int| exists|a: int| 0 <= a < n && r[a] as int == x)
}

pub open spec fn range_set(n: int) -> Set<int> {
    Set::new(|x: int| 0 <= x < n)
}

proof fn lemma_range_set(n: int)
    requires
        n >= 0,
    ensures
        range_set(n).finite(),
        range_set(n).len() == n,
    decreases n,
{
    if n == 0 {
        assert(range_set(0) =~= Set::empty());
    } else {
        lemma_range_set(n - 1);
        assert(range_set(n) =~= range_set(n - 1).insert(n - 1));
    }
}

proof fn lemma_image_len(keys: Seq<i64>, r: Seq<usize>, n: int)
    requires
        is_newest_first(keys, r),
        0 <= n <= r.len(),
    ensures
        image_upto(r, n).finite(),
        image_upto(r, n).len() == n,
    decreases n,
{
    if n == 0 {
        assert(image_upto(r, 0) =~= Set::empty());
    } else {
        lemma_image_len(keys, r, n - 1);
        assert(image_upto(r, n) =~= image_upto(r, n - 1).insert(r[n - 1] as int));
        if image_upto(r, n - 1).contains(r[n - 1] as int) {
            let a = choose|a: int| 0 <= a < n - 1 && (#[trigger] r[a]) as int == r[n - 1] as int;
            assert(comes_before(keys, r[a] as int, r[n - 1] as int));
        }
    }
}

/// In an order that lists largest key first, the item at position `a` has
/// exactly `a` items before it.
proof fn lemma_position_is_rank(keys: Seq<i64>, r: Seq<usize>, a: int)
    requires
        is_newest_first(keys, r),
        0 <= a < r.len(),
        forall|x: int| 0 <= x < keys.len() ==> #[trigger] is_listed(r, x),
    ensures
        rank(keys, r[a] as int) == a,
{
    let x = r[a] as int;
    let before = Set::new(|y: int| 0 <= y < keys.len() && comes_before(keys, y, x));
    assert(before =~= image_upto(r, a)) by {
        assert forall|y: int| before.contains(y) implies image_upto(r, a).contains(y) by {
            assert(is_listed(r, y));
            let b = choose|b: int| 0 <= b < r.len() && (#[trigger] r[b]) as int == y;
            if b >= a {
                if b == a {
                    assert(!comes_before(keys, x, x));
                } else {
                    assert(comes_before(keys, r[a] as int, r[b] as int));
                }
            }
        }
        assert forall|y: int| image_upto(r, a).contains(y) implies before.contains(y) by {
            let b = choose|b: int| 0 <= b < a && (#[trigger] r[b]) as int == y;
            assert(comes_before(keys, r[b] as int, r[a] as int));
        }
    }
    lemma_image_len(keys, r, a);
}

/// An item that comes before another has fewer items before it.
proof fn lemma_rank_monotone(keys: Seq<i64>, x: int, y: int)
    requires
        0 <= x < keys.len(),
        0 <= y < keys.len(),
        comes_before(keys, x, y),
    ensures
        rank(keys, x) < rank(keys, y),
{
    let bx = Set::new(|z: int| 0 <= z < keys.len() && comes_before(keys, z, x));
    let by_ = Set::new(|z: int| 0 <= z < keys.len() && comes_before(keys, z, y));
    lemma_range_set(keys.len() as int);
    assert(bx.subset_of(range_set(keys.len() as int)));
    assert(by_.subset_of(range_set(keys.len() as int)));
    vstd::set_lib::lemma_len_subset(bx, range_set(keys.len() as int));
    vstd::set_lib::lemma_len_subset(by_, range_set(keys.len() as int));
    assert(bx.insert(x).subset_of(by_));
    assert(!bx.contains(x));
    vstd::set_lib::lemma_len_subset(bx.insert(x), by_);
}

} // verus!
