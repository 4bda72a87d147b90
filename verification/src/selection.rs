//! The first few of the wanted positions in a given order.

use vstd::prelude::*;

verus! {

/// Whether `picks` are the first `limit` of the wanted positions below
/// `n` in the order `before`, or all of them where they are fewer.
pub open spec fn best(
    picks: Seq<int>,
    n: int,
    wanted: spec_fn(int) -> bool,
    before: spec_fn(int, int) -> bool,
    limit: int,
) -> bool {
    &&& picks.len() <= limit
    &&& forall|a: int, b: int|
        0 <= a < b < picks.len() ==> before(#[trigger] picks[a], #[trigger] picks[b])
    &&& forall|a: int|
        0 <= a < picks.len() ==> 0 <= #[trigger] picks[a] < n && wanted(picks[a])
    &&& forall|i: int|
        0 <= i < n && #[trigger] wanted(i) && !picks.contains(i) ==> picks.len() == limit
            && forall|a: int| 0 <= a < picks.len() ==> before(#[trigger] picks[a], i)
}

/// Whether `before` orders the positions below `n` strictly and
/// transitively.
pub open spec fn strict_order(before: spec_fn(int, int) -> bool, n: int) -> bool {
    &&& forall|a: int| 0 <= a < n ==> !#[trigger] before(a, a)
    &&& forall|a: int, b: int, c: int|
        0 <= a < n && 0 <= b < n && 0 <= c < n && #[trigger] before(a, b) && #[trigger] before(b, c)
            ==> before(a, c)
}

/// A position that is not wanted changes nothing.
pub proof fn best_skips(
    picks: Seq<int>,
    n: int,
    wanted: spec_fn(int) -> bool,
    before: spec_fn(int, int) -> bool,
    limit: int,
)
    requires
        best(picks, n, wanted, before, limit),
        n >= 0,
        !wanted(n),
    ensures
        best(picks, n + 1, wanted, before, limit),
{
}

/// A wanted position goes in at its place, and what then is beyond the
/// limit goes.
pub proof fn best_takes(
    picks: Seq<int>,
    n: int,
    wanted: spec_fn(int) -> bool,
    before: spec_fn(int, int) -> bool,
    limit: int,
    at: int,
)
    requires
        best(picks, n, wanted, before, limit),
        n >= 0,
        limit >= 1,
        wanted(n),
        strict_order(before, n + 1),
        0 <= at <= picks.len(),
        forall|a: int| 0 <= a < at ==> before(#[trigger] picks[a], n),
        forall|a: int| at <= a < picks.len() ==> before(n, #[trigger] picks[a]),
    ensures
        picks.len() < limit ==> best(picks.insert(at, n), n + 1, wanted, before, limit),
        picks.len() == limit ==> best(
            picks.insert(at, n).drop_last(),
            n + 1,
            wanted,
            before,
            limit,
        ),
{
    let full = picks.insert(at, n);
    assert forall|a: int| 0 <= a < full.len() implies full[a] == (if a < at {
        picks[a]
    } else if a == at {
        n
    } else {
        picks[a - 1]
    }) by {}
    assert forall|a: int, b: int| 0 <= a < b < full.len() implies before(
        #[trigger] full[a],
        #[trigger] full[b],
    ) by {
        if b < at {
            assert(before(picks[a], picks[b]));
        } else if b == at {
            assert(before(picks[a], n));
        } else {
            if a == at {
                assert(before(n, picks[b - 1]));
            } else {
                let x = if a < at {
                    a
                } else {
                    a - 1
                };
                assert(before(picks[x], picks[b - 1]));
            }
        }
    }
    assert forall|a: int| 0 <= a < full.len() implies 0 <= #[trigger] full[a] < n + 1 && wanted(
        full[a],
    ) by {
        if a < at {
            assert(wanted(picks[a]));
        } else if a > at {
            assert(wanted(picks[a - 1]));
        }
    }
    assert forall|i: int| picks.contains(i) implies full.contains(i) by {
        let k = choose|k: int| 0 <= k < picks.len() && picks[k] == i;
        if k < at {
            assert(full[k] == i);
        } else {
            assert(full[k + 1] == i);
        }
    }
    assert(full.contains(n)) by {
        assert(full[at] == n);
    }
    if picks.len() == limit {
        let kept = full.drop_last();
        let gone = full.last();
        assert forall|a: int, b: int| 0 <= a < b < kept.len() implies before(
            #[trigger] kept[a],
            #[trigger] kept[b],
        ) by {
            assert(before(full[a], full[b]));
        }
        assert forall|a: int| 0 <= a < kept.len() implies 0 <= #[trigger] kept[a] < n + 1 && wanted(
            kept[a],
        ) by {
            assert(kept[a] == full[a]);
        }
        assert forall|a: int| 0 <= a < kept.len() implies before(#[trigger] kept[a], gone) by {
            assert(before(full[a], full[full.len() - 1]));
        }
        assert forall|i: int| 0 <= i < n + 1 && #[trigger] wanted(i) && !kept.contains(i) implies kept.len()
            == limit && forall|a: int| 0 <= a < kept.len() ==> before(#[trigger] kept[a], i) by {
            if full.contains(i) {
                let k = choose|k: int| 0 <= k < full.len() && full[k] == i;
                if k < kept.len() {
                    assert(kept[k] == i);
                }
                assert(i == gone);
            } else {
                assert(i != n);
                assert(!picks.contains(i));
                assert forall|a: int| 0 <= a < kept.len() implies before(#[trigger] kept[a], i) by {
                    if a < at {
                        assert(before(picks[a], i));
                    } else if a > at {
                        assert(before(picks[a - 1], i));
                    } else {
                        // The newcomer stands before the pick that took
                        // its place, and that one before `i`.
                        assert(at < picks.len());
                        assert(before(n, picks[at]));
                        assert(before(picks[at], i));
                    }
                }
            }
        }
    }
}

/// The positions of a vector as numbers.
pub open spec fn as_ints(v: Seq<usize>) -> Seq<int> {
    v.map_values(|x: usize| x as int)
}

} // verus!
