use vstd::prelude::*;

verus! {

/// `p` names an unordered pair of distinct balls among `n`, smaller index first.
pub open spec fn is_ball_pair(p: (usize, usize), n: nat) -> bool {
    p.0 < p.1 && p.1 < n
}

/// Lexicographic order on index pairs: the order in which the
/// ball-to-ball pass visits them.
pub open spec fn pair_precedes(a: (usize, usize), b: (usize, usize)) -> bool {
    a.0 < b.0 || (a.0 == b.0 && a.1 < b.1)
}

/// Every unordered pair of distinct balls among `n`, each exactly once, in
/// the order of the nested loop `for i in 0..n { for j in i + 1..n }`.
/// Fewer than two balls give no pair.
pub fn ball_pairs(n: usize) -> (r: Vec<(usize, usize)>)
    ensures
        forall|k: int| 0 <= k < r@.len() ==> is_ball_pair(#[trigger] r@[k], n as nat),
        forall|k: int, l: int|
            0 <= k < l < r@.len() ==> pair_precedes(#[trigger] r@[k], #[trigger] r@[l]),
        forall|p: (usize, usize)| is_ball_pair(p, n as nat) ==> #[trigger] r@.contains(p),
{
    let mut r: Vec<(usize, usize)> = Vec::new();
    let mut i: usize = 0;
    while i < n
        invariant
            i <= n,
            forall|k: int| 0 <= k < r@.len() ==> is_ball_pair(#[trigger] r@[k], n as nat),
            forall|k: int| 0 <= k < r@.len() ==> (#[trigger] r@[k]).0 < i,
            forall|k: int, l: int|
                0 <= k < l < r@.len() ==> pair_precedes(#[trigger] r@[k], #[trigger] r@[l]),
            forall|p: (usize, usize)|
                is_ball_pair(p, n as nat) && p.0 < i ==> #[trigger] r@.contains(p),
        decreases n - i,
    {
        let mut j: usize = i + 1;
        while j < n
            invariant
                i < n,
                i + 1 <= j <= n,
                forall|k: int| 0 <= k < r@.len() ==> is_ball_pair(#[trigger] r@[k], n as nat),
                forall|k: int| 0 <= k < r@.len() ==> pair_precedes(#[trigger] r@[k], (i, j)),
                forall|k: int, l: int|
                    0 <= k < l < r@.len() ==> pair_precedes(#[trigger] r@[k], #[trigger] r@[l]),
                forall|p: (usize, usize)|
                    is_ball_pair(p, n as nat) && (p.0 < i || (p.0 == i && p.1 < j))
                        ==> #[trigger] r@.contains(p),
            decreases n - j,
        {
            let ghost before = r@;
            r.push((i, j));
            proof {
                assert(r@[before.len() as int] == (i, j));
                assert forall|p: (usize, usize)|
                    is_ball_pair(p, n as nat) && (p.0 < i || (p.0 == i && p.1 < j + 1))
                        implies #[trigger] r@.contains(p) by {
                    if p == (i, j) {
                        assert(r@[before.len() as int] == p);
                    } else {
                        assert(before.contains(p));
                        let k = choose|k: int| 0 <= k < before.len() && before[k] == p;
                        assert(r@[k] == p);
                    }
                }
            }
            j = j + 1;
        }
        proof {
            assert forall|k: int| 0 <= k < r@.len() implies (#[trigger] r@[k]).0 < i + 1 by {
                assert(pair_precedes(r@[k], (i, j)));
            }
        }
        i = i + 1;
    }
    r
}

} // verus!
