use vstd::prelude::*;

verus! {

/// `r` lists distinct positions of `keys` by non-increasing key, as many as
/// `k` allows, and no position left out has a larger key than the last one
/// listed.
pub open spec fn is_top(keys: Seq<i128>, k: nat, r: Seq<usize>) -> bool {
    &&& r.len() == if k < keys.len() {
        k
    } else {
        keys.len()
    }
    &&& r.no_duplicates()
    &&& forall|i: int| 0 <= i < r.len() ==> (#[trigger] r[i]) < keys.len()
    &&& forall|i: int, j: int| 0 <= i < j < r.len() ==> keys[r[i] as int] >= keys[r[j] as int]
    &&& r.len() > 0 ==> forall|x: int|
        0 <= x < keys.len() && unlisted(r, x) ==> #[trigger] keys[x] <= keys[r.last() as int]
}

/// Position `x` is not among those in `r`.
pub open spec fn unlisted(r: Seq<usize>, x: int) -> bool {
    forall|i: int| 0 <= i < r.len() ==> r[i] as int != x
}

/// The key at position `x` is no larger than the one at position `y`.
pub open spec fn at_most(keys: Seq<i128>, x: int, y: int) -> bool {
    keys[x] <= keys[y]
}

/// Whether `r` lists position `j`.
fn lists(r: &Vec<usize>, j: usize) -> (b: bool)
    ensures
        b == !unlisted(r@, j as int),
{
    let mut t: usize = 0;
    while t < r.len()
        invariant
            t <= r@.len(),
            forall|i: int| 0 <= i < t ==> r@[i] != j,
        decreases r@.len() - t,
    {
        if r[t] == j {
            assert(r@[t as int] == j);
            return true;
        }
        t = t + 1;
    }
    false
}

/// Positions of the `k` largest keys, largest first.
pub fn top_positions(keys: &[i128], k: usize) -> (r: Vec<usize>)
    ensures
        is_top(keys@, k as nat, r@),
{
    let n = keys.len();
    let mut r: Vec<usize> = Vec::new();
    while r.len() < k && r.len() < n
        invariant
            n == keys@.len(),
            r@.len() <= k,
            r@.len() <= n,
            r@.no_duplicates(),
            forall|i: int| 0 <= i < r@.len() ==> (#[trigger] r@[i]) < n,
            forall|i: int, j: int|
                0 <= i < j < r@.len() ==> keys@[r@[i] as int] >= keys@[r@[j] as int],
            r@.len() > 0 ==> forall|x: int|
                0 <= x < n && unlisted(r@, x) ==> #[trigger] keys@[x] <= keys@[r@.last() as int],
        decreases n - r@.len(),
    {
        let mut best: usize = n;
        let mut j: usize = 0;
        while j < n
            invariant
                n == keys@.len(),
                j <= n,
                best == n || (best < j && unlisted(r@, best as int)),
                forall|x: int|
                    0 <= x < j && unlisted(r@, x) ==> best < n && at_most(keys@, x, best as int),
            decreases n - j,
        {
            let taken = lists(&r, j);
            let ghost old_best = best;
            if !taken && (best == n || keys[j] > keys[best]) {
                best = j;
            }
            proof {
                assert forall|x: int|
                    0 <= x < j + 1 && unlisted(r@, x) implies best < n && at_most(keys@, x, best as int) by {
                    if x < j {
                        assert(old_best < n && at_most(keys@, x, old_best as int));
                    }
                }
            }
            j = j + 1;
        }
        proof {
            // Fewer positions are listed than there are keys, so one is free.
            if best == n {
                let s = Seq::new(n as nat, |x: int| x as usize);
                assert forall|y: usize| s.to_set().contains(y) implies r@.to_set().contains(y) by {
                    let x = choose|x: int| 0 <= x < s.len() && s[x] == y;
                    assert(s[x] == x as usize);
                    if !r@.contains(y) {
                        assert forall|i: int| 0 <= i < r@.len() implies r@[i] as int != x by {
                            if r@[i] as int == x {
                                assert(r@[i] == y);
                            }
                        }
                        assert(unlisted(r@, x));
                        assert(x < j);
                        assert(best < n);
                    }
                    assert(r@.contains(y));
                }
                assert(s.no_duplicates());
                s.unique_seq_to_set();
                r@.unique_seq_to_set();
                vstd::set_lib::lemma_len_subset(s.to_set(), r@.to_set());
            }
        }
        let ghost before = r@;
        r.push(best);
        proof {
            assert forall|i: int| 0 <= i < r@.len() - 1 implies r@[i] != best by {
                assert(before[i] == r@[i]);
            }
            assert forall|x: int| 0 <= x < n && unlisted(r@, x) implies #[trigger] keys@[x]
                <= keys@[r@.last() as int] by {
                assert forall|i: int| 0 <= i < before.len() implies before[i] as int != x by {
                    assert(r@[i] == before[i]);
                }
                assert(unlisted(before, x));
                assert(x < j);
                assert(at_most(keys@, x, best as int));
            }
            assert forall|i: int, j: int| 0 <= i < j < r@.len() implies keys@[r@[i] as int]
                >= keys@[r@[j] as int] by {
                if j == r@.len() - 1 && before.len() > 0 {
                    assert(unlisted(before, best as int));
                    assert(keys@[best as int] <= keys@[before.last() as int]);
                    assert(before[i] == r@[i]);
                }
            }
        }
    }
    r
}

} // verus!
