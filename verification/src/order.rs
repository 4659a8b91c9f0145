//! Lists with the youngest things first.

use vstd::prelude::*;

verus! {

/// The thing at `a` comes before the one at `b`: it is younger, or as old and
/// was given first.
pub open spec fn comes_before(ages: Seq<u64>, a: int, b: int) -> bool {
    ages[a] < ages[b] || (ages[a] == ages[b] && a < b)
}

/// The positions of all things, the youngest first; things of one age keep the
/// order in which they were given.
pub open spec fn is_order(ages: Seq<u64>, positions: Seq<usize>) -> bool {
    &&& positions.len() == ages.len()
    &&& forall|i: int| 0 <= i < positions.len() ==> (#[trigger] positions[i]) < ages.len()
    &&& forall|i: int, j: int|
        0 <= i < j < positions.len() ==> comes_before(
            ages,
            #[trigger] positions[i] as int,
            #[trigger] positions[j] as int,
        )
}

pub fn youngest_first(ages: &Vec<u64>) -> (r: Vec<usize>)
    ensures
        is_order(ages@, r@),
{
    let mut r: Vec<usize> = Vec::new();
    let mut i: usize = 0;
    while i < ages.len()
        invariant
            i <= ages.len(),
            r@.len() == i,
            forall|k: int| 0 <= k < r@.len() ==> (#[trigger] r@[k]) < i,
            forall|k: int, m: int|
                0 <= k < m < r@.len() ==> comes_before(
                    ages@,
                    #[trigger] r@[k] as int,
                    #[trigger] r@[m] as int,
                ),
        decreases ages.len() - i,
    {
        let mut k: usize = r.len();
        while k > 0 && ages[r[k - 1]] > ages[i]
            invariant
                k <= r@.len(),
                i < ages@.len(),
                r@.len() == i,
                forall|m: int| 0 <= m < r@.len() ==> (#[trigger] r@[m]) < i,
                forall|m: int| k <= m < r@.len() ==> ages@[(#[trigger] r@[m]) as int] > ages@[i as int],
            decreases k,
        {
            k = k - 1;
        }
        let ghost before = r@;
        proof {
            assert forall|m: int| 0 <= m < k implies comes_before(
                ages@,
                #[trigger] before[m] as int,
                i as int,
            ) by {
                if m < k - 1 {
                    assert(comes_before(ages@, before[m] as int, before[k - 1] as int));
                }
            }
        }
        r.insert(k, i);
        assert forall|a: int, b: int| 0 <= a < b < r@.len() implies comes_before(
            ages@,
            #[trigger] r@[a] as int,
            #[trigger] r@[b] as int,
        ) by {
            if b < k {
                assert(comes_before(ages@, before[a] as int, before[b] as int));
            } else if a < k && b == k {
                assert(comes_before(ages@, before[a] as int, i as int));
            } else if a < k && b > k {
                assert(comes_before(ages@, before[a] as int, before[b - 1] as int));
            } else if a == k {
                assert(ages@[before[b - 1] as int] > ages@[i as int]);
            } else {
                assert(comes_before(ages@, before[a - 1] as int, before[b - 1] as int));
            }
        }
        assert forall|m: int| 0 <= m < r@.len() implies (#[trigger] r@[m]) < i + 1 by {
            if m < k {
                assert(before[m] < i);
            } else if m > k {
                assert(before[m - 1] < i);
            }
        }
        i = i + 1;
    }
    r
}

/// No position occurs twice, so every thing is there exactly once.
pub proof fn lemma_order_is_complete(ages: Seq<u64>, positions: Seq<usize>)
    requires
        is_order(ages, positions),
    ensures
        forall|i: int, j: int|
            0 <= i < j < positions.len() ==> (#[trigger] positions[i]) != (#[trigger] positions[j]),
{
}

/// A list with something new in front, cut to its length.
pub open spec fn in_front<A>(list: Seq<A>, new: A, max: nat) -> Seq<A> {
    let longer = seq![new] + list;
    if longer.len() > max {
        longer.subrange(0, max as int)
    } else {
        longer
    }
}

}
