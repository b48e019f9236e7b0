//! Levenshtein edit distance, and the "did you mean" suggester built on it:
//! the nearest word of a vocabulary, ties broken by first occurrence.

use crate::util::chars_of;
use vstd::pervasive::VecAdditionalExecFns;
use vstd::prelude::*;

verus! {

/// The least of three numbers.
pub open spec fn min3(x: nat, y: nat, z: nat) -> nat {
    if x <= y && x <= z {
        x
    } else if y <= z {
        y
    } else {
        z
    }
}

/// The Levenshtein edit distance between two character sequences: the least
/// number of single-character insertions, deletions and substitutions that
/// turns one into the other.
pub open spec fn edit_dist(a: Seq<char>, b: Seq<char>) -> nat
    decreases a.len() + b.len(),
{
    if a.len() == 0 {
        b.len()
    } else if b.len() == 0 {
        a.len()
    } else {
        let cost: nat = if a.last() == b.last() {
            0
        } else {
            1
        };
        min3(
            edit_dist(a.drop_last(), b) + 1,
            edit_dist(a, b.drop_last()) + 1,
            edit_dist(a.drop_last(), b.drop_last()) + cost,
        )
    }
}

/// The distance never exceeds the longer length.
pub proof fn lemma_edit_dist_bound(a: Seq<char>, b: Seq<char>)
    ensures
        edit_dist(a, b) <= if a.len() >= b.len() {
            a.len()
        } else {
            b.len()
        },
    decreases a.len() + b.len(),
{
    if a.len() != 0 && b.len() != 0 {
        lemma_edit_dist_bound(a.drop_last(), b.drop_last());
    }
}

/// The distance between prefixes obeys the dynamic-programming recurrence.
proof fn lemma_edit_rec(a: Seq<char>, b: Seq<char>, i: int, j: int)
    requires
        1 <= i <= a.len(),
        1 <= j <= b.len(),
    ensures
        edit_dist(a.take(i), b.take(j)) == ({
            let cost: nat = if a[i - 1] == b[j - 1] {
                0
            } else {
                1
            };
            min3(
                edit_dist(a.take(i - 1), b.take(j)) + 1,
                edit_dist(a.take(i), b.take(j - 1)) + 1,
                edit_dist(a.take(i - 1), b.take(j - 1)) + cost,
            )
        }),
{
    let x = a.take(i);
    let y = b.take(j);
    assert(x.drop_last() =~= a.take(i - 1));
    assert(y.drop_last() =~= b.take(j - 1));
    assert(x.last() == a[i - 1]);
    assert(y.last() == b[j - 1]);
}

/// The least of three numbers, executably.
fn min3_usize(x: usize, y: usize, z: usize) -> (r: usize)
    ensures
        r as nat == min3(x as nat, y as nat, z as nat),
{
    if x <= y && x <= z {
        x
    } else if y <= z {
        y
    } else {
        z
    }
}

/// The Levenshtein distance between two texts, by one rolling row of the
/// dynamic-programming table.
pub fn lev(a: &str, b: &str) -> (r: usize)
    requires
        a@.len() + b@.len() < usize::MAX,
    ensures
        r as nat == edit_dist(a@, b@),
{
    let av = chars_of(a);
    let bv = chars_of(b);
    let ghost aq = a@;
    let ghost bq = b@;
    let m = av.len();
    let n = bv.len();
    if m == 0 {
        return n;
    }
    if n == 0 {
        return m;
    }
    proof {
        assert(bq.take(0) =~= Seq::<char>::empty());
        assert(aq.take(0) =~= Seq::<char>::empty());
    }
    // cache[k] holds the distance from the first k+1 characters of `a` to
    // the first j-1 (later j) characters of `b`.
    let mut cache: Vec<usize> = Vec::new();
    let mut t: usize = 1;
    while t <= m
        invariant
            aq == a@,
            bq == b@,
            av@ == aq,
            bv@ == bq,
            m == aq.len(),
            n == bq.len(),
            aq.len() + bq.len() < usize::MAX,
            1 <= t <= m + 1,
            cache@.len() == t - 1,
            forall|k: int|
                0 <= k < t - 1 ==> #[trigger] cache@[k] as nat == edit_dist(
                    aq.take(k + 1),
                    bq.take(0),
                ),
        decreases m - t + 1,
    {
        cache.push(t);
        proof {
            assert(bq.take(0) =~= Seq::<char>::empty());
            assert(aq.take(t as int).len() == t);
            assert(edit_dist(aq.take(t as int), bq.take(0)) == t);
        }
        t = t + 1;
    }
    let mut j: usize = 1;
    while j <= n
        invariant
            aq == a@,
            bq == b@,
            av@ == aq,
            bv@ == bq,
            m == aq.len(),
            n == bq.len(),
            aq.len() + bq.len() < usize::MAX,
            1 <= m,
            1 <= j <= n + 1,
            cache@.len() == m,
            forall|k: int|
                0 <= k < m ==> #[trigger] cache@[k] as nat == edit_dist(
                    aq.take(k + 1),
                    bq.take(j - 1),
                ),
        decreases n - j + 1,
    {
        let cb = bv[j - 1];
        let mut prev_diag: usize = j - 1;
        let mut prev: usize = j;
        let mut i: usize = 1;
        proof {
            assert(aq.take(0) =~= Seq::<char>::empty());
            assert(edit_dist(aq.take(0), bq.take(j - 1)) == j - 1);
            assert(edit_dist(aq.take(0), bq.take(j as int)) == j);
        }
        while i <= m
            invariant
                aq == a@,
                bq == b@,
                av@ == aq,
                bv@ == bq,
                m == aq.len(),
                n == bq.len(),
                aq.len() + bq.len() < usize::MAX,
                1 <= j <= n,
                1 <= i <= m + 1,
                cb == bq[j - 1],
                cache@.len() == m,
                forall|k: int|
                    0 <= k < i - 1 ==> #[trigger] cache@[k] as nat == edit_dist(
                        aq.take(k + 1),
                        bq.take(j as int),
                    ),
                forall|k: int|
                    i - 1 <= k < m ==> #[trigger] cache@[k] as nat == edit_dist(
                        aq.take(k + 1),
                        bq.take(j - 1),
                    ),
                prev as nat == edit_dist(aq.take(i - 1), bq.take(j as int)),
                prev_diag as nat == edit_dist(aq.take(i - 1), bq.take(j - 1)),
            decreases m - i + 1,
        {
            let ca = av[i - 1];
            proof {
                lemma_edit_dist_bound(aq.take(i - 1), bq.take(j as int));
                lemma_edit_dist_bound(aq.take(i as int), bq.take(j - 1));
                lemma_edit_dist_bound(aq.take(i - 1), bq.take(j - 1));
                lemma_edit_rec(aq, bq, i as int, j as int);
            }
            let oldc = cache[i - 1];
            let cost: usize = if ca == cb {
                0
            } else {
                1
            };
            let cur = min3_usize(prev + 1, oldc + 1, prev_diag + cost);
            prev_diag = oldc;
            cache.set(i - 1, cur);
            prev = cur;
            i = i + 1;
        }
        j = j + 1;
    }
    proof {
        assert(aq.take(m as int) =~= aq);
        assert(bq.take(n as int) =~= bq);
    }
    cache[m - 1]
}

/// The nearest word: among the words of `b`, the first one whose distance
/// to `a` is least, paired with that distance.
pub fn suggest_word(a: &str, b: &[&str]) -> (r: (usize, String))
    requires
        b@.len() > 0,
        forall|k: int| 0 <= k < b@.len() ==> a@.len() + #[trigger] b@[k]@.len() < usize::MAX,
    ensures
        forall|k: int|
            0 <= k < b@.len() ==> #[trigger] edit_dist(a@, b@[k]@) >= r.0 as nat,
        exists|k: int|
            0 <= k < b@.len() && r.1@ == b@[k]@ && r.0 as nat == edit_dist(a@, b@[k]@) && (
            forall|h: int| 0 <= h < k ==> #[trigger] edit_dist(a@, b@[h]@) > r.0 as nat),
{
    let first: &str = b[0];
    let mut best: usize = lev(a, first);
    let mut best_word: String = first.to_owned();
    let ghost mut best_at: int = 0;
    let mut k: usize = 1;
    while k < b.len()
        invariant
            b@.len() > 0,
            forall|h: int| 0 <= h < b@.len() ==> a@.len() + #[trigger] b@[h]@.len() < usize::MAX,
            1 <= k <= b@.len(),
            0 <= best_at < k,
            best_word@ == b@[best_at]@,
            best as nat == edit_dist(a@, b@[best_at]@),
            forall|h: int| 0 <= h < k ==> #[trigger] edit_dist(a@, b@[h]@) >= best as nat,
            forall|h: int| 0 <= h < best_at ==> #[trigger] edit_dist(a@, b@[h]@) > best as nat,
        decreases b@.len() - k,
    {
        let w: &str = b[k];
        let d = lev(a, w);
        if d < best {
            best = d;
            best_word = w.to_owned();
            proof {
                best_at = k as int;
            }
        }
        k = k + 1;
    }
    (best, best_word)
}

} // verus!
