//! The combination generator: every size-`k` subset of the champion
//! identifiers `0..n`, produced exactly once.
//!
//! A subset is represented as a strictly increasing sequence of identifiers,
//! so distinct sequences are distinct subsets. The generator follows the
//! standard recursion: the combinations of `lo..n` of size `k` are those that
//! contain `lo` (prefixed onto each combination of `lo+1..n` of size `k-1`)
//! followed by those that do not (the combinations of `lo+1..n` of size `k`).

use vstd::prelude::*;

verus! {

/// The binomial coefficient `C(n, k)` by Pascal's rule.
pub open spec fn binom(n: int, k: int) -> int
    decreases n,
{
    if k < 0 {
        0
    } else if k == 0 {
        1
    } else if n <= 0 {
        0
    } else {
        binom(n - 1, k - 1) + binom(n - 1, k)
    }
}

/// All combinations of size `k` drawn from the identifiers `lo..n`, in
/// lexicographic order of their (increasing) member sequences.
pub open spec fn combos_from(lo: int, n: int, k: int) -> Seq<Seq<usize>>
    decreases n - lo,
{
    if k <= 0 {
        seq![Seq::<usize>::empty()]
    } else if lo >= n {
        Seq::<Seq<usize>>::empty()
    } else {
        combos_from(lo + 1, n, k - 1).map_values(|c: Seq<usize>| seq![lo as usize] + c)
            + combos_from(lo + 1, n, k)
    }
}

/// A well-formed combination over `lo..n` of size `k`: strictly increasing
/// identifiers, all within the range.
pub open spec fn combo_ok(c: Seq<usize>, lo: int, n: int, k: int) -> bool {
    &&& c.len() == k
    &&& forall|p: int| 0 <= p < c.len() ==> lo <= #[trigger] c[p] < n
    &&& forall|p: int, q: int| 0 <= p < q < c.len() ==> c[p] < c[q]
}

/// There are exactly `C(n - lo, k)` combinations of size `k` over `lo..n`.
pub proof fn lemma_combos_len(lo: int, n: int, k: int)
    requires
        lo <= n,
        0 <= k,
    ensures
        combos_from(lo, n, k).len() == binom(n - lo, k),
    decreases n - lo,
{
    if k == 0 || lo >= n {
    } else {
        lemma_combos_len(lo + 1, n, k - 1);
        lemma_combos_len(lo + 1, n, k);
    }
}

/// Every produced combination is well formed: size exactly `k`, members
/// drawn from `lo..n`, strictly increasing (hence pairwise distinct).
pub proof fn lemma_combos_ok(lo: int, n: int, k: int)
    requires
        0 <= lo,
        n <= usize::MAX,
        0 <= k,
    ensures
        forall|i: int|
            0 <= i < combos_from(lo, n, k).len() ==> combo_ok(
                #[trigger] combos_from(lo, n, k)[i],
                lo,
                n,
                k,
            ),
    decreases n - lo,
{
    if k == 0 || lo >= n {
    } else {
        lemma_combos_ok(lo + 1, n, k - 1);
        lemma_combos_ok(lo + 1, n, k);
        let with_first = combos_from(lo + 1, n, k - 1).map_values(
            |c: Seq<usize>| seq![lo as usize] + c,
        );
        let inner = combos_from(lo + 1, n, k - 1);
        assert forall|i: int| 0 <= i < with_first.len() implies combo_ok(
            #[trigger] with_first[i],
            lo,
            n,
            k,
        ) by {
            assert(combo_ok(inner[i], lo + 1, n, k - 1));
            let c = with_first[i];
            assert(c == seq![lo as usize] + inner[i]);
            assert(c[0] == lo as usize);
            assert(forall|p: int| 1 <= p < c.len() ==> c[p] == inner[i][p - 1]);
        }
        let rest = combos_from(lo + 1, n, k);
        assert(combos_from(lo, n, k) == with_first + rest);
        assert forall|i: int| 0 <= i < combos_from(lo, n, k).len() implies combo_ok(
            #[trigger] combos_from(lo, n, k)[i],
            lo,
            n,
            k,
        ) by {
            if i < with_first.len() {
                assert(combos_from(lo, n, k)[i] == with_first[i]);
            } else {
                assert(combos_from(lo, n, k)[i] == rest[i - with_first.len()]);
                assert(combo_ok(rest[i - with_first.len()], lo + 1, n, k));
            }
        }
    }
}

/// No combination is produced twice: the output sequences are pairwise
/// distinct.
pub proof fn lemma_combos_distinct(lo: int, n: int, k: int)
    requires
        0 <= lo,
        n <= usize::MAX,
        0 <= k,
    ensures
        forall|i: int, j: int|
            0 <= i < j < combos_from(lo, n, k).len() ==> combos_from(lo, n, k)[i] != combos_from(
                lo,
                n,
                k,
            )[j],
    decreases n - lo,
{
    if k == 0 || lo >= n {
    } else {
        lemma_combos_distinct(lo + 1, n, k - 1);
        lemma_combos_distinct(lo + 1, n, k);
        lemma_combos_ok(lo + 1, n, k - 1);
        lemma_combos_ok(lo + 1, n, k);
        let inner = combos_from(lo + 1, n, k - 1);
        let with_first = inner.map_values(|c: Seq<usize>| seq![lo as usize] + c);
        let rest = combos_from(lo + 1, n, k);
        let all = combos_from(lo, n, k);
        assert(all == with_first + rest);
        assert forall|i: int, j: int| 0 <= i < j < all.len() implies all[i] != all[j] by {
            if j < with_first.len() {
                assert(with_first[i] == seq![lo as usize] + inner[i]);
                assert(with_first[j] == seq![lo as usize] + inner[j]);
                if with_first[i] == with_first[j] {
                    assert(inner[i] =~= inner[j]) by {
                        assert(forall|p: int|
                            0 <= p < inner[i].len() ==> inner[i][p] == with_first[i][p + 1]);
                        assert(forall|p: int|
                            0 <= p < inner[j].len() ==> inner[j][p] == with_first[j][p + 1]);
                    }
                }
            } else if i >= with_first.len() {
                assert(all[i] == rest[i - with_first.len()]);
                assert(all[j] == rest[j - with_first.len()]);
            } else {
                let a = with_first[i];
                let b = rest[j - with_first.len()];
                assert(a == seq![lo as usize] + inner[i]);
                assert(combo_ok(inner[i], lo + 1, n, k - 1));
                assert(combo_ok(b, lo + 1, n, k));
                assert(a[0] == lo as usize);
                assert(b.len() == k);
                assert(b[0] >= lo + 1);
                assert(a[0] != b[0]);
            }
        }
    }
}

/// No combination is omitted: every strictly increasing size-`k` sequence
/// over `lo..n` is produced.
pub proof fn lemma_combos_complete(lo: int, n: int, k: int, c: Seq<usize>)
    requires
        0 <= lo,
        n <= usize::MAX,
        0 <= k,
        combo_ok(c, lo, n, k),
    ensures
        combos_from(lo, n, k).contains(c),
    decreases n - lo,
{
    let all = combos_from(lo, n, k);
    if k == 0 {
        assert(c =~= Seq::<usize>::empty());
        assert(all[0] == c);
    } else if lo >= n {
        assert(c[0] < n);
        assert(false);
    } else {
        let inner = combos_from(lo + 1, n, k - 1);
        let mapped = inner.map_values(|s: Seq<usize>| seq![lo as usize] + s);
        let rest = combos_from(lo + 1, n, k);
        assert(all == mapped + rest);
        if c[0] == lo as usize {
            let c2 = c.subrange(1, c.len() as int);
            assert(forall|p: int| 0 <= p < c2.len() ==> c2[p] == c[p + 1]);
            assert(combo_ok(c2, lo + 1, n, k - 1)) by {
                assert(forall|p: int| 0 <= p < c2.len() ==> c[0] < #[trigger] c[p + 1]);
            }
            lemma_combos_complete(lo + 1, n, k - 1, c2);
            let i = choose|i: int| 0 <= i < inner.len() && inner[i] == c2;
            assert(mapped[i] == seq![lo as usize] + c2);
            assert(seq![lo as usize] + c2 =~= c);
            assert(all[i] == c);
        } else {
            assert(lo < c[0]);
            assert(combo_ok(c, lo + 1, n, k)) by {
                assert(forall|p: int| 1 <= p < c.len() ==> c[0] < #[trigger] c[p]);
            }
            lemma_combos_complete(lo + 1, n, k, c);
            let i = choose|i: int| 0 <= i < rest.len() && rest[i] == c;
            assert(all[mapped.len() + i] == rest[i]);
            assert(all.contains(c));
        }
    }
}

/// The recursive worker behind `generate_combinations`.
fn combos_range(lo: usize, n: usize, k: usize) -> (r: Vec<Vec<usize>>)
    requires
        lo <= n,
    ensures
        r@.len() == combos_from(lo as int, n as int, k as int).len(),
        forall|i: int|
            0 <= i < r@.len() ==> (#[trigger] r@[i])@ == combos_from(lo as int, n as int, k as int)[i],
    decreases n - lo,
{
    let ghost spec_result = combos_from(lo as int, n as int, k as int);
    let mut r: Vec<Vec<usize>> = Vec::new();
    if k == 0 {
        let empty: Vec<usize> = Vec::new();
        r.push(empty);
        return r;
    }
    if lo >= n {
        return r;
    }
    let with_first = combos_range(lo + 1, n, k - 1);
    let ghost inner = combos_from(lo + 1 as int, n as int, k - 1 as int);
    let ghost mapped = inner.map_values(|c: Seq<usize>| seq![lo as usize] + c);
    let mut i: usize = 0;
    while i < with_first.len()
        invariant
            r@.len() == i,
            i <= with_first@.len(),
            forall|m: int| 0 <= m < i ==> (#[trigger] r@[m])@ == mapped[m],
        decreases with_first@.len() - i,
    {
        let src = &with_first[i];
        let mut c: Vec<usize> = Vec::new();
        c.push(lo);
        let mut j: usize = 0;
        while j < src.len()
            invariant
                j <= src@.len(),
                c@ == seq![lo] + src@.take(j as int),
            decreases src@.len() - j,
        {
            c.push(src[j]);
            proof {
                assert(src@.take(j + 1) =~= src@.take(j as int).push(src@[j as int]));
                assert(c@ =~= seq![lo] + src@.take(j + 1));
            }
            j += 1;
        }
        proof {
            assert(src@.take(src@.len() as int) =~= src@);
            assert(c@ =~= seq![lo] + src@);
            assert(mapped[i as int] == seq![lo as usize] + inner[i as int]);
        }
        r.push(c);
        i += 1;
    }
    let mut rest = combos_range(lo + 1, n, k);
    let ghost rest_spec = combos_from(lo + 1 as int, n as int, k as int);
    let ghost r_before = r@;
    r.append(&mut rest);
    proof {
        assert(spec_result == mapped + rest_spec);
        assert(spec_result.len() == mapped.len() + rest_spec.len());
        assert forall|m: int| 0 <= m < r@.len() implies (#[trigger] r@[m])@ == spec_result[m] by {
            if m < mapped.len() {
                assert(r@[m] == r_before[m]);
            }
        }
    }
    r
}

/// Produces every size-`k` subset of the identifiers `0..n` exactly once,
/// each as a strictly increasing vector of identifiers: `C(n, k)` subsets in
/// all, pairwise distinct, each of size exactly `k`, with no subset omitted
/// (law).
pub fn generate_combinations(n: usize, k: usize) -> (r: Vec<Vec<usize>>)
    ensures
        r@.len() == combos_from(0, n as int, k as int).len(),
        forall|i: int|
            0 <= i < r@.len() ==> (#[trigger] r@[i])@ == combos_from(0, n as int, k as int)[i],
        r@.len() == binom(n as int, k as int),
        forall|i: int|
            0 <= i < r@.len() ==> combo_ok((#[trigger] r@[i])@, 0, n as int, k as int),
        forall|i: int, j: int| 0 <= i < j < r@.len() ==> r@[i]@ != r@[j]@,
        forall|c: Seq<usize>|
            #[trigger] combo_ok(c, 0, n as int, k as int) ==> exists|i: int|
                0 <= i < r@.len() && r@[i]@ == c,
{
    proof {
        lemma_combos_len(0, n as int, k as int);
        lemma_combos_ok(0, n as int, k as int);
        lemma_combos_distinct(0, n as int, k as int);
    }
    let r = combos_range(0, n, k);
    proof {
        let cs = combos_from(0, n as int, k as int);
        assert forall|c: Seq<usize>| #[trigger] combo_ok(c, 0, n as int, k as int) implies exists|
            i: int,
        | 0 <= i < r@.len() && r@[i]@ == c by {
            lemma_combos_complete(0, n as int, k as int, c);
            let i = choose|i: int| 0 <= i < cs.len() && cs[i] == c;
            assert(r@[i]@ == c);
        }
    }
    r
}

} // verus!
