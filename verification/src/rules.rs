//! Roster data model and the waste table.
//!
//! A champion carries a cost and a set of trait identifiers; a trait carries a
//! set of breakpoint thresholds. The waste of a trait at a membership count
//! `c` is `c` minus the largest breakpoint that does not exceed `c`; the waste
//! table records this value for every trait and every count in `0..=9`.

use vstd::prelude::*;

verus! {

/// A categorical tag with its activation thresholds.
pub struct TraitDef {
    pub name: String,
    pub breakpoints: Vec<u8>,
}

/// A roster entity: a name, a cost, and the traits it carries.
pub struct Champion {
    pub name: String,
    pub cost: u8,
    pub traits: Vec<usize>,
}

/// The full immutable input tables: champion catalog and trait catalog.
pub struct Roster {
    pub champions: Vec<Champion>,
    pub traits: Vec<TraitDef>,
}

/// Fatal configuration errors surfaced during validation or table building.
#[derive(Clone, Copy, PartialEq, Eq, Structural, Debug)]
pub enum ConfigError {
    /// The trait with this identifier has no breakpoint `<= c` for some
    /// required count `c` in `0..=9` (equivalently, `0` is not a breakpoint).
    UncoveredCount(usize),
    /// A requested team-size range does not satisfy
    /// `1 <= min <= max <= roster size` with `max <= 9`.
    InvalidSizeRange,
}

/// The largest breakpoint in `bps` that is `<= c`, or `-1` if none is.
pub open spec fn max_ble(bps: Seq<u8>, c: int) -> int
    decreases bps.len(),
{
    if bps.len() == 0 {
        -1
    } else {
        let rest = max_ble(bps.drop_last(), c);
        if bps.last() <= c && bps.last() > rest {
            bps.last() as int
        } else {
            rest
        }
    }
}

/// Some breakpoint in `bps` is `<= c`, so the waste at count `c` is defined.
pub open spec fn covered(bps: Seq<u8>, c: int) -> bool {
    exists|i: int| 0 <= i < bps.len() && bps[i] <= c
}

/// The waste at count `c`: the distance from `c` down to the nearest
/// breakpoint at or below it. Meaningful only when `covered(bps, c)`.
pub open spec fn spec_waste(bps: Seq<u8>, c: int) -> int {
    c - max_ble(bps, c)
}

/// Facts about `max_ble`: it is `-1` exactly when no breakpoint is `<= c`,
/// otherwise it is a breakpoint `<= c` that dominates every breakpoint `<= c`.
pub proof fn lemma_max_ble(bps: Seq<u8>, c: int)
    ensures
        covered(bps, c) <==> max_ble(bps, c) >= 0,
        covered(bps, c) ==> max_ble(bps, c) <= c,
        covered(bps, c) ==> 0 <= max_ble(bps, c) <= 255,
        covered(bps, c) ==> bps.contains(max_ble(bps, c) as u8),
        forall|i: int| 0 <= i < bps.len() && bps[i] <= c ==> bps[i] <= max_ble(bps, c),
    decreases bps.len(),
{
    if bps.len() == 0 {
        assert(!covered(bps, c));
    } else {
        let pre = bps.drop_last();
        lemma_max_ble(pre, c);
        assert(forall|i: int| 0 <= i < pre.len() ==> pre[i] == bps[i]);
        if covered(bps, c) {
            let w = choose|i: int| 0 <= i < bps.len() && bps[i] <= c;
            if w < pre.len() {
                assert(covered(pre, c));
            } else {
                assert(bps.last() <= c);
            }
            let m = max_ble(bps, c);
            if m == max_ble(pre, c) {
                assert(pre.contains(m as u8));
                let j = choose|i: int| 0 <= i < pre.len() && pre[i] == m as u8;
                assert(bps[j] == m as u8);
            }
        }
        if max_ble(bps, c) >= 0 {
            if max_ble(bps, c) == max_ble(pre, c) {
                assert(covered(pre, c));
                let j = choose|i: int| 0 <= i < pre.len() && pre[i] <= c;
                assert(bps[j] <= c);
            } else {
                assert(bps.last() <= c);
                assert(bps[bps.len() - 1] <= c);
            }
        }
    }
}

/// The defining properties of the waste value (law): at a covered count `c`,
/// the waste is `c - max{b in bps : b <= c}`, it is non-negative, and it is
/// zero exactly when `c` itself is a breakpoint.
pub proof fn lemma_waste_props(bps: Seq<u8>, c: int)
    requires
        0 <= c,
        covered(bps, c),
    ensures
        spec_waste(bps, c) == c - max_ble(bps, c),
        0 <= spec_waste(bps, c) <= c,
        spec_waste(bps, c) == 0 <==> exists|i: int| 0 <= i < bps.len() && bps[i] == c,
{
    lemma_max_ble(bps, c);
    if spec_waste(bps, c) == 0 {
        assert(bps.contains(max_ble(bps, c) as u8));
        let j = choose|i: int| 0 <= i < bps.len() && bps[i] == max_ble(bps, c) as u8;
        assert(bps[j] == c);
    }
    if exists|i: int| 0 <= i < bps.len() && bps[i] == c {
        let j = choose|i: int| 0 <= i < bps.len() && bps[i] == c;
        assert(bps[j] <= max_ble(bps, c));
    }
}

/// How the waste moves from one count to the next (law): stepping from `c` to
/// `c + 1`, the waste drops to zero if `c + 1` is itself a breakpoint, and
/// otherwise grows by exactly one.
pub proof fn lemma_waste_step(bps: Seq<u8>, c: int)
    requires
        0 <= c,
        covered(bps, c),
    ensures
        covered(bps, c + 1),
        (exists|i: int| 0 <= i < bps.len() && bps[i] == c + 1) ==> spec_waste(bps, c + 1)
            == 0,
        !(exists|i: int| 0 <= i < bps.len() && bps[i] == c + 1) ==> spec_waste(bps, c + 1)
            == spec_waste(bps, c) + 1,
{
    lemma_max_ble(bps, c);
    lemma_max_ble(bps, c + 1);
    let j = choose|i: int| 0 <= i < bps.len() && bps[i] <= c;
    assert(bps[j] <= c + 1);
    if exists|i: int| 0 <= i < bps.len() && bps[i] == c + 1 {
        let w = choose|i: int| 0 <= i < bps.len() && bps[i] == c + 1;
        assert(bps[w] <= max_ble(bps, c + 1));
    } else {
        let m1 = max_ble(bps, c + 1);
        assert(bps.contains(m1 as u8));
        let k = choose|i: int| 0 <= i < bps.len() && bps[i] == m1 as u8;
        if m1 == c + 1 {
            assert(bps[k] == c + 1);
            assert(false);
        }
        assert(m1 <= c);
        assert(bps[k] <= max_ble(bps, c));
        let m0 = max_ble(bps, c);
        assert(bps.contains(m0 as u8));
        let k0 = choose|i: int| 0 <= i < bps.len() && bps[i] == m0 as u8;
        assert(bps[k0] <= c + 1);
        assert(bps[k0] <= m1);
    }
}

/// The largest breakpoint of `bps` that is `<= c`, or `None` if none is.
fn largest_ble(bps: &Vec<u8>, c: u8) -> (r: Option<u8>)
    ensures
        match r {
            Some(b) => max_ble(bps@, c as int) == b as int,
            None => max_ble(bps@, c as int) == -1,
        },
{
    let mut r: Option<u8> = None;
    let mut i: usize = 0;
    while i < bps.len()
        invariant
            i <= bps@.len(),
            match r {
                Some(b) => max_ble(bps@.take(i as int), c as int) == b as int,
                None => max_ble(bps@.take(i as int), c as int) == -1,
            },
        decreases bps@.len() - i,
    {
        let b = bps[i];
        proof {
            assert(bps@.take(i + 1).drop_last() =~= bps@.take(i as int));
            assert(bps@.take(i + 1).last() == bps@[i as int]);
        }
        if b <= c {
            match r {
                Some(prev) => {
                    if b > prev {
                        r = Some(b);
                    }
                },
                None => {
                    r = Some(b);
                },
            }
        }
        i += 1;
    }
    proof {
        assert(bps@.take(bps@.len() as int) =~= bps@);
    }
    r
}

/// A waste table `wt` is faithful to the trait catalog `traits`: one row per
/// trait, ten entries per row, entry `c` holding the waste of that trait at
/// count `c`, with every count in `0..=9` covered by some breakpoint.
pub open spec fn waste_table_valid(wt: Seq<Vec<u8>>, traits: Seq<TraitDef>) -> bool {
    &&& wt.len() == traits.len()
    &&& forall|t: int| 0 <= t < wt.len() ==> (#[trigger] wt[t])@.len() == 10
    &&& forall|t: int, c: int|
        0 <= t < wt.len() && 0 <= c < 10 ==> #[trigger] covered(traits[t].breakpoints@, c)
    &&& forall|t: int, c: int|
        0 <= t < wt.len() && 0 <= c < 10 ==> (#[trigger] wt[t]@[c]) as int == spec_waste(
            traits[t].breakpoints@,
            c,
        )
}

/// Builds the waste table for `traits`: for every trait `t` and count
/// `c` in `0..=9`, the waste of `t` at `c`. Fails with the first trait whose
/// breakpoints leave some required count uncovered (equivalently: whose
/// breakpoints do not include `0`).
pub fn compute_waste_table(traits: &Vec<TraitDef>) -> (r: Result<Vec<Vec<u8>>, ConfigError>)
    ensures
        r is Ok <==> forall|t: int|
            0 <= t < traits@.len() ==> covered(#[trigger] traits@[t].breakpoints@, 0),
        r matches Ok(wt) ==> waste_table_valid(wt@, traits@),
        r matches Err(e) ==> exists|t: int|
            {
                &&& 0 <= t < traits@.len()
                &&& e == ConfigError::UncoveredCount(t as usize)
                &&& !covered(#[trigger] traits@[t].breakpoints@, 0)
                &&& forall|s: int| 0 <= s < t ==> covered(#[trigger] traits@[s].breakpoints@, 0)
            },
{
    let mut wt: Vec<Vec<u8>> = Vec::new();
    let mut t: usize = 0;
    while t < traits.len()
        invariant
            t <= traits@.len(),
            wt@.len() == t,
            forall|s: int| 0 <= s < t ==> (#[trigger] wt@[s])@.len() == 10,
            forall|s: int| 0 <= s < t ==> covered(#[trigger] traits@[s].breakpoints@, 0),
            forall|s: int, c: int|
                0 <= s < t && 0 <= c < 10 ==> #[trigger] covered(traits@[s].breakpoints@, c),
            forall|s: int, c: int|
                0 <= s < t && 0 <= c < 10 ==> (#[trigger] wt@[s]@[c]) as int == spec_waste(
                    traits@[s].breakpoints@,
                    c,
                ),
        decreases traits@.len() - t,
    {
        let mut row: Vec<u8> = Vec::new();
        let mut c: u8 = 0;
        while c < 10
            invariant
                c <= 10,
                t < traits@.len(),
                row@.len() == c as int,
                forall|d: int|
                    0 <= d < c as int ==> #[trigger] covered(traits@[t as int].breakpoints@, d),
                forall|d: int|
                    0 <= d < c as int ==> (#[trigger] row@[d]) as int == spec_waste(
                        traits@[t as int].breakpoints@,
                        d,
                    ),
        decreases 10 - c as int,
        {
            let best = largest_ble(&traits[t].breakpoints, c);
            proof {
                lemma_max_ble(traits@[t as int].breakpoints@, c as int);
            }
            match best {
                Some(b) => {
                    row.push(c - b);
                },
                None => {
                    proof {
                        if covered(traits@[t as int].breakpoints@, 0) {
                            let bps = traits@[t as int].breakpoints@;
                            let w = choose|i: int| 0 <= i < bps.len() && bps[i] <= 0;
                            assert(bps[w] <= c as int);
                        }
                    }
                    return Err(ConfigError::UncoveredCount(t));
                },
            }
            c += 1;
        }
        wt.push(row);
        t += 1;
    }
    Ok(wt)
}

/// A roster is well formed: every champion's trait identifiers point into the
/// trait catalog and are pairwise distinct (a champion carries a set of
/// traits), and every cost is positive.
pub open spec fn roster_wf(champions: Seq<Champion>, traits: Seq<TraitDef>) -> bool {
    forall|i: int|
        0 <= i < champions.len() ==> champion_wf(#[trigger] champions[i], traits.len() as int)
}

/// One champion is well formed with respect to a catalog of `n_traits` traits.
pub open spec fn champion_wf(c: Champion, n_traits: int) -> bool {
    &&& forall|j: int| 0 <= j < c.traits@.len() ==> (#[trigger] c.traits@[j]) < n_traits
    &&& forall|j: int, k: int| 0 <= j < k < c.traits@.len() ==> c.traits@[j] != c.traits@[k]
    &&& c.cost >= 1
}

impl Roster {
    /// The roster's well-formedness invariant, as a predicate on the value.
    pub open spec fn wf(&self) -> bool {
        roster_wf(self.champions@, self.traits@)
    }

    /// Champion names and trait names are each pairwise distinct.
    pub open spec fn names_unique(&self) -> bool {
        &&& forall|i: int, j: int|
            0 <= i < j < self.champions@.len() ==> self.champions@[i].name@
                != self.champions@[j].name@
        &&& forall|i: int, j: int|
            0 <= i < j < self.traits@.len() ==> self.traits@[i].name@ != self.traits@[j].name@
    }

    /// Checks that no champion name and no trait name occurs twice in the
    /// loaded tables.
    pub fn validate_names(&self) -> (b: bool)
        ensures
            b == self.names_unique(),
    {
        let mut j: usize = 0;
        while j < self.champions.len()
            invariant
                j <= self.champions@.len(),
                forall|p: int, q: int|
                    0 <= p < q < j ==> self.champions@[p].name@ != self.champions@[q].name@,
            decreases self.champions@.len() - j,
        {
            let mut k: usize = 0;
            while k < j
                invariant
                    k <= j,
                    forall|p: int| 0 <= p < k ==> self.champions@[p].name@ != self.champions@[j as int].name@,
                decreases j - k,
            {
                if self.champions[k].name == self.champions[j].name {
                    return false;
                }
                k += 1;
            }
            j += 1;
        }
        let mut j2: usize = 0;
        while j2 < self.traits.len()
            invariant
                j2 <= self.traits@.len(),
                forall|p: int, q: int|
                    0 <= p < q < j2 ==> self.traits@[p].name@ != self.traits@[q].name@,
            decreases self.traits@.len() - j2,
        {
            let mut k2: usize = 0;
            while k2 < j2
                invariant
                    k2 <= j2,
                    forall|p: int| 0 <= p < k2 ==> self.traits@[p].name@ != self.traits@[j2 as int].name@,
                decreases j2 - k2,
            {
                if self.traits[k2].name == self.traits[j2].name {
                    return false;
                }
                k2 += 1;
            }
            j2 += 1;
        }
        true
    }

    /// Checks the data-model invariant of a loaded roster: trait identifiers
    /// in range and pairwise distinct per champion, every cost positive.
    pub fn validate(&self) -> (b: bool)
        ensures
            b == self.wf(),
    {
        let mut i: usize = 0;
        while i < self.champions.len()
            invariant
                i <= self.champions@.len(),
                forall|s: int|
                    0 <= s < i ==> champion_wf(
                        #[trigger] self.champions@[s],
                        self.traits@.len() as int,
                    ),
            decreases self.champions@.len() - i,
        {
            let c = &self.champions[i];
            if c.cost < 1 {
                return false;
            }
            let mut j: usize = 0;
            while j < c.traits.len()
                invariant
                    j <= c.traits@.len(),
                    forall|p: int| 0 <= p < j ==> (#[trigger] c.traits@[p]) < self.traits@.len(),
                    forall|p: int, q: int|
                        0 <= p < q < j ==> c.traits@[p] != c.traits@[q],
                decreases c.traits@.len() - j,
            {
                let tid = c.traits[j];
                if tid >= self.traits.len() {
                    return false;
                }
                let mut k: usize = 0;
                while k < j
                    invariant
                        k <= j < c.traits@.len(),
                        forall|p: int| 0 <= p < k ==> c.traits@[p] != c.traits@[j as int],
                    decreases j - k,
                {
                    if c.traits[k] == tid {
                        return false;
                    }
                    k += 1;
                }
                j += 1;
            }
            i += 1;
        }
        true
    }
}

} // verus!
