//! The synergy evaluator: per-trait membership counts of a candidate team,
//! the exact-breakpoint predicate, and the bounded-waste predicate.

use vstd::prelude::*;

use crate::rules::{spec_waste, waste_table_valid, Champion, Roster, TraitDef};

verus! {

/// The champion `c` carries the trait with identifier `t`.
pub open spec fn champ_has_trait(c: Champion, t: int) -> bool {
    exists|j: int| 0 <= j < c.traits@.len() && (#[trigger] c.traits@[j]) as int == t
}

/// How many members of `team` carry the trait `t`.
pub open spec fn trait_count(champs: Seq<Champion>, team: Seq<usize>, t: int) -> nat
    decreases team.len(),
{
    if team.len() == 0 {
        0
    } else {
        trait_count(champs, team.drop_last(), t) + (if champ_has_trait(
            champs[team.last() as int],
            t,
        ) {
            1nat
        } else {
            0nat
        })
    }
}

/// Every member's identifier points into the champion catalog.
pub open spec fn team_ids_valid(team: Seq<usize>, n_champs: int) -> bool {
    forall|i: int| 0 <= i < team.len() ==> (#[trigger] team[i]) < n_champs
}

/// A team is a set: its member identifiers are pairwise distinct.
pub open spec fn team_distinct(team: Seq<usize>) -> bool {
    forall|i: int, j: int| 0 <= i < j < team.len() ==> team[i] != team[j]
}

/// Computes the per-trait membership counts of `team`: one entry per trait of
/// the catalog, entry `t` holding the number of members that carry trait `t`.
pub fn count_team_traits(roster: &Roster, team: &Vec<usize>) -> (counts: Vec<u8>)
    requires
        roster.wf(),
        team_ids_valid(team@, roster.champions@.len() as int),
        team@.len() <= 9,
    ensures
        counts@.len() == roster.traits@.len(),
        forall|t: int|
            0 <= t < counts@.len() ==> (#[trigger] counts@[t]) as int == trait_count(
                roster.champions@,
                team@,
                t,
            ),
        forall|t: int| 0 <= t < counts@.len() ==> (#[trigger] counts@[t]) <= team@.len(),
{
    let n_traits = roster.traits.len();
    let mut counts: Vec<u8> = Vec::new();
    let mut z: usize = 0;
    while z < n_traits
        invariant
            counts@.len() == z,
            z <= n_traits,
            forall|t: int| 0 <= t < z ==> (#[trigger] counts@[t]) == 0,
        decreases n_traits - z,
    {
        counts.push(0);
        z += 1;
    }
    assert(forall|t: int|
        0 <= t < n_traits ==> trait_count(roster.champions@, team@.take(0), t) == 0);
    let mut i: usize = 0;
    while i < team.len()
        invariant
            i <= team@.len(),
            counts@.len() == n_traits,
            forall|t: int|
                0 <= t < n_traits ==> (#[trigger] counts@[t]) as int == trait_count(
                    roster.champions@,
                    team@.take(i as int),
                    t,
                ),
            forall|t: int| 0 <= t < n_traits ==> (#[trigger] counts@[t]) <= i,
        decreases team@.len() - i,
    {
        let member = team[i];
        let ghost champ = roster.champions@[member as int];
        let ghost counts_before = counts@;
        let ctraits = &roster.champions[member].traits;
        let mut j: usize = 0;
        while j < ctraits.len()
            invariant
                j <= ctraits@.len(),
                counts@.len() == n_traits,
                forall|t: int|
                    0 <= t < n_traits ==> (#[trigger] counts@[t]) as int == counts_before[t] + (
                    if exists|p: int| 0 <= p < j && (#[trigger] ctraits@[p]) as int == t {
                        1int
                    } else {
                        0int
                    }),
            decreases ctraits@.len() - j,
        {
            let tid = ctraits[j];
            assert(tid < n_traits);
            assert(!(exists|p: int| 0 <= p < j && (#[trigger] ctraits@[p]) as int == tid as int));
            let cur = counts[tid];
            assert(cur as int == counts_before[tid as int]);
            assert(counts_before[tid as int] <= i < 9) by {
                assert(counts_before[tid as int] <= i);
            }
            counts.set(tid, cur + 1);
            proof {
                assert forall|t: int| 0 <= t < n_traits implies (#[trigger] counts@[t]) as int
                    == counts_before[t] + (if exists|p: int|
                    0 <= p < j + 1 && (#[trigger] ctraits@[p]) as int == t {
                    1int
                } else {
                    0int
                }) by {
                    if t == tid as int {
                        assert(ctraits@[j as int] as int == t);
                    } else {
                        if exists|p: int| 0 <= p < j + 1 && (#[trigger] ctraits@[p]) as int == t {
                            let p = choose|p: int|
                                0 <= p < j + 1 && (#[trigger] ctraits@[p]) as int == t;
                            assert(p < j);
                        }
                    }
                }
            }
            j += 1;
        }
        proof {
            assert(team@.take(i + 1).drop_last() =~= team@.take(i as int));
            assert(team@.take(i + 1).last() == team@[i as int]);
            assert forall|t: int| 0 <= t < n_traits implies (#[trigger] counts@[t]) as int
                == trait_count(roster.champions@, team@.take(i + 1), t) by {
                assert(counts@[t] as int == counts_before[t] + (if exists|p: int|
                    0 <= p < ctraits@.len() && (#[trigger] ctraits@[p]) as int == t {
                    1int
                } else {
                    0int
                }));
                assert(champ_has_trait(champ, t) <==> exists|p: int|
                    0 <= p < ctraits@.len() && (#[trigger] ctraits@[p]) as int == t);
            }
        }
        i += 1;
    }
    proof {
        assert(team@.take(team@.len() as int) =~= team@);
    }
    counts
}

/// The value `v` is one of the breakpoints of the trait `td`.
pub open spec fn breakpoint_hit(td: TraitDef, v: int) -> bool {
    exists|i: int| 0 <= i < td.breakpoints@.len() && (#[trigger] td.breakpoints@[i]) as int == v
}

/// The team meets the exact-breakpoint rule: for every trait of the catalog,
/// the team's count of that trait is itself one of the trait's breakpoints.
pub open spec fn spec_perfect_synergy(
    champs: Seq<Champion>,
    traits: Seq<TraitDef>,
    team: Seq<usize>,
) -> bool {
    forall|t: int|
        0 <= t < traits.len() ==> breakpoint_hit(
            #[trigger] traits[t],
            trait_count(champs, team, t) as int,
        )
}

/// Decides the exact mode (law): accepted iff every trait's membership count
/// — including traits carried by no member, whose count is zero — lies
/// exactly on one of that trait's breakpoints.
pub fn is_perfect_synergy(roster: &Roster, team: &Vec<usize>) -> (r: bool)
    requires
        roster.wf(),
        team_ids_valid(team@, roster.champions@.len() as int),
        team@.len() <= 9,
    ensures
        r == spec_perfect_synergy(roster.champions@, roster.traits@, team@),
{
    let counts = count_team_traits(roster, team);
    let mut t: usize = 0;
    while t < roster.traits.len()
        invariant
            t <= roster.traits@.len(),
            forall|s: int|
                0 <= s < t ==> breakpoint_hit(
                    #[trigger] roster.traits@[s],
                    trait_count(roster.champions@, team@, s) as int,
                ),
        decreases roster.traits@.len() - t,
    {
        let bps = &roster.traits[t].breakpoints;
        let want = counts[t];
        let mut found = false;
        let mut i: usize = 0;
        while i < bps.len()
            invariant
                i <= bps@.len(),
                found == exists|p: int| 0 <= p < i && (#[trigger] bps@[p]) == want,
            decreases bps@.len() - i,
        {
            if bps[i] == want {
                found = true;
            }
            i += 1;
        }
        if !found {
            assert(!breakpoint_hit(
                roster.traits@[t as int],
                trait_count(roster.champions@, team@, t as int) as int,
            ));
            return false;
        }
        t += 1;
    }
    true
}

/// The summed waste of the first `t` traits of the catalog at the team's
/// membership counts.
pub open spec fn total_waste_upto(
    champs: Seq<Champion>,
    traits: Seq<TraitDef>,
    team: Seq<usize>,
    t: int,
) -> int
    decreases t,
{
    if t <= 0 {
        0
    } else {
        total_waste_upto(champs, traits, team, t - 1) + spec_waste(
            traits[t - 1].breakpoints@,
            trait_count(champs, team, t - 1) as int,
        )
    }
}

/// The team's total waste: the sum over every trait of the catalog of that
/// trait's waste at the team's membership count.
pub open spec fn team_total_waste(
    champs: Seq<Champion>,
    traits: Seq<TraitDef>,
    team: Seq<usize>,
) -> int {
    total_waste_upto(champs, traits, team, traits.len() as int)
}

/// Computes the team's total waste by summing the waste-table entries at the
/// team's per-trait counts.
pub fn team_waste(roster: &Roster, wt: &Vec<Vec<u8>>, team: &Vec<usize>) -> (w: u64)
    requires
        roster.wf(),
        waste_table_valid(wt@, roster.traits@),
        team_ids_valid(team@, roster.champions@.len() as int),
        team@.len() <= 9,
        roster.traits@.len() <= 0xffff_ffff,
    ensures
        w as int == team_total_waste(roster.champions@, roster.traits@, team@),
{
    let counts = count_team_traits(roster, team);
    let mut w: u64 = 0;
    let mut t: usize = 0;
    while t < roster.traits.len()
        invariant
            t <= roster.traits@.len(),
            w as int == total_waste_upto(roster.champions@, roster.traits@, team@, t as int),
            w <= 9 * t,
        decreases roster.traits@.len() - t,
    {
        let c = counts[t];
        assert(c < 10);
        let entry = wt[t][c as usize];
        proof {
            crate::rules::lemma_waste_props(
                roster.traits@[t as int].breakpoints@,
                trait_count(roster.champions@, team@, t as int) as int,
            );
        }
        assert(entry <= 9);
        w = w + entry as u64;
        t += 1;
    }
    w
}

/// Decides the bounded-waste mode (law): accepted iff the team's total waste
/// over all traits is at most the budget `n`.
pub fn less_than_n_wasted(roster: &Roster, wt: &Vec<Vec<u8>>, team: &Vec<usize>, n: u8) -> (r:
    bool)
    requires
        roster.wf(),
        waste_table_valid(wt@, roster.traits@),
        team_ids_valid(team@, roster.champions@.len() as int),
        team@.len() <= 9,
        roster.traits@.len() <= 0xffff_ffff,
    ensures
        r == (team_total_waste(roster.champions@, roster.traits@, team@) <= n as int),
{
    let w = team_waste(roster, wt, team);
    w <= n as u64
}

/// Monotonicity of bounded-waste acceptance (law): raising the budget never
/// rejects a team that a smaller budget accepted.
pub proof fn lemma_bounded_waste_monotone(
    champs: Seq<Champion>,
    traits: Seq<TraitDef>,
    team: Seq<usize>,
    n1: int,
    n2: int,
)
    requires
        team_total_waste(champs, traits, team) <= n1,
        n1 <= n2,
    ensures
        team_total_waste(champs, traits, team) <= n2,
{
}

} // verus!
