//! The team statistics aggregator: for a team accepted by the bounded-waste
//! rule, the per-trait activity report and the cost statistics.

use vstd::prelude::*;

use crate::rules::{spec_waste, waste_table_valid, Champion, Roster, TraitDef};
use crate::synergy::{
    count_team_traits, team_distinct, team_ids_valid, team_total_waste, total_waste_upto,
    trait_count,
};

verus! {

/// The statistics record of one accepted team.
pub struct TeamResult {
    /// Number of members.
    pub size: u8,
    /// Member names, in team order.
    pub team: Vec<String>,
    /// `(trait name, active level)` for each trait whose level is reported:
    /// level `count - waste`, reported when it is non-zero or when the count
    /// is positive with no waste.
    pub active_traits: Vec<(String, u8)>,
    /// `(trait name, waste)` for each trait with positive waste.
    pub wasted_traits: Vec<(String, u8)>,
    /// Sum of the per-trait waste over every trait of the catalog, including
    /// traits omitted from `wasted_traits` because their waste is zero.
    pub total_wasted_traits: u64,
    /// Sum of the member costs.
    pub total_cost: u32,
    /// `(name, cost)` of the most expensive member; the first member reaching
    /// the maximum wins ties.
    pub max_cost: (String, u8),
    /// `(name, cost)` of the least expensive member; the first member
    /// reaching the minimum wins ties.
    pub min_cost: (String, u8),
}

/// The summed cost of the team's members.
pub open spec fn sum_costs(champs: Seq<Champion>, team: Seq<usize>) -> int
    decreases team.len(),
{
    if team.len() == 0 {
        0
    } else {
        sum_costs(champs, team.drop_last()) + champs[team.last() as int].cost
    }
}

/// The `(name, waste)` pairs of the first `t` traits with positive waste, in
/// catalog order.
pub open spec fn wasted_pairs(
    champs: Seq<Champion>,
    traits: Seq<TraitDef>,
    team: Seq<usize>,
    t: int,
) -> Seq<(String, u8)>
    decreases t,
{
    if t <= 0 {
        Seq::empty()
    } else {
        let rest = wasted_pairs(champs, traits, team, t - 1);
        let w = spec_waste(traits[t - 1].breakpoints@, trait_count(champs, team, t - 1) as int);
        if w > 0 {
            rest.push((traits[t - 1].name, w as u8))
        } else {
            rest
        }
    }
}

/// The `(name, level)` pairs of the first `t` traits whose activity is
/// reported, in catalog order: level `count - waste`, reported when count and
/// waste differ or when the count is positive and the waste zero.
pub open spec fn active_pairs(
    champs: Seq<Champion>,
    traits: Seq<TraitDef>,
    team: Seq<usize>,
    t: int,
) -> Seq<(String, u8)>
    decreases t,
{
    if t <= 0 {
        Seq::empty()
    } else {
        let rest = active_pairs(champs, traits, team, t - 1);
        let c = trait_count(champs, team, t - 1) as int;
        let w = spec_waste(traits[t - 1].breakpoints@, c);
        if c != w || (c > 0 && w == 0) {
            rest.push((traits[t - 1].name, (c - w) as u8))
        } else {
            rest
        }
    }
}

/// `mc` names the first member with the team's maximum cost.
pub open spec fn is_first_max(champs: Seq<Champion>, team: Seq<usize>, mc: (String, u8)) -> bool {
    exists|i: int|
        {
            &&& 0 <= i < team.len()
            &&& mc.0 == champs[#[trigger] team[i] as int].name
            &&& mc.1 == champs[team[i] as int].cost
            &&& forall|j: int| 0 <= j < team.len() ==> champs[#[trigger] team[j] as int].cost <= mc.1
            &&& forall|j: int| 0 <= j < i ==> champs[#[trigger] team[j] as int].cost < mc.1
        }
}

/// `mc` names the first member with the team's minimum cost.
pub open spec fn is_first_min(champs: Seq<Champion>, team: Seq<usize>, mc: (String, u8)) -> bool {
    exists|i: int|
        {
            &&& 0 <= i < team.len()
            &&& mc.0 == champs[#[trigger] team[i] as int].name
            &&& mc.1 == champs[team[i] as int].cost
            &&& forall|j: int| 0 <= j < team.len() ==> champs[#[trigger] team[j] as int].cost >= mc.1
            &&& forall|j: int| 0 <= j < i ==> champs[#[trigger] team[j] as int].cost > mc.1
        }
}

/// `r` is the faithful statistics record of `team`: the member names in team
/// order, the reported active and wasted traits in catalog order, the total
/// waste over all traits, the summed cost, and the first-occurrence maximum
/// and minimum cost members.
pub open spec fn is_aggregate_of(
    champs: Seq<Champion>,
    traits: Seq<TraitDef>,
    team: Seq<usize>,
    r: TeamResult,
) -> bool {
    &&& r.size as int == team.len()
    &&& r.team@.len() == team.len()
    &&& forall|i: int| 0 <= i < team.len() ==> r.team@[i] == champs[#[trigger] team[i] as int].name
    &&& r.active_traits@ == active_pairs(champs, traits, team, traits.len() as int)
    &&& r.wasted_traits@ == wasted_pairs(champs, traits, team, traits.len() as int)
    &&& r.total_wasted_traits as int == team_total_waste(champs, traits, team)
    &&& r.total_cost as int == sum_costs(champs, team)
    &&& is_first_max(champs, team, r.max_cost)
    &&& is_first_min(champs, team, r.min_cost)
}

/// The member names of a team, in team order.
pub fn member_names(roster: &Roster, team: &Vec<usize>) -> (names: Vec<String>)
    requires
        team_ids_valid(team@, roster.champions@.len() as int),
    ensures
        names@.len() == team@.len(),
        forall|m: int|
            0 <= m < team@.len() ==> names@[m] == roster.champions@[#[trigger] team@[m] as int].name,
{
    let ghost champs = roster.champions@;
    let mut names: Vec<String> = Vec::new();
    let mut i: usize = 0;
    while i < team.len()
        invariant
            i <= team@.len(),
            names@.len() == i,
            forall|m: int| 0 <= m < i ==> names@[m] == champs[#[trigger] team@[m] as int].name,
        decreases team@.len() - i,
    {
        names.push(roster.champions[team[i]].name.clone());
        i += 1;
    }
    names
}

fn trait_report(roster: &Roster, wt: &Vec<Vec<u8>>, team: &Vec<usize>) -> (r: (
    Vec<(String, u8)>,
    Vec<(String, u8)>,
    u64,
))
    requires
        roster.wf(),
        waste_table_valid(wt@, roster.traits@),
        team_ids_valid(team@, roster.champions@.len() as int),
        team@.len() <= 9,
        roster.traits@.len() <= 0xffff_ffff,
    ensures
        r.0@ == active_pairs(roster.champions@, roster.traits@, team@, roster.traits@.len() as int),
        r.1@ == wasted_pairs(roster.champions@, roster.traits@, team@, roster.traits@.len() as int),
        r.2 as int == team_total_waste(roster.champions@, roster.traits@, team@),
{
    let ghost champs = roster.champions@;
    let ghost traits = roster.traits@;
    let counts = count_team_traits(roster, team);
    let mut active: Vec<(String, u8)> = Vec::new();
    let mut wasted: Vec<(String, u8)> = Vec::new();
    let mut total_waste: u64 = 0;
    let mut t: usize = 0;
    while t < roster.traits.len()
        invariant
            t <= traits.len(),
            active@ == active_pairs(champs, traits, team@, t as int),
            wasted@ == wasted_pairs(champs, traits, team@, t as int),
            total_waste as int == total_waste_upto(champs, traits, team@, t as int),
            total_waste <= 9 * t,
        decreases traits.len() - t,
    {
        let c = counts[t];
        proof {
            crate::rules::lemma_waste_props(
                traits[t as int].breakpoints@,
                trait_count(champs, team@, t as int) as int,
            );
        }
        let w = wt[t][c as usize];
        assert(w <= c);
        total_waste = total_waste + w as u64;
        if w > 0 {
            wasted.push((roster.traits[t].name.clone(), w));
        }
        if c != w || (c > 0 && w == 0) {
            active.push((roster.traits[t].name.clone(), c - w));
        }
        t += 1;
    }
    (active, wasted, total_waste)
}

fn cost_stats(roster: &Roster, team: &Vec<usize>) -> (r: (u32, (String, u8), (String, u8)))
    requires
        team_ids_valid(team@, roster.champions@.len() as int),
        1 <= team@.len() <= 9,
    ensures
        r.0 as int == sum_costs(roster.champions@, team@),
        is_first_max(roster.champions@, team@, r.1),
        is_first_min(roster.champions@, team@, r.2),
{
    let ghost champs = roster.champions@;
    let first = team[0];
    let mut total: u32 = roster.champions[first].cost as u32;
    let mut max_name: String = roster.champions[first].name.clone();
    let mut max_c: u8 = roster.champions[first].cost;
    let mut min_name: String = roster.champions[first].name.clone();
    let mut min_c: u8 = roster.champions[first].cost;
    let mut i2: usize = 1;
    proof {
        assert(team@.take(1).drop_last() =~= team@.take(0));
        assert(team@.take(1).last() == team@[0]);
        assert(team@.take(1)[0] == team@[0]);
        assert(sum_costs(champs, team@.take(0)) == 0);
    }
    while i2 < team.len()
        invariant
            1 <= i2 <= team@.len(),
            total as int == sum_costs(champs, team@.take(i2 as int)),
            total <= 255 * i2,
            is_first_max(champs, team@.take(i2 as int), (max_name, max_c)),
            is_first_min(champs, team@.take(i2 as int), (min_name, min_c)),
        decreases team@.len() - i2,
    {
        let member = team[i2];
        let cost = roster.champions[member].cost;
        proof {
            assert(team@.take(i2 + 1).drop_last() =~= team@.take(i2 as int));
            assert(team@.take(i2 + 1).last() == team@[i2 as int]);
        }
        total = total + cost as u32;
        let ghost pre = team@.take(i2 as int);
        let ghost post = team@.take(i2 + 1);
        if cost > max_c {
            max_name = roster.champions[member].name.clone();
            max_c = cost;
            proof {
                let gi = i2 as int;
                assert(post[gi] == team@[i2 as int]);
                assert(forall|j: int| 0 <= j < gi ==> post[j] == pre[j]);
                assert(is_first_max(champs, post, (max_name, max_c)));
            }
        } else {
            proof {
                let gi = choose|i: int|
                    {
                        &&& 0 <= i < pre.len()
                        &&& max_name == champs[#[trigger] pre[i] as int].name
                        &&& max_c == champs[pre[i] as int].cost
                        &&& forall|j: int|
                            0 <= j < pre.len() ==> champs[#[trigger] pre[j] as int].cost <= max_c
                        &&& forall|j: int|
                            0 <= j < i ==> champs[#[trigger] pre[j] as int].cost < max_c
                    };
                assert(forall|j: int| 0 <= j < pre.len() ==> post[j] == pre[j]);
                assert(post[gi] == pre[gi]);
                assert(is_first_max(champs, post, (max_name, max_c)));
            }
        }
        if cost < min_c {
            min_name = roster.champions[member].name.clone();
            min_c = cost;
            proof {
                let gi = i2 as int;
                assert(post[gi] == team@[i2 as int]);
                assert(forall|j: int| 0 <= j < gi ==> post[j] == pre[j]);
                assert(is_first_min(champs, post, (min_name, min_c)));
            }
        } else {
            proof {
                let gi = choose|i: int|
                    {
                        &&& 0 <= i < pre.len()
                        &&& min_name == champs[#[trigger] pre[i] as int].name
                        &&& min_c == champs[pre[i] as int].cost
                        &&& forall|j: int|
                            0 <= j < pre.len() ==> champs[#[trigger] pre[j] as int].cost >= min_c
                        &&& forall|j: int|
                            0 <= j < i ==> champs[#[trigger] pre[j] as int].cost > min_c
                    };
                assert(forall|j: int| 0 <= j < pre.len() ==> post[j] == pre[j]);
                assert(post[gi] == pre[gi]);
                assert(is_first_min(champs, post, (min_name, min_c)));
            }
        }
        i2 += 1;
    }
    proof {
        assert(team@.take(team@.len() as int) =~= team@);
    }
    (total, (max_name, max_c), (min_name, min_c))
}

/// Builds the statistics record of one team (law): the total cost is the sum
/// of the member costs, and the total waste is the sum of the per-trait waste
/// values, including traits omitted from the wasted-traits report.
pub fn aggregate_team(roster: &Roster, wt: &Vec<Vec<u8>>, team: &Vec<usize>) -> (r: TeamResult)
    requires
        roster.wf(),
        waste_table_valid(wt@, roster.traits@),
        team_ids_valid(team@, roster.champions@.len() as int),
        team_distinct(team@),
        1 <= team@.len() <= 9,
        roster.traits@.len() <= 0xffff_ffff,
    ensures
        is_aggregate_of(roster.champions@, roster.traits@, team@, r),
{
    let names = member_names(roster, team);
    let (active, wasted, total_waste) = trait_report(roster, wt, team);
    let (total, max_cost, min_cost) = cost_stats(roster, team);
    TeamResult {
        size: team.len() as u8,
        team: names,
        active_traits: active,
        wasted_traits: wasted,
        total_wasted_traits: total_waste,
        total_cost: total,
        max_cost,
        min_cost,
    }
}

} // verus!
