//! The search drivers: enumerate every team of a requested size, keep the
//! teams a classification predicate accepts, and report them — statistics
//! records in bounded-waste mode, plain name lists in exact mode.

use vstd::prelude::*;

use crate::aggregate::{aggregate_team, is_aggregate_of, member_names, TeamResult};
use crate::combos::{combo_ok, combos_from, generate_combinations};
use crate::rules::{waste_table_valid, Champion, ConfigError, Roster, TraitDef};
use crate::synergy::{
    is_perfect_synergy, less_than_n_wasted, spec_perfect_synergy, team_distinct, team_ids_valid,
    team_total_waste,
};

verus! {

/// The subsequence of `combos` whose total waste is within the budget `n`,
/// in generation order.
pub open spec fn accepted_within(
    champs: Seq<Champion>,
    traits: Seq<TraitDef>,
    combos: Seq<Seq<usize>>,
    n: int,
) -> Seq<Seq<usize>>
    decreases combos.len(),
{
    if combos.len() == 0 {
        Seq::empty()
    } else {
        let rest = accepted_within(champs, traits, combos.drop_last(), n);
        if team_total_waste(champs, traits, combos.last()) <= n {
            rest.push(combos.last())
        } else {
            rest
        }
    }
}

/// The subsequence of `combos` that meet the exact-breakpoint rule, in
/// generation order.
pub open spec fn accepted_perfect(
    champs: Seq<Champion>,
    traits: Seq<TraitDef>,
    combos: Seq<Seq<usize>>,
) -> Seq<Seq<usize>>
    decreases combos.len(),
{
    if combos.len() == 0 {
        Seq::empty()
    } else {
        let rest = accepted_perfect(champs, traits, combos.drop_last());
        if spec_perfect_synergy(champs, traits, combos.last()) {
            rest.push(combos.last())
        } else {
            rest
        }
    }
}

/// Searches one team size in bounded-waste mode: every size-`k` team drawn
/// from the roster whose total waste is at most `n`, each with its statistics
/// record, in generation order.
pub fn teams_within_budget(roster: &Roster, wt: &Vec<Vec<u8>>, k: usize, n: u8) -> (r: Vec<
    TeamResult,
>)
    requires
        roster.wf(),
        waste_table_valid(wt@, roster.traits@),
        1 <= k <= 9,
        roster.traits@.len() <= 0xffff_ffff,
    ensures
        ({
            let acc = accepted_within(
                roster.champions@,
                roster.traits@,
                combos_from(0, roster.champions@.len() as int, k as int),
                n as int,
            );
            &&& r@.len() == acc.len()
            &&& forall|i: int|
                0 <= i < r@.len() ==> is_aggregate_of(
                    roster.champions@,
                    roster.traits@,
                    acc[i],
                    #[trigger] r@[i],
                )
        }),
{
    let ghost champs = roster.champions@;
    let ghost traits = roster.traits@;
    let n_champs = roster.champions.len();
    let combos = generate_combinations(n_champs, k);
    let ghost combos_spec = combos_from(0, n_champs as int, k as int);
    let mut r: Vec<TeamResult> = Vec::new();
    let mut i: usize = 0;
    while i < combos.len()
        invariant
            i <= combos@.len(),
            r@.len() == accepted_within(champs, traits, combos_spec.take(i as int), n as int).len(),
            forall|m: int|
                0 <= m < r@.len() ==> is_aggregate_of(
                    champs,
                    traits,
                    accepted_within(champs, traits, combos_spec.take(i as int), n as int)[m],
                    #[trigger] r@[m],
                ),
        decreases combos@.len() - i,
    {
        let team = &combos[i];
        proof {
            assert(combo_ok(team@, 0, n_champs as int, k as int));
            assert(team_ids_valid(team@, champs.len() as int));
            assert(team_distinct(team@));
            assert(combos_spec.take(i + 1).drop_last() =~= combos_spec.take(i as int));
            assert(combos_spec.take(i + 1).last() == combos_spec[i as int]);
        }
        if less_than_n_wasted(roster, wt, team, n) {
            let result = aggregate_team(roster, wt, team);
            r.push(result);
        }
        i += 1;
    }
    proof {
        assert(combos_spec.take(combos_spec.len() as int) =~= combos_spec);
    }
    r
}

/// The accepted bounded-waste teams of every size from `min` to `max`, in
/// order of size and then of generation.
pub open spec fn accepted_all_sizes(
    champs: Seq<Champion>,
    traits: Seq<TraitDef>,
    min: int,
    max: int,
    n: int,
) -> Seq<Seq<usize>>
    decreases max - min + 1,
{
    if max < min {
        Seq::empty()
    } else {
        accepted_all_sizes(champs, traits, min, max - 1, n) + accepted_within(
            champs,
            traits,
            combos_from(0, champs.len() as int, max),
            n,
        )
    }
}

/// Runs the bounded-waste search over every team size in `min..=max`: the
/// qualifying teams of each size, in order of size and then of generation.
/// Rejects a size range that does not satisfy
/// `1 <= min <= max <= roster size` with `max <= 9`.
pub fn all_teams_within_budget(roster: &Roster, wt: &Vec<Vec<u8>>, min: usize, max: usize, n: u8)
    -> (r: Result<Vec<TeamResult>, ConfigError>)
    requires
        roster.wf(),
        waste_table_valid(wt@, roster.traits@),
        roster.traits@.len() <= 0xffff_ffff,
    ensures
        r is Ok <==> (1 <= min <= max <= roster.champions@.len() && max <= 9),
        r matches Err(e) ==> e == ConfigError::InvalidSizeRange,
        r matches Ok(v) ==> ({
            let acc = accepted_all_sizes(
                roster.champions@,
                roster.traits@,
                min as int,
                max as int,
                n as int,
            );
            &&& v@.len() == acc.len()
            &&& forall|i: int|
                0 <= i < v@.len() ==> is_aggregate_of(
                    roster.champions@,
                    roster.traits@,
                    acc[i],
                    #[trigger] v@[i],
                )
        }),
{
    let ghost champs = roster.champions@;
    let ghost traits = roster.traits@;
    if min < 1 || min > max || max > roster.champions.len() || max > 9 {
        return Err(ConfigError::InvalidSizeRange);
    }
    let mut r: Vec<TeamResult> = Vec::new();
    let mut k: usize = min;
    assert(accepted_all_sizes(champs, traits, min as int, min as int - 1, n as int) =~= Seq::<
        Seq<usize>,
    >::empty());
    while k <= max
        invariant
            min <= k <= max + 1,
            r@.len() == accepted_all_sizes(champs, traits, min as int, k - 1, n as int).len(),
            forall|m: int|
                0 <= m < r@.len() ==> is_aggregate_of(
                    champs,
                    traits,
                    accepted_all_sizes(champs, traits, min as int, k - 1, n as int)[m],
                    #[trigger] r@[m],
                ),
        decreases max + 1 - k,
    {
        let mut part = teams_within_budget(roster, wt, k, n);
        let ghost r_before = r@;
        let ghost part_spec = accepted_within(
            champs,
            traits,
            combos_from(0, champs.len() as int, k as int),
            n as int,
        );
        r.append(&mut part);
        proof {
            let acc_new = accepted_all_sizes(champs, traits, min as int, k as int, n as int);
            let acc_old = accepted_all_sizes(champs, traits, min as int, k - 1, n as int);
            assert(acc_new == acc_old + part_spec);
            assert forall|m: int| 0 <= m < r@.len() implies is_aggregate_of(
                champs,
                traits,
                acc_new[m],
                #[trigger] r@[m],
            ) by {
                if m < acc_old.len() {
                    assert(r@[m] == r_before[m]);
                    assert(acc_new[m] == acc_old[m]);
                } else {
                    assert(acc_new[m] == part_spec[m - acc_old.len()]);
                }
            }
        }
        k += 1;
    }
    Ok(r)
}

/// Searches one team size in exact mode: every size-`k` team for which every
/// trait's count lands exactly on a breakpoint, each projected to its list of
/// member names, in generation order.
pub fn perfect_synergy_teams(roster: &Roster, k: usize) -> (r: Vec<Vec<String>>)
    requires
        roster.wf(),
        1 <= k <= 9,
    ensures
        ({
            let acc = accepted_perfect(
                roster.champions@,
                roster.traits@,
                combos_from(0, roster.champions@.len() as int, k as int),
            );
            &&& r@.len() == acc.len()
            &&& forall|i: int| 0 <= i < r@.len() ==> (#[trigger] r@[i])@.len() == acc[i].len()
            &&& forall|i: int, j: int|
                0 <= i < r@.len() && 0 <= j < acc[i].len() ==> (#[trigger] r@[i]@[j])
                    == roster.champions@[acc[i][j] as int].name
        }),
{
    let ghost champs = roster.champions@;
    let ghost traits = roster.traits@;
    let n_champs = roster.champions.len();
    let combos = generate_combinations(n_champs, k);
    let ghost combos_spec = combos_from(0, n_champs as int, k as int);
    let mut r: Vec<Vec<String>> = Vec::new();
    let mut i: usize = 0;
    while i < combos.len()
        invariant
            i <= combos@.len(),
            r@.len() == accepted_perfect(champs, traits, combos_spec.take(i as int)).len(),
            forall|m: int|
                0 <= m < r@.len() ==> (#[trigger] r@[m])@.len() == accepted_perfect(
                    champs,
                    traits,
                    combos_spec.take(i as int),
                )[m].len(),
            forall|m: int, j: int|
                0 <= m < r@.len() && 0 <= j < accepted_perfect(
                    champs,
                    traits,
                    combos_spec.take(i as int),
                )[m].len() ==> (#[trigger] r@[m]@[j]) == champs[accepted_perfect(
                    champs,
                    traits,
                    combos_spec.take(i as int),
                )[m][j] as int].name,
        decreases combos@.len() - i,
    {
        let team = &combos[i];
        proof {
            assert(combo_ok(team@, 0, n_champs as int, k as int));
            assert(team_ids_valid(team@, champs.len() as int));
            assert(combos_spec.take(i + 1).drop_last() =~= combos_spec.take(i as int));
            assert(combos_spec.take(i + 1).last() == combos_spec[i as int]);
        }
        if is_perfect_synergy(roster, team) {
            let names = member_names(roster, team);
            r.push(names);
        }
        i += 1;
    }
    proof {
        assert(combos_spec.take(combos_spec.len() as int) =~= combos_spec);
    }
    r
}

} // verus!
