use synergy::aggregate::aggregate_team;
use synergy::combos::generate_combinations;
use synergy::rules::{compute_waste_table, Champion, ConfigError, Roster, TraitDef};
use synergy::search::{all_teams_within_budget, perfect_synergy_teams, teams_within_budget};
use synergy::synergy::{is_perfect_synergy, less_than_n_wasted, team_waste};

fn champ(name: &str, cost: u8, traits: Vec<usize>) -> Champion {
    Champion { name: name.to_string(), cost, traits }
}

fn trait_def(name: &str, breakpoints: Vec<u8>) -> TraitDef {
    TraitDef { name: name.to_string(), breakpoints }
}

/// The example scenario: A(cost 1, {X}), B(cost 2, {X}), C(cost 3, {Y});
/// X breakpoints {0, 2}, Y breakpoints {0, 1}.
fn scenario_roster() -> Roster {
    Roster {
        champions: vec![
            champ("A", 1, vec![0]),
            champ("B", 2, vec![0]),
            champ("C", 3, vec![1]),
        ],
        traits: vec![trait_def("X", vec![0, 2]), trait_def("Y", vec![0, 1])],
    }
}

#[test]
fn scenario_team_ab_accepted_in_both_modes() {
    let roster = scenario_roster();
    assert!(roster.validate());
    let wt = compute_waste_table(&roster.traits).unwrap();
    let team_ab: Vec<usize> = vec![0, 1];
    // count(X) = 2 (a breakpoint, waste 0), count(Y) = 0 (waste 0).
    assert!(is_perfect_synergy(&roster, &team_ab));
    assert!(less_than_n_wasted(&roster, &wt, &team_ab, 0));
    assert_eq!(team_waste(&roster, &wt, &team_ab), 0);
    let r = aggregate_team(&roster, &wt, &team_ab);
    assert_eq!(r.size, 2);
    assert_eq!(r.team, vec!["A".to_string(), "B".to_string()]);
    assert_eq!(r.total_cost, 3);
    assert_eq!(r.total_cost as f64 / r.size as f64, 1.5);
    assert_eq!(r.total_wasted_traits, 0);
    assert!(r.wasted_traits.is_empty());
    // X is clean at a non-zero count, so it is reported active at level 2;
    // Y has count 0 and waste 0, so it is not reported.
    assert_eq!(r.active_traits, vec![("X".to_string(), 2)]);
    assert_eq!(r.max_cost, ("B".to_string(), 2));
    assert_eq!(r.min_cost, ("A".to_string(), 1));
}

#[test]
fn scenario_team_ac_needs_waste_budget_one() {
    let roster = scenario_roster();
    let wt = compute_waste_table(&roster.traits).unwrap();
    let team_ac: Vec<usize> = vec![0, 2];
    // count(X) = 1 (nearest breakpoint <= 1 is 0, waste 1), count(Y) = 1 (waste 0).
    assert!(!is_perfect_synergy(&roster, &team_ac));
    assert!(!less_than_n_wasted(&roster, &wt, &team_ac, 0));
    assert!(less_than_n_wasted(&roster, &wt, &team_ac, 1));
    assert_eq!(team_waste(&roster, &wt, &team_ac), 1);
    let r = aggregate_team(&roster, &wt, &team_ac);
    assert_eq!(r.total_cost, 4);
    assert_eq!(r.total_wasted_traits, 1);
    assert_eq!(r.wasted_traits, vec![("X".to_string(), 1)]);
    // X: count 1, waste 1, level 0 and not clean, so omitted; Y: count 1,
    // waste 0, reported at level 1.
    assert_eq!(r.active_traits, vec![("Y".to_string(), 1)]);
    assert_eq!(r.max_cost, ("C".to_string(), 3));
    assert_eq!(r.min_cost, ("A".to_string(), 1));
}

#[test]
fn combinations_of_four_choose_two() {
    let combos = generate_combinations(4, 2);
    let expect: Vec<Vec<usize>> = vec![
        vec![0, 1],
        vec![0, 2],
        vec![0, 3],
        vec![1, 2],
        vec![1, 3],
        vec![2, 3],
    ];
    assert_eq!(combos, expect);
}

#[test]
fn combinations_counts_match_binomials() {
    // C(6, k) for k = 0..=6: 1, 6, 15, 20, 15, 6, 1.
    let expect = [1, 6, 15, 20, 15, 6, 1];
    for k in 0..=6 {
        let combos = generate_combinations(6, k);
        assert_eq!(combos.len(), expect[k]);
        for c in &combos {
            assert_eq!(c.len(), k);
        }
        for i in 0..combos.len() {
            for j in i + 1..combos.len() {
                assert_ne!(combos[i], combos[j]);
            }
        }
    }
}

#[test]
fn combinations_edge_sizes() {
    assert_eq!(generate_combinations(3, 3), vec![vec![0, 1, 2]]);
    let empty_combo: Vec<Vec<usize>> = vec![vec![]];
    assert_eq!(generate_combinations(3, 0), empty_combo);
    assert!(generate_combinations(3, 4).is_empty());
    assert_eq!(generate_combinations(0, 0), empty_combo);
}

#[test]
fn waste_table_values() {
    let traits = vec![trait_def("T", vec![0, 3, 5])];
    let wt = compute_waste_table(&traits).unwrap();
    // Waste at counts 0..=9 for breakpoints {0, 3, 5}.
    assert_eq!(wt, vec![vec![0, 1, 2, 0, 1, 0, 1, 2, 3, 4]]);
}

#[test]
fn waste_table_rejects_uncovered_trait() {
    let traits = vec![trait_def("P", vec![0, 2]), trait_def("Q", vec![2, 4])];
    // Q has no breakpoint <= 0, so count 0 is uncovered.
    assert_eq!(
        compute_waste_table(&traits),
        Err(ConfigError::UncoveredCount(1))
    );
}

#[test]
fn waste_table_rejects_empty_breakpoints() {
    let traits = vec![trait_def("E", vec![])];
    assert_eq!(
        compute_waste_table(&traits),
        Err(ConfigError::UncoveredCount(0))
    );
}

#[test]
fn validate_rejects_bad_rosters() {
    let mut roster = scenario_roster();
    assert!(roster.validate());
    roster.champions[0].traits = vec![7];
    assert!(!roster.validate(), "trait id out of range");
    roster.champions[0].traits = vec![0, 0];
    assert!(!roster.validate(), "duplicate trait id");
    roster.champions[0].traits = vec![0];
    roster.champions[2].cost = 0;
    assert!(!roster.validate(), "zero cost");
}

#[test]
fn name_uniqueness_is_checked() {
    let roster = scenario_roster();
    assert!(roster.validate_names());
    let mut dup_champ = scenario_roster();
    dup_champ.champions[2].name = "A".to_string();
    assert!(!dup_champ.validate_names());
    let mut dup_trait = scenario_roster();
    dup_trait.traits[1].name = "X".to_string();
    assert!(!dup_trait.validate_names());
}

#[test]
fn cost_ties_go_to_first_member() {
    let roster = Roster {
        champions: vec![
            champ("D", 2, vec![0]),
            champ("E", 2, vec![0]),
            champ("F", 1, vec![0]),
            champ("G", 1, vec![0]),
        ],
        traits: vec![trait_def("X", vec![0, 1, 2, 3, 4])],
    };
    assert!(roster.validate());
    let wt = compute_waste_table(&roster.traits).unwrap();
    let team: Vec<usize> = vec![0, 1, 2, 3];
    let r = aggregate_team(&roster, &wt, &team);
    assert_eq!(r.max_cost, ("D".to_string(), 2));
    assert_eq!(r.min_cost, ("F".to_string(), 1));
    assert_eq!(r.total_cost, 6);
}

#[test]
fn budget_search_single_size() {
    let roster = scenario_roster();
    let wt = compute_waste_table(&roster.traits).unwrap();
    // k = 2: {A,B} waste 0, {A,C} waste 1, {B,C} waste 1.
    assert_eq!(teams_within_budget(&roster, &wt, 2, 0).len(), 1);
    assert_eq!(teams_within_budget(&roster, &wt, 2, 1).len(), 3);
    let accepted = teams_within_budget(&roster, &wt, 2, 0);
    assert_eq!(accepted[0].team, vec!["A".to_string(), "B".to_string()]);
}

#[test]
fn budget_search_monotone_in_budget() {
    let roster = scenario_roster();
    let wt = compute_waste_table(&roster.traits).unwrap();
    let mut last: usize = 0;
    for n in 0..5 {
        let found = teams_within_budget(&roster, &wt, 2, n).len();
        assert!(found >= last);
        last = found;
    }
}

#[test]
fn all_sizes_search_and_range_validation() {
    let roster = scenario_roster();
    let wt = compute_waste_table(&roster.traits).unwrap();
    assert!(matches!(
        all_teams_within_budget(&roster, &wt, 0, 2, 9),
        Err(ConfigError::InvalidSizeRange)
    ));
    assert!(matches!(
        all_teams_within_budget(&roster, &wt, 2, 1, 9),
        Err(ConfigError::InvalidSizeRange)
    ));
    assert!(matches!(
        all_teams_within_budget(&roster, &wt, 1, 4, 9),
        Err(ConfigError::InvalidSizeRange)
    ));
    let all = all_teams_within_budget(&roster, &wt, 1, 3, 9).unwrap();
    // Every subset of sizes 1..=3 qualifies with a budget of 9:
    // 3 + 3 + 1 teams, in order of size.
    assert_eq!(all.len(), 7);
    assert_eq!(all[0].size, 1);
    assert_eq!(all[6].size, 3);
}

#[test]
fn perfect_mode_projects_names() {
    let roster = scenario_roster();
    let teams = perfect_synergy_teams(&roster, 2);
    // Only {A,B} lands exactly on breakpoints: X at 2, Y at 0.
    assert_eq!(teams, vec![vec!["A".to_string(), "B".to_string()]]);
}

#[test]
fn multi_trait_champions_are_counted_once_per_trait() {
    let roster = Roster {
        champions: vec![champ("H", 1, vec![0, 1]), champ("I", 2, vec![0])],
        traits: vec![trait_def("X", vec![0, 2]), trait_def("Y", vec![0, 1])],
    };
    assert!(roster.validate());
    let wt = compute_waste_table(&roster.traits).unwrap();
    // {H, I}: count(X) = 2 (waste 0), count(Y) = 1 (waste 0).
    let team_hi: Vec<usize> = vec![0, 1];
    assert!(is_perfect_synergy(&roster, &team_hi));
    assert_eq!(team_waste(&roster, &wt, &team_hi), 0);
    let r = aggregate_team(&roster, &wt, &team_hi);
    assert_eq!(
        r.active_traits,
        vec![("X".to_string(), 2), ("Y".to_string(), 1)]
    );
    // {H} alone: count(X) = 1 (waste 1), count(Y) = 1 (waste 0).
    let team_h: Vec<usize> = vec![0];
    assert!(!is_perfect_synergy(&roster, &team_h));
    assert_eq!(team_waste(&roster, &wt, &team_h), 1);
}

#[test]
fn perfect_mode_rejects_on_absent_trait() {
    // Trait Z has breakpoints {1}: a team carrying no Z member has count 0,
    // which is not a breakpoint, so no team of size 1 without Z qualifies.
    let roster = Roster {
        champions: vec![champ("A", 1, vec![0]), champ("B", 1, vec![1])],
        traits: vec![trait_def("X", vec![0, 1]), trait_def("Z", vec![1])],
    };
    assert!(roster.validate());
    let teams = perfect_synergy_teams(&roster, 1);
    // Only {B} qualifies: X at 0 (breakpoint), Z at 1 (breakpoint).
    assert_eq!(teams, vec![vec!["B".to_string()]]);
}
