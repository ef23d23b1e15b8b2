//! Verified core of a team-synergy search: enumerating fixed-size teams from a
//! roster of champions, scoring each team's trait counts against per-trait
//! breakpoint sets, and aggregating statistics for the teams that qualify.
#![verifier::loop_isolation(false)]

pub mod aggregate;
pub mod combos;
pub mod rules;
pub mod search;
pub mod synergy;
