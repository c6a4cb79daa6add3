//! Derives a directed "is-subteam-of" graph from a flat collection of team
//! records and renders it as a deterministic DOT description.

pub mod dot;
pub mod graph;
pub mod types;

use vstd::prelude::*;

verus! {

/// Which records a run keeps when it derives the graph.
#[derive(Debug, Clone, Copy)]
pub enum Cmd {
    /// Include Working Groups and Project Groups, but exclude Marker Teams.
    ExcludeMarkerTeams,
    /// Include *only* formal teams.
    OnlyTeams,
}

} // verus!
