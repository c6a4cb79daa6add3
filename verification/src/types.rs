//! The team-record model: one record per team, with an optional parent
//! reference, a kind, and membership information.

use vstd::prelude::*;

verus! {

/// A team record: the decoded unit describing one team.
#[derive(Debug, Clone)]
pub struct Team {
    /// Name of the team; the sole identity key for graph nodes.
    pub name: String,

    /// Name of the parent team of this team, if it has one.
    pub subteam_of: Option<String>,

    /// Is this team a top-level team?
    pub top_level: bool,

    /// Kind of team.
    pub kind: TeamKind,

    /// Constituent members of this team.
    pub people: People,
}

/// Kind of team. Only `MarkerTeam` is excluded from the derived graph.
#[derive(Debug, Clone, Copy, PartialEq, Eq, Structural)]
pub enum TeamKind {
    /// A team proper: maintains something or takes part in decision-making.
    Team,
    /// A working group: a team with a specific focus area.
    WorkingGroup,
    /// A project group: a team focused on a concrete deliverable.
    ProjectGroup,
    /// An auxiliary, administrative-only grouping; never a graph node.
    MarkerTeam,
}

/// Membership information attached to a team. The lead and member
/// collections are sets: no entry appears twice.
#[derive(Debug, Clone)]
pub struct People {
    /// Leads of the team; can be empty.
    pub leads: Vec<Person>,
    /// Members of the team; can be empty.
    pub members: Vec<Person>,
    /// Names of other teams whose members count as members of this team.
    pub included_teams: Vec<String>,
}

/// One person: either a bare handle, or a handle with a set of role labels.
#[derive(Debug, Clone)]
pub enum Person {
    Simple(String),
    WithMeta { github: String, roles: Vec<String> },
}

impl Default for TeamKind {
    fn default() -> (r: Self)
        ensures
            r is Team,
    {
        TeamKind::Team
    }
}

impl Person {
    /// The handle of the person, whichever shape the record used.
    pub open spec fn spec_github(&self) -> Seq<char> {
        match self {
            Person::Simple(github) => github@,
            Person::WithMeta { github, .. } => github@,
        }
    }

    pub fn github(&self) -> (r: &str)
        ensures
            r@ == self.spec_github(),
    {
        match self {
            Person::Simple(github) => github.as_str(),
            Person::WithMeta { github, .. } => github.as_str(),
        }
    }

    /// The role labels, present only for the rich shape.
    pub fn roles(&self) -> (r: Option<&Vec<String>>)
        ensures
            match self {
                Person::Simple(..) => r is None,
                Person::WithMeta { roles, .. } => r == Some(roles),
            },
    {
        match self {
            Person::Simple(..) => None,
            Person::WithMeta { roles, .. } => Some(roles),
        }
    }
}

} // verus!
