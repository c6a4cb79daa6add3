use rust_project_structure::dot::subteam_dag_dot;
use rust_project_structure::graph::build_subteam_graph;
use rust_project_structure::types::{People, Team, TeamKind};

fn team(name: &str, parent: Option<&str>, kind: TeamKind) -> Team {
    Team {
        name: name.to_string(),
        subteam_of: parent.map(|p| p.to_string()),
        top_level: false,
        kind,
        people: People { leads: Vec::new(), members: Vec::new(), included_teams: Vec::new() },
    }
}

fn count_occurrences(text: &str, needle: &str) -> usize {
    let mut count = 0;
    let mut rest = text;
    while let Some(pos) = rest.find(needle) {
        count += 1;
        rest = &rest[pos + needle.len()..];
    }
    count
}

#[test]
fn dot_of_two_nodes_one_edge() {
    let teams = vec![team("a", Some("b"), TeamKind::Team), team("b", None, TeamKind::Team)];
    let g = build_subteam_graph(&teams);
    let text = g.to_dot();
    assert_eq!(
        text,
        "digraph {\n    rankdir=RL\n    \"a\"\n    \"b\"\n    \"a\" -> \"b\"\n}\n"
    );
    assert_eq!(count_occurrences(&text, "    \"a\"\n"), 1);
    assert_eq!(count_occurrences(&text, "    \"b\"\n"), 1);
    assert_eq!(count_occurrences(&text, "\"a\" -> \"b\""), 1);
    assert_eq!(count_occurrences(&text, "->"), 1);
}

#[test]
fn dot_of_empty_graph_is_just_frame() {
    let teams: Vec<Team> = Vec::new();
    let g = build_subteam_graph(&teams);
    assert_eq!(g.to_dot(), "digraph {\n    rankdir=RL\n}\n");
}

#[test]
fn dot_suppresses_edge_labels_and_keeps_rankdir() {
    let teams = vec![
        team("compiler", None, TeamKind::Team),
        team("wg-const-eval", Some("compiler"), TeamKind::WorkingGroup),
    ];
    let text = subteam_dag_dot(&teams);
    assert_eq!(count_occurrences(&text, "rankdir=RL"), 1);
    assert_eq!(count_occurrences(&text, "subteam of"), 0);
    assert_eq!(
        text,
        "digraph {\n    rankdir=RL\n    \"compiler\"\n    \"wg-const-eval\"\n    \"wg-const-eval\" -> \"compiler\"\n}\n"
    );
}

#[test]
fn dot_whole_pipeline_concrete_scenario() {
    let teams = vec![
        team("compiler", None, TeamKind::Team),
        team("wg-const-eval", Some("compiler"), TeamKind::WorkingGroup),
        team("ping-mentors", Some("compiler"), TeamKind::MarkerTeam),
    ];
    let text = subteam_dag_dot(&teams);
    assert!(!text.contains("ping-mentors"));
    assert_eq!(
        text,
        "digraph {\n    rankdir=RL\n    \"compiler\"\n    \"wg-const-eval\"\n    \"wg-const-eval\" -> \"compiler\"\n}\n"
    );
}

#[test]
fn dot_edge_goes_through_name_lookup_not_input_order() {
    let teams = vec![
        team("wg-const-eval", Some("compiler"), TeamKind::WorkingGroup),
        team("compiler", None, TeamKind::Team),
    ];
    let text = subteam_dag_dot(&teams);
    assert_eq!(
        text,
        "digraph {\n    rankdir=RL\n    \"wg-const-eval\"\n    \"compiler\"\n    \"wg-const-eval\" -> \"compiler\"\n}\n"
    );
}
