use rust_project_structure::graph::build_subteam_graph;
use rust_project_structure::types::{People, Person, Team, TeamKind};

fn no_people() -> People {
    People { leads: Vec::new(), members: Vec::new(), included_teams: Vec::new() }
}

fn team(name: &str, parent: Option<&str>, kind: TeamKind) -> Team {
    Team {
        name: name.to_string(),
        subteam_of: parent.map(|p| p.to_string()),
        top_level: false,
        kind,
        people: no_people(),
    }
}

fn edge_names(g: &rust_project_structure::graph::TeamGraph) -> Vec<(String, String)> {
    let mut out = Vec::new();
    for (a, b, _w) in g.graph.all_edges() {
        out.push((g.names[a].clone(), g.names[b].clone()));
    }
    out.sort();
    out
}

fn sorted_names(g: &rust_project_structure::graph::TeamGraph) -> Vec<String> {
    let mut ns = g.names.clone();
    ns.sort();
    ns
}

#[test]
fn concrete_scenario_marker_absent() {
    let teams = vec![
        team("compiler", None, TeamKind::Team),
        team("wg-const-eval", Some("compiler"), TeamKind::WorkingGroup),
        team("ping-mentors", Some("compiler"), TeamKind::MarkerTeam),
    ];
    let g = build_subteam_graph(&teams);
    assert_eq!(g.names, vec!["compiler".to_string(), "wg-const-eval".to_string()]);
    assert_eq!(g.graph.node_count(), 2);
    assert_eq!(g.graph.edge_count(), 1);
    assert!(g.graph.contains_edge(1, 0));
    assert_eq!(
        edge_names(&g),
        vec![("wg-const-eval".to_string(), "compiler".to_string())]
    );
}

#[test]
fn node_set_is_distinct_surviving_names() {
    let teams = vec![
        team("alpha", None, TeamKind::Team),
        team("beta", None, TeamKind::ProjectGroup),
        team("alpha", None, TeamKind::Team),
        team("gamma", None, TeamKind::MarkerTeam),
    ];
    let g = build_subteam_graph(&teams);
    assert_eq!(sorted_names(&g), vec!["alpha".to_string(), "beta".to_string()]);
    assert_eq!(g.graph.node_count(), 2);
    assert_eq!(g.graph.edge_count(), 0);
}

#[test]
fn edges_follow_subteam_of_exactly() {
    let teams = vec![
        team("root", None, TeamKind::Team),
        team("child-a", Some("root"), TeamKind::Team),
        team("child-b", Some("root"), TeamKind::WorkingGroup),
        team("grandchild", Some("child-a"), TeamKind::ProjectGroup),
    ];
    let g = build_subteam_graph(&teams);
    assert_eq!(g.graph.edge_count(), 3);
    assert_eq!(
        edge_names(&g),
        vec![
            ("child-a".to_string(), "root".to_string()),
            ("child-b".to_string(), "root".to_string()),
            ("grandchild".to_string(), "child-a".to_string()),
        ]
    );
}

#[test]
fn marker_team_never_a_node_nor_edge_target() {
    let teams = vec![
        team("marker-only", None, TeamKind::MarkerTeam),
        team("leaf", Some("marker-only"), TeamKind::Team),
    ];
    let g = build_subteam_graph(&teams);
    assert_eq!(g.names, vec!["leaf".to_string()]);
    assert_eq!(g.graph.node_count(), 1);
    assert_eq!(g.graph.edge_count(), 0);
}

#[test]
fn dangling_parent_yields_node_without_edges() {
    let teams = vec![team("orphan", Some("no-such-team"), TeamKind::Team)];
    let g = build_subteam_graph(&teams);
    assert_eq!(g.names, vec!["orphan".to_string()]);
    assert_eq!(g.graph.node_count(), 1);
    assert_eq!(g.graph.edge_count(), 0);
}

#[test]
fn permuting_input_keeps_node_and_edge_sets() {
    let unpermuted = vec![
        team("root", None, TeamKind::Team),
        team("child-a", Some("root"), TeamKind::Team),
        team("child-b", Some("root"), TeamKind::WorkingGroup),
        team("ping", Some("root"), TeamKind::MarkerTeam),
    ];
    let permuted = vec![
        team("ping", Some("root"), TeamKind::MarkerTeam),
        team("child-b", Some("root"), TeamKind::WorkingGroup),
        team("root", None, TeamKind::Team),
        team("child-a", Some("root"), TeamKind::Team),
    ];
    let g1 = build_subteam_graph(&unpermuted);
    let g2 = build_subteam_graph(&permuted);
    assert_eq!(sorted_names(&g1), sorted_names(&g2));
    assert_eq!(edge_names(&g1), edge_names(&g2));
}

#[test]
fn rebuilding_same_input_is_identical() {
    let teams = vec![
        team("root", None, TeamKind::Team),
        team("child", Some("root"), TeamKind::Team),
    ];
    let g1 = build_subteam_graph(&teams);
    let g2 = build_subteam_graph(&teams);
    assert_eq!(g1.names, g2.names);
    assert_eq!(edge_names(&g1), edge_names(&g2));
    assert_eq!(g1.to_dot(), g2.to_dot());
}

#[test]
fn duplicate_names_collapse_to_first_node() {
    let teams = vec![
        team("root-a", None, TeamKind::Team),
        team("root-b", None, TeamKind::Team),
        team("twin", Some("root-a"), TeamKind::Team),
        team("twin", Some("root-b"), TeamKind::Team),
    ];
    let g = build_subteam_graph(&teams);
    assert_eq!(
        g.names,
        vec!["root-a".to_string(), "root-b".to_string(), "twin".to_string()]
    );
    assert_eq!(g.graph.node_count(), 3);
    assert_eq!(g.graph.edge_count(), 2);
    assert!(g.graph.contains_edge(2, 0));
    assert!(g.graph.contains_edge(2, 1));
}

#[test]
fn empty_input_gives_empty_graph() {
    let teams: Vec<Team> = Vec::new();
    let g = build_subteam_graph(&teams);
    assert!(g.names.is_empty());
    assert_eq!(g.graph.node_count(), 0);
    assert_eq!(g.graph.edge_count(), 0);
}

#[test]
fn person_github_and_roles_accessors() {
    let simple = Person::Simple("alice".to_string());
    assert_eq!(simple.github(), "alice");
    assert!(simple.roles().is_none());

    let rich = Person::WithMeta {
        github: "bob".to_string(),
        roles: vec!["maintainers".to_string()],
    };
    assert_eq!(rich.github(), "bob");
    assert_eq!(rich.roles(), Some(&vec!["maintainers".to_string()]));
}

#[test]
fn default_team_kind_is_team() {
    assert_eq!(TeamKind::default(), TeamKind::Team);
}
