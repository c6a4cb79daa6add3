//! Derives the directed "is-subteam-of" graph from a flat collection of team
//! records: marker teams are dropped, every other record becomes a node keyed
//! by its name, and a record declaring `subteam_of = B` yields an edge to `B`
//! exactly when some surviving record is named `B`.
//!
//! The graph itself is a `petgraph` graph map over name indices: node `i` of
//! the map stands for the `i`-th entry of the name table kept beside it.

use vstd::prelude::*;

use crate::types::{Team, TeamKind};
use petgraph::Directed;
use petgraph::graphmap::GraphMap;
use std::hash::{BuildHasher, RandomState};

verus! {

#[verifier::external_type_specification]
#[verifier::external_body]
#[verifier::reject_recursive_types(N)]
#[verifier::reject_recursive_types(E)]
#[verifier::reject_recursive_types(Ty)]
#[verifier::reject_recursive_types(S)]
pub struct ExGraphMap<N, E, Ty, S>(GraphMap<N, E, Ty, S>) where S: BuildHasher;

#[verifier::external_type_specification]
#[verifier::external_body]
pub struct ExDirected(Directed);

/// The set of node indices that a graph map holds.
pub uninterp spec fn graph_node_set(g: GraphMap<usize, (), Directed, RandomState>) -> Set<usize>;

/// The directed edges that a graph map holds, in insertion order, each at
/// most once.
pub uninterp spec fn graph_edge_seq(
    g: GraphMap<usize, (), Directed, RandomState>,
) -> Seq<(usize, usize)>;

/// Relies on petgraph's `GraphMap::new`: the fresh graph has no nodes and no
/// edges.
#[verifier::external_body]
fn graphmap_new() -> (g: GraphMap<usize, (), Directed, RandomState>)
    ensures
        graph_node_set(g) == Set::<usize>::empty(),
        graph_edge_seq(g) == Seq::<(usize, usize)>::empty(),
{
    GraphMap::new()
}

/// Relies on petgraph's `GraphMap::add_node`: inserts the node if it is
/// absent and leaves the edges untouched.
#[verifier::external_body]
fn graphmap_add_node(g: &mut GraphMap<usize, (), Directed, RandomState>, n: usize)
    ensures
        graph_node_set(*final(g)) == graph_node_set(*old(g)).insert(n),
        graph_edge_seq(*final(g)) == graph_edge_seq(*old(g)),
{
    g.add_node(n);
}

/// Relies on petgraph's `GraphMap::add_edge` on a directed graph: inserts the
/// missing endpoints as nodes, and appends the edge `(a, b)` unless it is
/// already present (the index map underneath keeps insertion order and leaves
/// a present key in place).
#[verifier::external_body]
fn graphmap_add_edge(g: &mut GraphMap<usize, (), Directed, RandomState>, a: usize, b: usize)
    ensures
        graph_node_set(*final(g)) == graph_node_set(*old(g)).insert(a).insert(b),
        graph_edge_seq(*final(g)) == (if graph_edge_seq(*old(g)).contains((a, b)) {
            graph_edge_seq(*old(g))
        } else {
            graph_edge_seq(*old(g)).push((a, b))
        }),
{
    g.add_edge(a, b, ());
}

/// Relies on petgraph's `GraphMap::all_edges`: yields every stored edge
/// exactly once, in the insertion order that the index map underneath keeps.
#[verifier::external_body]
pub(crate) fn graphmap_edge_list(g: &GraphMap<usize, (), Directed, RandomState>) -> (r: Vec<
    (usize, usize),
>)
    ensures
        r@ == graph_edge_seq(*g),
{
    g.all_edges().map(|(a, b, _w)| (a, b)).collect()
}

/// `n` occurs in the name table.
pub open spec fn contains_name(ns: Seq<String>, n: Seq<char>) -> bool {
    exists|j: int| 0 <= j < ns.len() && #[trigger] ns[j]@ == n
}

/// No name occurs twice in the name table.
pub open spec fn distinct_names(ns: Seq<String>) -> bool {
    forall|i: int, j: int| 0 <= i < j < ns.len() ==> ns[i]@ != ns[j]@
}

/// The edge list `es`, read through the name table, holds the edge `a -> b`.
pub open spec fn edge_in(
    ns: Seq<String>,
    es: Seq<(usize, usize)>,
    a: Seq<char>,
    b: Seq<char>,
) -> bool {
    exists|k: int|
        0 <= k < es.len() && ns[(#[trigger] es[k]).0 as int]@ == a && ns[es[k].1 as int]@ == b
}

/// A record survives the filter exactly when it is not a marker team.
pub open spec fn survives(t: Team) -> bool {
    !(t.kind is MarkerTeam)
}

/// The parent name a record declares, if any.
pub open spec fn declared_parent(t: Team) -> Option<Seq<char>> {
    match t.subteam_of {
        Some(p) => Some(p@),
        None => None,
    }
}

/// Some record among the first `k` survives the filter and is named `n`.
pub open spec fn is_node_upto(teams: Seq<Team>, k: int, n: Seq<char>) -> bool {
    exists|i: int| 0 <= i < k && survives(teams[i]) && teams[i].name@ == n
}

/// `n` is a node of the derived graph: some surviving record is named `n`.
pub open spec fn is_node(teams: Seq<Team>, n: Seq<char>) -> bool {
    is_node_upto(teams, teams.len() as int, n)
}

/// Some record among the first `k` survives, is named `a`, and declares `b`
/// as its parent; and `b` itself names a surviving record.
pub open spec fn is_edge_upto(teams: Seq<Team>, k: int, a: Seq<char>, b: Seq<char>) -> bool {
    is_node(teams, b) && exists|i: int|
        0 <= i < k && survives(teams[i]) && teams[i].name@ == a && declared_parent(teams[i])
            == Some(b)
}

/// The edge `a -> b` ("a is a subteam of b") is in the derived graph.
pub open spec fn is_edge(teams: Seq<Team>, a: Seq<char>, b: Seq<char>) -> bool {
    is_edge_upto(teams, teams.len() as int, a, b)
}

/// The derived graph: a name table plus a directed petgraph map over name
/// indices. Node `i` of the map stands for `names[i]`.
pub struct TeamGraph {
    /// The distinct surviving team names, in order of first appearance.
    pub names: Vec<String>,
    /// The directed "is-subteam-of" graph over name indices.
    pub graph: GraphMap<usize, (), Directed, RandomState>,
}

impl TeamGraph {
    /// The node names as character sequences, in node-index order.
    pub open spec fn node_names(self) -> Seq<Seq<char>> {
        self.names@.map_values(|s: String| s@)
    }

    /// Well-formedness: names are distinct, the graph's nodes are exactly the
    /// name-table indices, and every edge joins two such indices, each edge
    /// held at most once.
    pub open spec fn wf(self) -> bool {
        &&& distinct_names(self.names@)
        &&& forall|n: usize| graph_node_set(self.graph).contains(n) <==> (n as int)
            < self.names@.len()
        &&& graph_edge_seq(self.graph).no_duplicates()
        &&& forall|k: int|
            0 <= k < graph_edge_seq(self.graph).len() ==> (
            #[trigger] graph_edge_seq(self.graph)[k]).0 < self.names@.len() && graph_edge_seq(
                self.graph,
            )[k].1 < self.names@.len()
    }

    /// `n` is the name of one of the graph's nodes.
    pub open spec fn has_node(self, n: Seq<char>) -> bool {
        contains_name(self.names@, n)
    }

    /// The graph holds a directed edge from the node named `a` to the node
    /// named `b`.
    pub open spec fn has_edge(self, a: Seq<char>, b: Seq<char>) -> bool {
        edge_in(self.names@, graph_edge_seq(self.graph), a, b)
    }

    /// The graph describes the derived subteam relation of `teams`: its nodes
    /// are exactly the distinct surviving names and its edges exactly the
    /// declared-parent pairs among surviving records.
    pub open spec fn describes(self, teams: Seq<Team>) -> bool {
        &&& self.wf()
        &&& forall|n: Seq<char>| #[trigger] self.has_node(n) <==> is_node(teams, n)
        &&& forall|a: Seq<char>, b: Seq<char>| #[trigger] self.has_edge(a, b) <==> is_edge(
            teams,
            a,
            b,
        )
    }
}

/// Finds the index of `target` in the name table, comparing names by exact
/// string equality.
fn find_name(names: &Vec<String>, target: &String) -> (r: Option<usize>)
    ensures
        match r {
            Some(i) => i < names@.len() && names@[i as int]@ == target@,
            None => forall|i: int| 0 <= i < names@.len() ==> names@[i]@ != target@,
        },
{
    let mut i: usize = 0;
    while i < names.len()
        invariant
            i <= names@.len(),
            forall|j: int| 0 <= j < i ==> names@[j]@ != target@,
        decreases names@.len() - i,
    {
        if names[i] == *target {
            return Some(i);
        }
        i += 1;
    }
    None
}

/// One record step that yields no edge (a marker team, a record without a
/// parent, or a dangling parent) leaves the edge relation as it was.
proof fn lemma_edge_step_no_new(teams: Seq<Team>, k: int, ns: Seq<String>, es: Seq<(usize, usize)>)
    requires
        0 <= k < teams.len(),
        forall|a: Seq<char>, b: Seq<char>| edge_in(ns, es, a, b) <==> is_edge_upto(teams, k, a, b),
        !survives(teams[k]) || declared_parent(teams[k]) is None || (forall|b: Seq<char>|
            declared_parent(teams[k]) == Some(b) ==> !is_node(teams, b)),
    ensures
        forall|a: Seq<char>, b: Seq<char>|
            edge_in(ns, es, a, b) <==> is_edge_upto(teams, k + 1, a, b),
{
    assert forall|a: Seq<char>, b: Seq<char>|
        edge_in(ns, es, a, b) <==> is_edge_upto(teams, k + 1, a, b) by {
        if edge_in(ns, es, a, b) {
            assert(is_edge_upto(teams, k, a, b));
            let i = choose|i: int|
                0 <= i < k && survives(#[trigger] teams[i]) && teams[i].name@ == a
                    && declared_parent(teams[i]) == Some(b);
            assert(0 <= i < k + 1 && survives(teams[i]) && teams[i].name@ == a && declared_parent(
                teams[i],
            ) == Some(b));
        }
        if is_edge_upto(teams, k + 1, a, b) {
            let i = choose|i: int|
                0 <= i < k + 1 && survives(#[trigger] teams[i]) && teams[i].name@ == a
                    && declared_parent(teams[i]) == Some(b);
            if i == k {
                assert(false);
            }
            assert(is_edge_upto(teams, k, a, b));
        }
    }
}

/// Adding the edge for record `k`, which declares `ns[jb]` as the parent of
/// its name `ns[ia]`, turns the edge relation of the first `k` records into
/// that of the first `k + 1`.
proof fn lemma_edge_step_insert(
    teams: Seq<Team>,
    k: int,
    ns: Seq<String>,
    es0: Seq<(usize, usize)>,
    es1: Seq<(usize, usize)>,
    ia: usize,
    jb: usize,
)
    requires
        0 <= k < teams.len(),
        (ia as int) < ns.len(),
        (jb as int) < ns.len(),
        forall|a: Seq<char>, b: Seq<char>| edge_in(ns, es0, a, b) <==> is_edge_upto(teams, k, a, b),
        es0.contains((ia, jb)) ==> es1 == es0,
        !es0.contains((ia, jb)) ==> es1 == es0.push((ia, jb)),
        es0.no_duplicates(),
        forall|j: int|
            0 <= j < es0.len() ==> ((#[trigger] es0[j]).0 as int) < ns.len() && (es0[j].1 as int)
                < ns.len(),
        survives(teams[k]),
        teams[k].name@ == ns[ia as int]@,
        declared_parent(teams[k]) == Some(ns[jb as int]@),
        is_node(teams, ns[jb as int]@),
    ensures
        forall|a: Seq<char>, b: Seq<char>|
            edge_in(ns, es1, a, b) <==> is_edge_upto(teams, k + 1, a, b),
        es1.no_duplicates(),
        forall|j: int|
            0 <= j < es1.len() ==> ((#[trigger] es1[j]).0 as int) < ns.len() && (es1[j].1 as int)
                < ns.len(),
{
    assert forall|a: Seq<char>, b: Seq<char>|
        edge_in(ns, es1, a, b) <==> is_edge_upto(teams, k + 1, a, b) by {
        if edge_in(ns, es1, a, b) {
            let j = choose|j: int|
                0 <= j < es1.len() && ns[(#[trigger] es1[j]).0 as int]@ == a && ns[es1[j].1 as int]@
                    == b;
            if j < es0.len() {
                assert(es1[j] == es0[j]);
                assert(edge_in(ns, es0, a, b));
                assert(is_edge_upto(teams, k, a, b));
                let i = choose|i: int|
                    0 <= i < k && survives(#[trigger] teams[i]) && teams[i].name@ == a
                        && declared_parent(teams[i]) == Some(b);
                assert(0 <= i < k + 1 && survives(teams[i]) && teams[i].name@ == a
                    && declared_parent(teams[i]) == Some(b));
            } else {
                assert(es1[j] == (ia, jb));
                assert(a == ns[ia as int]@ && b == ns[jb as int]@);
                assert(0 <= k < k + 1 && survives(teams[k]) && teams[k].name@ == a
                    && declared_parent(teams[k]) == Some(b));
            }
        }
        if is_edge_upto(teams, k + 1, a, b) {
            let i = choose|i: int|
                0 <= i < k + 1 && survives(#[trigger] teams[i]) && teams[i].name@ == a
                    && declared_parent(teams[i]) == Some(b);
            if i < k {
                assert(is_edge_upto(teams, k, a, b));
                assert(edge_in(ns, es0, a, b));
                let j = choose|j: int|
                    0 <= j < es0.len() && ns[(#[trigger] es0[j]).0 as int]@ == a && ns[es0[j].1
                        as int]@ == b;
                assert(es1[j] == es0[j]);
                assert(edge_in(ns, es1, a, b));
            } else {
                assert(a == ns[ia as int]@ && b == ns[jb as int]@);
                if es0.contains((ia, jb)) {
                    let j = choose|j: int| 0 <= j < es0.len() && es0[j] == (ia, jb);
                    assert(es1[j] == (ia, jb));
                    assert(ns[(es1[j]).0 as int]@ == a && ns[(es1[j]).1 as int]@ == b);
                } else {
                    let j = es1.len() - 1;
                    assert(es1[j] == (ia, jb));
                    assert(ns[(es1[j]).0 as int]@ == a && ns[(es1[j]).1 as int]@ == b);
                }
                assert(edge_in(ns, es1, a, b));
            }
        }
    }
    if !es0.contains((ia, jb)) {
        assert forall|i: int, j: int| 0 <= i < j < es1.len() implies es1[i] != es1[j] by {
            if j < es0.len() {
                assert(es1[i] == es0[i] && es1[j] == es0[j]);
            } else {
                assert(es1[i] == es0[i] && es1[j] == (ia, jb));
                assert(!es0.contains(es1[j]));
            }
        }
    }
}

/// Builds the "is-subteam-of" graph of an input record collection.
///
/// Records whose kind is `MarkerTeam` are dropped first. Every other record
/// becomes a node keyed by its name (duplicate names collapse to the single
/// node made for the first occurrence), and an edge `A -> B` is made exactly
/// when a surviving record named `A` declares `subteam_of = B` and some
/// surviving record is named `B`; a parent name that no surviving record
/// bears is dropped silently. The parent is resolved by an exact-equality
/// lookup in the surviving-name table, which yields the same edge set as
/// comparing every ordered pair of surviving records.
pub fn build_subteam_graph(teams: &Vec<Team>) -> (g: TeamGraph)
    ensures
        g.describes(teams@),
{
    let mut names: Vec<String> = Vec::new();
    let mut graph = graphmap_new();

    let mut k: usize = 0;
    while k < teams.len()
        invariant
            k <= teams@.len(),
            distinct_names(names@),
            graph_edge_seq(graph) == Seq::<(usize, usize)>::empty(),
            forall|n: usize| graph_node_set(graph).contains(n) <==> (n as int) < names@.len(),
            forall|i: int|
                0 <= i < names@.len() ==> is_node_upto(teams@, k as int, #[trigger] names@[i]@),
            forall|i: int|
                0 <= i < k && survives(#[trigger] teams@[i]) ==> contains_name(
                    names@,
                    teams@[i].name@,
                ),
        decreases teams@.len() - k,
    {
        let ghost old_names = names@;
        let t = &teams[k];
        if t.kind != TeamKind::MarkerTeam {
            match find_name(&names, &t.name) {
                Some(j) => {
                    proof {
                        assert(names@[j as int]@ == teams@[k as int].name@);
                        assert(contains_name(names@, teams@[k as int].name@));
                    }
                },
                None => {
                    let idx = names.len();
                    names.push(t.name.clone());
                    graphmap_add_node(&mut graph, idx);
                    proof {
                        assert(names@.len() == old_names.len() + 1);
                        assert(names@[idx as int]@ == teams@[k as int].name@);
                        assert(contains_name(names@, teams@[k as int].name@));
                        assert forall|i: int, j: int|
                            0 <= i < j < names@.len() implies names@[i]@ != names@[j]@ by {
                            if j < old_names.len() {
                                assert(names@[i] == old_names[i] && names@[j] == old_names[j]);
                            } else {
                                assert(names@[i] == old_names[i]);
                                assert(old_names[i]@ != teams@[k as int].name@);
                            }
                        }
                    }
                },
            }
        }
        proof {
            assert forall|i: int|
                0 <= i < names@.len() implies is_node_upto(
                teams@,
                k as int + 1,
                #[trigger] names@[i]@,
            ) by {
                if i < old_names.len() {
                    assert(names@[i] == old_names[i]);
                    assert(is_node_upto(teams@, k as int, names@[i]@));
                    let w = choose|w: int|
                        0 <= w < k as int && survives(teams@[w]) && teams@[w].name@ == names@[i]@;
                    assert(0 <= w < k as int + 1 && survives(teams@[w]) && teams@[w].name@
                        == names@[i]@);
                } else {
                    assert(names@[i]@ == teams@[k as int].name@);
                    assert(survives(teams@[k as int]));
                    assert(0 <= (k as int) < (k as int) + 1 && survives(teams@[k as int])
                        && teams@[k as int].name@ == names@[i]@);
                }
            }
            assert forall|i: int|
                0 <= i < k as int + 1 && survives(#[trigger] teams@[i]) implies contains_name(
                names@,
                teams@[i].name@,
            ) by {
                if i < k as int {
                    let j = choose|j: int|
                        0 <= j < old_names.len() && #[trigger] old_names[j]@ == teams@[i].name@;
                    assert(names@[j] == old_names[j]);
                    assert(names@[j]@ == teams@[i].name@);
                }
            }
        }
        k += 1;
    }

    let mut k: usize = 0;
    while k < teams.len()
        invariant
            k <= teams@.len(),
            distinct_names(names@),
            forall|n: usize| graph_node_set(graph).contains(n) <==> (n as int) < names@.len(),
            forall|i: int| 0 <= i < names@.len() ==> is_node(teams@, #[trigger] names@[i]@),
            forall|i: int|
                0 <= i < teams@.len() && survives(#[trigger] teams@[i]) ==> contains_name(
                    names@,
                    teams@[i].name@,
                ),
            graph_edge_seq(graph).no_duplicates(),
            forall|j: int|
                0 <= j < graph_edge_seq(graph).len() ==> (#[trigger] graph_edge_seq(graph)[j]).0
                    < names@.len() && graph_edge_seq(graph)[j].1 < names@.len(),
            forall|a: Seq<char>, b: Seq<char>|
                edge_in(names@, graph_edge_seq(graph), a, b) <==> is_edge_upto(
                    teams@,
                    k as int,
                    a,
                    b,
                ),
        decreases teams@.len() - k,
    {
        let ghost old_edges = graph_edge_seq(graph);
        let t = &teams[k];
        if t.kind != TeamKind::MarkerTeam {
            match &t.subteam_of {
                Some(parent) => {
                    proof {
                        assert(declared_parent(teams@[k as int]) == Some(parent@));
                    }
                    match find_name(&names, parent) {
                        Some(jb) => {
                            let ia = match find_name(&names, &t.name) {
                                Some(i) => i,
                                None => {
                                    proof {
                                        assert(contains_name(names@, teams@[k as int].name@));
                                        let j = choose|j: int|
                                            0 <= j < names@.len() && #[trigger] names@[j]@
                                                == teams@[k as int].name@;
                                        assert(false);
                                    }
                                    vstd::pervasive::unreached()
                                },
                            };
                            graphmap_add_edge(&mut graph, ia, jb);
                            proof {
                                lemma_edge_step_insert(
                                    teams@,
                                    k as int,
                                    names@,
                                    old_edges,
                                    graph_edge_seq(graph),
                                    ia,
                                    jb,
                                );
                            }
                        },
                        None => {
                            proof {
                                assert forall|b: Seq<char>|
                                    declared_parent(teams@[k as int]) == Some(b) implies !is_node(
                                    teams@,
                                    b,
                                ) by {
                                    if is_node(teams@, b) {
                                        let i = choose|i: int|
                                            0 <= i < teams@.len() && survives(#[trigger] teams@[i])
                                                && teams@[i].name@ == b;
                                        assert(contains_name(names@, b));
                                        let j = choose|j: int|
                                            0 <= j < names@.len() && #[trigger] names@[j]@ == b;
                                        assert(names@[j]@ == parent@);
                                        assert(false);
                                    }
                                }
                                lemma_edge_step_no_new(
                                    teams@,
                                    k as int,
                                    names@,
                                    graph_edge_seq(graph),
                                );
                            }
                        },
                    }
                },
                None => {
                    proof {
                        lemma_edge_step_no_new(teams@, k as int, names@, graph_edge_seq(graph));
                    }
                },
            }
        } else {
            proof {
                lemma_edge_step_no_new(teams@, k as int, names@, graph_edge_seq(graph));
            }
        }
        k += 1;
    }

    let g = TeamGraph { names, graph };
    proof {
        assert forall|n: Seq<char>| #[trigger] g.has_node(n) <==> is_node(teams@, n) by {
            if g.has_node(n) {
                let j = choose|j: int| 0 <= j < g.names@.len() && #[trigger] g.names@[j]@ == n;
                assert(is_node(teams@, g.names@[j]@));
            }
            if is_node(teams@, n) {
                let i = choose|i: int|
                    0 <= i < teams@.len() && survives(#[trigger] teams@[i]) && teams@[i].name@ == n;
                assert(contains_name(g.names@, teams@[i].name@));
            }
        }
        assert forall|a: Seq<char>, b: Seq<char>| #[trigger] g.has_edge(a, b) <==> is_edge(
            teams@,
            a,
            b,
        ) by {
            assert(edge_in(g.names@, graph_edge_seq(g.graph), a, b) <==> is_edge_upto(
                teams@,
                teams@.len() as int,
                a,
                b,
            ));
        }
    }
    g
}

proof fn lemma_node_under_permutation(t1: Seq<Team>, t2: Seq<Team>, n: Seq<char>)
    requires
        t1.to_multiset() == t2.to_multiset(),
        is_node(t1, n),
    ensures
        is_node(t2, n),
{
    let i = choose|i: int| 0 <= i < t1.len() && survives(#[trigger] t1[i]) && t1[i].name@ == n;
    assert(t1.contains(t1[i]));
    vstd::seq_lib::to_multiset_contains::<Team>(t1, t1[i]);
    vstd::seq_lib::to_multiset_contains::<Team>(t2, t1[i]);
    assert(t2.contains(t1[i]));
    let j = choose|j: int| 0 <= j < t2.len() && t2[j] == t1[i];
    assert(survives(t2[j]) && t2[j].name@ == n);
}

proof fn lemma_edge_under_permutation(t1: Seq<Team>, t2: Seq<Team>, a: Seq<char>, b: Seq<char>)
    requires
        t1.to_multiset() == t2.to_multiset(),
        is_edge(t1, a, b),
    ensures
        is_edge(t2, a, b),
{
    lemma_node_under_permutation(t1, t2, b);
    let i = choose|i: int|
        0 <= i < t1.len() && survives(#[trigger] t1[i]) && t1[i].name@ == a && declared_parent(
            t1[i],
        ) == Some(b);
    assert(t1.contains(t1[i]));
    vstd::seq_lib::to_multiset_contains::<Team>(t1, t1[i]);
    vstd::seq_lib::to_multiset_contains::<Team>(t2, t1[i]);
    assert(t2.contains(t1[i]));
    let j = choose|j: int| 0 <= j < t2.len() && t2[j] == t1[i];
    assert(survives(t2[j]) && t2[j].name@ == a && declared_parent(t2[j]) == Some(b));
}

/// Permuting the input record collection never changes the derived node set
/// or edge set; in particular, re-running the pipeline on an unchanged or
/// reordered collection yields a graph with identical nodes and edges, since
/// every built graph's nodes and edges match `is_node` and `is_edge`.
pub proof fn lemma_graph_order_independent(t1: Seq<Team>, t2: Seq<Team>)
    requires
        t1.to_multiset() == t2.to_multiset(),
    ensures
        forall|n: Seq<char>| #[trigger] is_node(t1, n) <==> is_node(t2, n),
        forall|a: Seq<char>, b: Seq<char>| #[trigger] is_edge(t1, a, b) <==> is_edge(t2, a, b),
{
    assert forall|n: Seq<char>| #[trigger] is_node(t1, n) <==> is_node(t2, n) by {
        if is_node(t1, n) {
            lemma_node_under_permutation(t1, t2, n);
        }
        if is_node(t2, n) {
            lemma_node_under_permutation(t2, t1, n);
        }
    }
    assert forall|a: Seq<char>, b: Seq<char>| #[trigger] is_edge(t1, a, b) <==> is_edge(
        t2,
        a,
        b,
    ) by {
        if is_edge(t1, a, b) {
            lemma_edge_under_permutation(t1, t2, a, b);
        }
        if is_edge(t2, a, b) {
            lemma_edge_under_permutation(t2, t1, a, b);
        }
    }
}

/// Two graphs built from permutations of one record collection (in
/// particular, from the very same collection) agree on every node and every
/// edge.
pub proof fn lemma_described_graphs_agree(g1: TeamGraph, g2: TeamGraph, t1: Seq<Team>, t2: Seq<Team>)
    requires
        g1.describes(t1),
        g2.describes(t2),
        t1.to_multiset() == t2.to_multiset(),
    ensures
        forall|n: Seq<char>| #[trigger] g1.has_node(n) <==> g2.has_node(n),
        forall|a: Seq<char>, b: Seq<char>| #[trigger] g1.has_edge(a, b) <==> g2.has_edge(a, b),
{
    lemma_graph_order_independent(t1, t2);
}

/// A name borne only by marker-team records is never a node and never an
/// endpoint of an edge, even if another record declares it as its parent.
pub proof fn lemma_marker_teams_excluded(teams: Seq<Team>, n: Seq<char>)
    requires
        forall|i: int|
            0 <= i < teams.len() && (#[trigger] teams[i]).name@ == n ==> teams[i].kind
                is MarkerTeam,
    ensures
        !is_node(teams, n),
        forall|a: Seq<char>| !is_edge(teams, a, n),
        forall|b: Seq<char>| !is_edge(teams, n, b),
{
    assert(!is_node(teams, n)) by {
        if is_node(teams, n) {
            let i = choose|i: int|
                0 <= i < teams.len() && survives(#[trigger] teams[i]) && teams[i].name@ == n;
            assert(false);
        }
    }
    assert forall|b: Seq<char>| !is_edge(teams, n, b) by {
        if is_edge(teams, n, b) {
            let i = choose|i: int|
                0 <= i < teams.len() && survives(#[trigger] teams[i]) && teams[i].name@ == n
                    && declared_parent(teams[i]) == Some(b);
            assert(false);
        }
    }
}

/// A surviving record whose `subteam_of` names no surviving record still
/// becomes a node, just one with no outgoing edge: the dangling reference is
/// dropped silently, not reported. Stated for a name `n` all of whose
/// surviving records declare the absent parent `p`.
pub proof fn lemma_dangling_parent_dropped(teams: Seq<Team>, n: Seq<char>, p: Seq<char>)
    requires
        is_node(teams, n),
        forall|i: int|
            0 <= i < teams.len() && survives(#[trigger] teams[i]) && teams[i].name@ == n
                ==> declared_parent(teams[i]) == Some(p),
        !is_node(teams, p),
    ensures
        is_node(teams, n),
        forall|b: Seq<char>| !is_edge(teams, n, b),
{
    assert forall|b: Seq<char>| !is_edge(teams, n, b) by {
        if is_edge(teams, n, b) {
            let i = choose|i: int|
                0 <= i < teams.len() && survives(#[trigger] teams[i]) && teams[i].name@ == n
                    && declared_parent(teams[i]) == Some(b);
            assert(declared_parent(teams[i]) == Some(p));
            assert(b == p);
            assert(false);
        }
    }
}

} // verus!
