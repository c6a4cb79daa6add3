//! Deterministic DOT rendering of the derived graph: a `digraph` frame, a
//! right-to-left rank directive, one statement per node and one per edge, in
//! the graph's own node and edge order. Edge labels are suppressed.

use vstd::prelude::*;
use vstd::string::StringExecFns;

use crate::graph::{TeamGraph, graph_edge_seq, graphmap_edge_list};
use crate::types::Team;

verus! {

/// The node statement for one name: the name in double quotes, indented, on
/// a line of its own.
pub open spec fn dot_node_line(n: Seq<char>) -> Seq<char> {
    "    \""@ + n + "\"\n"@
}

/// The node statements of a name table, one per name, in table order.
pub open spec fn dot_node_lines(ns: Seq<Seq<char>>) -> Seq<char>
    decreases ns.len(),
{
    if ns.len() == 0 {
        Seq::empty()
    } else {
        dot_node_lines(ns.drop_last()) + dot_node_line(ns.last())
    }
}

/// The edge statement for one directed edge, from subteam to parent.
pub open spec fn dot_edge_line(a: Seq<char>, b: Seq<char>) -> Seq<char> {
    "    \""@ + a + "\" -> \""@ + b + "\"\n"@
}

/// The edge statements of an edge list, read through the name table, in list
/// order.
pub open spec fn dot_edge_lines(ns: Seq<Seq<char>>, es: Seq<(usize, usize)>) -> Seq<char>
    decreases es.len(),
{
    if es.len() == 0 {
        Seq::empty()
    } else {
        dot_edge_lines(ns, es.drop_last()) + dot_edge_line(
            ns[es.last().0 as int],
            ns[es.last().1 as int],
        )
    }
}

/// The whole DOT description: header, the `rankdir=RL` layout directive, the
/// node statements, the edge statements, and the closing brace.
pub open spec fn dot_text(ns: Seq<Seq<char>>, es: Seq<(usize, usize)>) -> Seq<char> {
    "digraph {\n"@ + "    rankdir=RL\n"@ + dot_node_lines(ns) + dot_edge_lines(ns, es) + "}\n"@
}

proof fn lemma_node_lines_step(ns: Seq<Seq<char>>, i: int)
    requires
        0 <= i < ns.len(),
    ensures
        dot_node_lines(ns.take(i + 1)) == dot_node_lines(ns.take(i)) + dot_node_line(ns[i]),
{
    assert(ns.take(i + 1).drop_last() =~= ns.take(i));
    assert(ns.take(i + 1).last() == ns[i]);
}

proof fn lemma_edge_lines_step(ns: Seq<Seq<char>>, es: Seq<(usize, usize)>, j: int)
    requires
        0 <= j < es.len(),
    ensures
        dot_edge_lines(ns, es.take(j + 1)) == dot_edge_lines(ns, es.take(j)) + dot_edge_line(
            ns[es[j].0 as int],
            ns[es[j].1 as int],
        ),
{
    assert(es.take(j + 1).drop_last() =~= es.take(j));
    assert(es.take(j + 1).last() == es[j]);
}

impl TeamGraph {
    /// Renders the graph as DOT text: every node exactly once, every edge
    /// exactly once and unlabeled, nodes in first-appearance order, edges in
    /// insertion order, with a `rankdir=RL` layout directive.
    pub fn to_dot(&self) -> (r: String)
        requires
            self.wf(),
        ensures
            r@ == dot_text(self.node_names(), graph_edge_seq(self.graph)),
    {
        let ghost ns = self.node_names();
        let mut out = String::new();
        out.append("digraph {\n");
        out.append("    rankdir=RL\n");
        proof {
            assert(out@ =~= "digraph {\n"@ + "    rankdir=RL\n"@ + dot_node_lines(ns.take(0)));
        }

        let mut i: usize = 0;
        while i < self.names.len()
            invariant
                self.wf(),
                i <= self.names@.len(),
                ns == self.node_names(),
                out@ == "digraph {\n"@ + "    rankdir=RL\n"@ + dot_node_lines(ns.take(i as int)),
            decreases self.names@.len() - i,
        {
            out.append("    \"");
            out.append(self.names[i].as_str());
            out.append("\"\n");
            proof {
                lemma_node_lines_step(ns, i as int);
                assert(ns[i as int] == self.names@[i as int]@);
                assert(out@ =~= "digraph {\n"@ + "    rankdir=RL\n"@ + dot_node_lines(
                    ns.take(i as int + 1),
                ));
            }
            i += 1;
        }
        proof {
            assert(ns.take(ns.len() as int) =~= ns);
        }

        let edges = graphmap_edge_list(&self.graph);
        let ghost es = graph_edge_seq(self.graph);
        proof {
            assert(dot_edge_lines(ns, es.take(0)) =~= Seq::<char>::empty());
        }
        let mut j: usize = 0;
        while j < edges.len()
            invariant
                self.wf(),
                j <= edges@.len(),
                ns == self.node_names(),
                es == graph_edge_seq(self.graph),
                edges@ == es,
                out@ == "digraph {\n"@ + "    rankdir=RL\n"@ + dot_node_lines(ns) + dot_edge_lines(
                    ns,
                    es.take(j as int),
                ),
            decreases edges@.len() - j,
        {
            let e = edges[j];
            out.append("    \"");
            out.append(self.names[e.0].as_str());
            out.append("\" -> \"");
            out.append(self.names[e.1].as_str());
            out.append("\"\n");
            proof {
                lemma_edge_lines_step(ns, es, j as int);
                assert(ns[es[j as int].0 as int] == self.names@[es[j as int].0 as int]@);
                assert(ns[es[j as int].1 as int] == self.names@[es[j as int].1 as int]@);
                assert(out@ =~= "digraph {\n"@ + "    rankdir=RL\n"@ + dot_node_lines(ns)
                    + dot_edge_lines(ns, es.take(j as int + 1)));
            }
            j += 1;
        }
        proof {
            assert(es.take(es.len() as int) =~= es);
        }

        out.append("}\n");
        proof {
            assert(out@ =~= dot_text(ns, es));
        }
        out
    }
}

/// Runs the whole pipeline on a record collection: filters out marker teams,
/// derives the "is-subteam-of" graph, and renders it as DOT text. The result
/// is the rendering of a graph that describes the collection's subteam
/// relation.
pub fn subteam_dag_dot(teams: &Vec<Team>) -> (r: String)
    ensures
        exists|g: TeamGraph|
            #[trigger] g.describes(teams@) && r@ == dot_text(
                g.node_names(),
                graph_edge_seq(g.graph),
            ),
{
    let g = crate::graph::build_subteam_graph(teams);
    let r = g.to_dot();
    proof {
        assert(g.describes(teams@) && r@ == dot_text(g.node_names(), graph_edge_seq(g.graph)));
    }
    r
}

} // verus!

