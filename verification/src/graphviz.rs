//! Edge listings of the two graphs, for a renderer of directed graphs.
//!
//! A listing opens with a line that declares a directed graph, holds one
//! indented line for each edge, and closes with a brace.

use crate::analyzer::Edge;
use crate::text::{append_signed, signed_decimal};
use vstd::prelude::*;
use vstd::string::*;

verus! {

/// The line of an edge: both ends with `prefix` before their numbers.
pub open spec fn edge_line(prefix: Seq<char>, edge: Edge) -> Seq<char> {
    "    "@ + prefix + signed_decimal(edge.from as int) + " -> "@ + prefix + signed_decimal(
        edge.to as int,
    ) + ";\n"@
}

/// The lines of the first `count` edges.
pub open spec fn edge_lines(prefix: Seq<char>, edges: Seq<Edge>, count: nat) -> Seq<char>
    decreases count,
{
    if count == 0 {
        Seq::empty()
    } else {
        edge_lines(prefix, edges, (count - 1) as nat) + edge_line(prefix, edges[count - 1])
    }
}

/// The listing of the edges.
pub open spec fn listing(prefix: Seq<char>, edges: Seq<Edge>) -> Seq<char> {
    "digraph G {\n"@ + edge_lines(prefix, edges, edges.len()) + "}\n"@
}

/// Lists the edges, both ends of each with `prefix` before their numbers.
pub fn edge_listing(prefix: &str, edges: &Vec<Edge>) -> (text: String)
    ensures
        text@ == listing(prefix@, edges@),
{
    let mut text = String::from_str("digraph G {\n");
    let mut i: usize = 0;
    while i < edges.len()
        invariant
            i <= edges.len(),
            text@ == "digraph G {\n"@ + edge_lines(prefix@, edges@, i as nat),
        decreases edges.len() - i,
    {
        let ghost before = text@;
        text.append("    ");
        text.append(prefix);
        append_signed(&mut text, edges[i].from);
        text.append(" -> ");
        text.append(prefix);
        append_signed(&mut text, edges[i].to);
        text.append(";\n");
        assert(text@ =~= before + edge_line(prefix@, edges@[i as int]));
        assert(text@ =~= "digraph G {\n"@ + edge_lines(prefix@, edges@, (i + 1) as nat));
        i += 1;
    }
    text.append("}\n");
    text
}

/// Lists the edges of the lock graph: an edge from lock 1 to lock 2 reads `L1 -> L2;`.
pub fn lock_graph_listing(edges: &Vec<Edge>) -> (text: String)
    ensures
        text@ == listing("L"@, edges@),
{
    edge_listing("L", edges)
}

/// Lists the edges of the thread-level dependency graph: an edge from
/// thread 1 to thread 2 reads `T1 -> T2;`.
pub fn thread_graph_listing(edges: &Vec<Edge>) -> (text: String)
    ensures
        text@ == listing("T"@, edges@),
{
    edge_listing("T", edges)
}

} // verus!
