//! A description of a task tree as named nodes and labelled edges, for
//! drawing tools.

use crate::taskflow::{SequenceTask, State, Task};
use vstd::prelude::*;

verus! {

/// A directed edge between two nodes, given by their positions in the list
/// of nodes, with the attributes under which it is drawn.
#[derive(Debug)]
pub struct Edge {
    pub from: usize,
    pub to: usize,
    pub label: String,
    pub style: String,
}

/// The nodes of a task tree, by name, and the edges between them.
#[derive(Debug)]
pub struct Graph {
    pub nodes: Vec<String>,
    pub edges: Vec<Edge>,
}

/// Whether `edge` leads from node `i` to the node after it, and is drawn as
/// a dashed edge with the label "next".
pub open spec fn is_next_edge(edge: Edge, i: int) -> bool {
    &&& edge.from == i
    &&& edge.to == i + 1
    &&& edge.label@ == "next"@
    &&& edge.style@ == "dashed"@
}

/// Whether `graph` describes the control flow of a sequence whose children
/// have the names `names`: one node for each child, in order and under the
/// child's name, and an edge from each node to the next.
pub open spec fn is_sequence_graph(graph: Graph, names: Seq<Seq<char>>) -> bool {
    &&& graph.nodes@.len() == names.len()
    &&& forall|i: int| 0 <= i < names.len() ==> (#[trigger] graph.nodes@[i])@ == names[i]
    &&& graph.edges@.len() == if names.len() == 0 {
        0
    } else {
        names.len() - 1
    }
    &&& forall|i: int| 0 <= i < graph.edges@.len() ==> is_next_edge(#[trigger] graph.edges@[i], i)
}

/// Whether every edge of `graph` joins two of its nodes.
pub open spec fn is_closed(graph: Graph) -> bool {
    forall|i: int|
        0 <= i < graph.edges@.len() ==> (#[trigger] graph.edges@[i]).from < graph.nodes@.len()
            && graph.edges@[i].to < graph.nodes@.len()
}

/// The statement for a directed edge between the nodes named `from` and
/// `to` that has two attributes, in the language of Graphviz: the two names
/// with an arrow between them, then in square brackets each attribute as its
/// key, an equals sign, and its value in double quotes.
pub open spec fn edge_text(
    from: Seq<char>,
    to: Seq<char>,
    first_key: Seq<char>,
    first_value: Seq<char>,
    second_key: Seq<char>,
    second_value: Seq<char>,
) -> Seq<char> {
    from + " -> "@ + to + "["@ + first_key + " = \""@ + first_value + "\" "@ + second_key
        + " = \""@ + second_value + "\" ]"@
}

/// The statement for the edge at position `i` of `graph`, with its label and
/// its style as attributes.
pub open spec fn edge_line(graph: Graph, i: int) -> Seq<char> {
    let edge = graph.edges@[i];
    edge_text(
        graph.nodes@[edge.from as int]@,
        graph.nodes@[edge.to as int]@,
        "label"@,
        edge.label@,
        "style"@,
        edge.style@,
    )
}

/// Renders one edge with dot_rs: two nodes from `new_node_string`, joined by
/// `new_edge` and `add_node`, with two attributes set by `with_attribute`, as
/// `Stmt::string` writes the edge for a directed graph. dot_rs writes the
/// names and the attributes as they are, without escaping, in the form that
/// `edge_text` states.
#[verifier::external_body]
fn render_edge(
    from: &str,
    to: &str,
    first_key: &str,
    first_value: &str,
    second_key: &str,
    second_value: &str,
) -> (text: String)
    ensures
        text@ == edge_text(from@, to@, first_key@, first_value@, second_key@, second_value@),
{
    let head = dot_rs::new_node_string(from);
    let tail = dot_rs::new_node_string(to);
    let edge = dot_rs::new_edge(&head).add_node(&tail).with_attribute(
        first_key,
        first_value,
    ).with_attribute(second_key, second_value);
    dot_rs::Stmt::string(&edge, true)
}

impl Graph {
    /// The statements for the edges, in order; `None` where an edge names a
    /// node that the graph does not have.
    pub fn edge_statements(&self) -> (lines: Option<Vec<String>>)
        ensures
            lines.is_some() <==> is_closed(*self),
            lines matches Some(all) ==> all@.len() == self.edges@.len() && forall|i: int|
                0 <= i < all@.len() ==> (#[trigger] all@[i])@ == edge_line(*self, i),
    {
        let n = self.edges.len();
        let mut all: Vec<String> = Vec::new();
        let mut i: usize = 0;
        while i < n
            invariant
                i <= n,
                n == self.edges.len(),
                all@.len() == i,
                forall|j: int|
                    0 <= j < i ==> (#[trigger] self.edges@[j]).from < self.nodes@.len()
                        && self.edges@[j].to < self.nodes@.len(),
                forall|j: int| 0 <= j < i ==> (#[trigger] all@[j])@ == edge_line(*self, j),
            decreases n - i,
        {
            let edge = &self.edges[i];
            if edge.from >= self.nodes.len() || edge.to >= self.nodes.len() {
                return None;
            }
            all.push(
                render_edge(
                    self.nodes[edge.from].as_str(),
                    self.nodes[edge.to].as_str(),
                    "label",
                    edge.label.as_str(),
                    "style",
                    edge.style.as_str(),
                ),
            );
            i += 1;
        }
        Some(all)
    }
}

/// The names of `tasks`, in order.
pub open spec fn labels<T: State>(tasks: Seq<&dyn Task<T>>) -> Seq<Seq<char>> {
    Seq::new(tasks.len(), |i: int| tasks[i].label())
}

/// Describes a sequence: its children as nodes, and the order in which they
/// run as edges.
pub fn transform_sequence_task<'a, T: State>(task: &'a SequenceTask<'a, T>) -> (graph: Graph)
    ensures
        is_sequence_graph(graph, labels(task.tasks@)),
        is_closed(graph),
{
    let n = task.tasks.len();
    let mut nodes: Vec<String> = Vec::new();
    let mut edges: Vec<Edge> = Vec::new();
    let mut i: usize = 0;
    while i < n
        invariant
            i <= n,
            n == task.tasks.len(),
            nodes@.len() == i,
            forall|j: int| 0 <= j < i ==> (#[trigger] nodes@[j])@ == task.tasks@[j].label(),
            edges@.len() == if i == 0 {
                0
            } else {
                i - 1
            },
            forall|j: int| 0 <= j < edges@.len() ==> is_next_edge(#[trigger] edges@[j], j),
        decreases n - i,
    {
        nodes.push(task.tasks[i].name().to_owned());
        if i > 0 {
            edges.push(
                Edge { from: i - 1, to: i, label: "next".to_owned(), style: "dashed".to_owned() },
            );
        }
        i += 1;
    }
    Graph { nodes, edges }
}

} // verus!
