//! The read path: what a question is answered from.
//!
//! [`SearchType::Summaries`] answers from summaries that a vector search found;
//! [`SearchType::GraphCompletion`] lets a vector search pick entities and
//! answers from what the graph holds around them.

use vstd::hash_map::StringHashMap;
use vstd::prelude::*;
use vstd::string::*;

use crate::json::{doc_text, doc_view_parts, json_text, member, parse_doc, parsed_json, Doc, Json};
use crate::storage::graph::{
    edge_views, node_views, reached_views, traverse_of, EdgeRow, Graph, GraphEdge, GraphNode,
    GraphStore, NodeRow, ReachedNode, ReachedRow, edge_among,
};
use crate::storage::vector::{VectorHit, TABLE_ENTITY, TABLE_TEXT_SUMMARY};
use crate::text::{
    ascii_upper, blank, chars_of, concat2, concat3, is_blank, opt_str, opt_view, owned, same,
    string_of, to_ascii_upper, trim, trim_end, trim_end_of, trim_of, views,
};

verus! {

/// What the model is told where nothing else is asked for.
pub const DEFAULT_SYSTEM_PROMPT: &'static str = "You are a memory assistant. Answer the user's question using ONLY the memory context provided. Be concise and concrete. If the context does not contain the answer, say so plainly instead of guessing. Answer in the language of the question.";

/// How many characters of context the model is given.
pub const MAX_CONTEXT_CHARS: usize = 12_000;

/// How much of what is known of a node it is given.
pub const MAX_NODE_DESC_CHARS: usize = 300;

/// How much of the text of an edge it is given.
pub const MAX_EDGE_TEXT_CHARS: usize = 200;

// ---------------------------------------------------------------------------
// Options
// ---------------------------------------------------------------------------

/// How a question is answered.
#[derive(Debug, Clone, Copy, PartialEq, Eq, Structural)]
pub enum SearchType {
    Summaries,
    GraphCompletion,
}

/// A text that names no search type, in upper case and without white space
/// around it.
#[derive(Debug, PartialEq)]
pub struct UnknownSearchType {
    pub given: String,
}

/// The search type that a text names.
pub open spec fn search_type_of(raw: Seq<char>) -> Option<SearchType> {
    let name = ascii_upper(trim_of(raw));
    if name == "SUMMARIES"@ || name == "SUMMARY"@ {
        Some(SearchType::Summaries)
    } else if name == "GRAPH_COMPLETION"@ || name == "GRAPH"@ {
        Some(SearchType::GraphCompletion)
    } else {
        None
    }
}

/// What a search type is called.
pub open spec fn search_type_name(t: SearchType) -> Seq<char> {
    match t {
        SearchType::Summaries => "SUMMARIES"@,
        SearchType::GraphCompletion => "GRAPH_COMPLETION"@,
    }
}

impl SearchType {
    /// Reads a search type, in either case.
    pub fn parse(raw: &str) -> (r: Result<SearchType, UnknownSearchType>)
        ensures
            match r {
                Ok(t) => search_type_of(raw@) == Some(t),
                Err(e) => search_type_of(raw@) is None && e.given@ == ascii_upper(trim_of(raw@)),
            },
    {
        let name = to_ascii_upper(trim(raw).as_str());
        if same(name.as_str(), "SUMMARIES") || same(name.as_str(), "SUMMARY") {
            Ok(SearchType::Summaries)
        } else if same(name.as_str(), "GRAPH_COMPLETION") || same(name.as_str(), "GRAPH") {
            Ok(SearchType::GraphCompletion)
        } else {
            Err(UnknownSearchType { given: name })
        }
    }

    pub fn as_str(self) -> (r: &'static str)
        ensures
            r@ == search_type_name(self),
    {
        match self {
            SearchType::Summaries => "SUMMARIES",
            SearchType::GraphCompletion => "GRAPH_COMPLETION",
        }
    }
}

/// Reading the name of a search type gives it back.
pub proof fn search_type_reads_back(t: SearchType)
    ensures
        search_type_of(search_type_name(t)) == Some(t),
{
    reveal_strlit("SUMMARIES");
    reveal_strlit("SUMMARY");
    reveal_strlit("GRAPH_COMPLETION");
    reveal_strlit("GRAPH");
    let name = search_type_name(t);
    assert(trim_of(name) =~= name);
    assert(ascii_upper(name) =~= name);
    assert("GRAPH_COMPLETION"@.len() != "SUMMARIES"@.len());
    assert("GRAPH_COMPLETION"@.len() != "SUMMARY"@.len());
}

/// How a question is answered, and from how much.
#[derive(Debug, Clone)]
pub struct RecallOptions {
    pub search_type: SearchType,
    /// How many vectors are looked for.
    pub top_k: usize,
    /// How far the graph is walked.
    pub max_hops: u32,
    pub system_prompt: Option<String>,
}

impl Default for RecallOptions {
    fn default() -> (r: RecallOptions)
        ensures
            r.search_type == SearchType::Summaries,
            r.top_k == 5,
            r.max_hops == 2,
            r.system_prompt is None,
    {
        RecallOptions {
            search_type: SearchType::Summaries,
            top_k: 5,
            max_hops: 2,
            system_prompt: None,
        }
    }
}

/// The answer, and what it was given from.
#[derive(Debug)]
pub struct RecallOutcome<T> {
    pub answer: String,
    pub search_type: SearchType,
    pub seeds: Vec<VectorHit<T>>,
    pub reached_nodes: usize,
    pub reached_edges: usize,
    pub context_chars: usize,
}

// ---------------------------------------------------------------------------
// Lines
// ---------------------------------------------------------------------------

/// The first `max` characters of a text, with an ellipsis where that is not all.
pub open spec fn truncated(s: Seq<char>, max: nat) -> Seq<char> {
    if s.len() <= max {
        s
    } else {
        s.take(max as int) + "…"@
    }
}

/// The first `max` characters of a text, with an ellipsis where that is not all.
pub fn truncate(s: &str, max: usize) -> (r: String)
    ensures
        r@ == truncated(s@, max as nat),
{
    let chars = chars_of(s);
    if chars.len() <= max {
        return owned(s);
    }
    let cut = string_of(&chars, 0, max);
    assert(cut@ =~= s@.take(max as int));
    concat2(cut.as_str(), "…")
}

/// What properties say under a key: a text that is not blank, or a number.
pub open spec fn property_of(raw: Option<Seq<char>>, key: Seq<char>) -> Option<Seq<char>> {
    match raw {
        Some(text) => match parsed_json(text) {
            Some(doc) => match member(doc, key) {
                Some(Json::Text(s)) => if blank(s) {
                    None
                } else {
                    Some(s)
                },
                Some(Json::Int(n)) => Some(json_text(Json::Int(n))),
                Some(Json::Float(n)) => Some(json_text(Json::Float(n))),
                _ => None,
            },
            None => None,
        },
        None => None,
    }
}

/// What properties say under a key: a text that is not blank, or a number.
pub fn props_field(props: Option<&str>, key: &str) -> (r: Option<String>)
    ensures
        opt_view(r) == property_of(
            match props {
                Some(p) => Some(p@),
                None => None,
            },
            key@,
        ),
{
    broadcast use doc_view_parts;

    let raw = match props {
        Some(raw) => raw,
        None => return None,
    };
    let doc = match parse_doc(raw) {
        Some(doc) => doc,
        None => return None,
    };
    match doc.get(key) {
        Some(Doc::Text(s)) => if is_blank(s.as_str()) {
            None
        } else {
            Some(owned(s.as_str()))
        },
        Some(Doc::Num(n)) => {
            let number = match doc.get(key) {
                Some(d) => d,
                None => return None,
            };
            Some(doc_text(number))
        },
        _ => None,
    }
}

/// The name of a node, if it has one that is not blank.
pub open spec fn shown_name(n: NodeRow) -> Option<Seq<char>> {
    match n.name {
        Some(name) => if blank(name) {
            None
        } else {
            Some(name)
        },
        None => None,
    }
}

/// What a node is called in a line of its own.
pub open spec fn label_of_node(n: NodeRow) -> Seq<char> {
    let type_ = match n.type_ {
        Some(t) => t,
        None => "Node"@,
    };
    match shown_name(n) {
        Some(name) => "["@ + type_ + "]"@ + " "@ + name,
        None => "["@ + type_ + "]"@,
    }
}

/// What a node is called in a line of its own.
pub fn node_label(node: &GraphNode) -> (r: String)
    ensures
        r@ == label_of_node(node@),
{
    let mut line = match &node.type_ {
        Some(t) => concat3("[", t.as_str(), "]"),
        None => concat3("[", "Node", "]"),
    };
    match &node.name {
        Some(name) => if !is_blank(name.as_str()) {
            line.append(" ");
            line.append(name.as_str());
        },
        None => {},
    }
    line
}

/// What is known of a node: its description, its text or its name, whichever
/// its properties hold first.
pub open spec fn detail_of(n: NodeRow) -> Option<Seq<char>> {
    match property_of(n.properties, "description"@) {
        Some(s) => Some(s),
        None => match property_of(n.properties, "text"@) {
            Some(s) => Some(s),
            None => property_of(n.properties, "name"@),
        },
    }
}

/// The line of a node.
pub open spec fn node_line_of(n: NodeRow) -> Seq<char> {
    match detail_of(n) {
        Some(d) => label_of_node(n) + " — "@ + truncated(d, MAX_NODE_DESC_CHARS as nat),
        None => label_of_node(n),
    }
}

/// The line of a node.
pub fn node_line(n: &GraphNode) -> (r: String)
    ensures
        r@ == node_line_of(n@),
{
    let mut line = node_label(n);
    let detail = match props_field(opt_str(&n.properties), "description") {
        Some(s) => Some(s),
        None => match props_field(opt_str(&n.properties), "text") {
            Some(s) => Some(s),
            None => props_field(opt_str(&n.properties), "name"),
        },
    };
    match detail {
        Some(d) => {
            line.append(" — ");
            line.append(truncate(d.as_str(), MAX_NODE_DESC_CHARS).as_str());
        },
        None => {},
    }
    line
}

/// The lines of nodes.
pub open spec fn node_lines_of(nodes: Seq<NodeRow>) -> Seq<Seq<char>> {
    nodes.map_values(|n: NodeRow| node_line_of(n))
}

/// The lines of nodes.
pub fn node_lines(nodes: &[GraphNode]) -> (r: Vec<String>)
    ensures
        views(r@) == node_lines_of(node_views(nodes@)),
{
    let mut out: Vec<String> = Vec::new();
    let mut i: usize = 0;
    while i < nodes.len()
        invariant
            i <= nodes@.len(),
            out@.len() == i,
            forall|k: int| 0 <= k < i ==> (#[trigger] out@[k])@ == node_line_of(nodes@[k]@),
        decreases nodes@.len() - i,
    {
        out.push(node_line(&nodes[i]));
        i += 1;
    }
    assert(views(out@) =~= node_lines_of(node_views(nodes@)));
    out
}

/// What the node with an identifier is called in the line of an edge; nothing
/// where there is none.
pub open spec fn name_for(nodes: Seq<NodeRow>, id: Seq<char>) -> Option<Seq<char>>
    decreases nodes.len(),
{
    if nodes.len() == 0 {
        None
    } else if nodes.last().id == id {
        match shown_name(nodes.last()) {
            Some(name) => Some(name),
            None => Some(label_of_node(nodes.last())),
        }
    } else {
        name_for(nodes.drop_last(), id)
    }
}

/// What an endpoint of an edge is called: the node's name, or the identifier.
pub open spec fn end_name(nodes: Seq<NodeRow>, id: Seq<char>) -> Seq<char> {
    match name_for(nodes, id) {
        Some(name) => name,
        None => id,
    }
}

/// The line of an edge.
pub open spec fn edge_line_of(nodes: Seq<NodeRow>, e: EdgeRow) -> Seq<char> {
    let rel = match e.relationship_name {
        Some(r) => r,
        None => "related_to"@,
    };
    let line = end_name(nodes, e.from_id) + " -["@ + rel + "]-> "@ + end_name(nodes, e.to_id);
    match property_of(e.properties, "edge_text"@) {
        Some(text) => line + " ("@ + truncated(text, MAX_EDGE_TEXT_CHARS as nat) + ")"@,
        None => line,
    }
}

/// The lines of edges.
pub open spec fn edge_lines_of(nodes: Seq<NodeRow>, edges: Seq<EdgeRow>) -> Seq<Seq<char>> {
    edges.map_values(|e: EdgeRow| edge_line_of(nodes, e))
}

/// The map holds what each node is called.
pub open spec fn names_nodes(names: Map<Seq<char>, String>, nodes: Seq<NodeRow>) -> bool {
    forall|id: Seq<char>|
        #![trigger names.contains_key(id)]
        match name_for(nodes, id) {
            Some(name) => names.contains_key(id) && names[id]@ == name,
            None => !names.contains_key(id),
        }
}

/// What each node is called in the line of an edge, by identifier.
fn node_names(nodes: &[GraphNode]) -> (r: StringHashMap<String>)
    ensures
        names_nodes(r@, node_views(nodes@)),
{
    let ghost all = node_views(nodes@);
    let mut names: StringHashMap<String> = StringHashMap::new();
    let mut i: usize = 0;
    assert(names_nodes(names@, all.take(0)));
    while i < nodes.len()
        invariant
            i <= nodes@.len(),
            all == node_views(nodes@),
            names_nodes(names@, all.take(i as int)),
        decreases nodes@.len() - i,
    {
        let ghost before = names@;
        assert(all.take(i + 1).drop_last() =~= all.take(i as int));
        assert(all.take(i + 1).last() == nodes@[i as int]@);
        let n = &nodes[i];
        let label = match &n.name {
            Some(name) => if is_blank(name.as_str()) {
                node_label(n)
            } else {
                owned(name.as_str())
            },
            None => node_label(n),
        };
        names.insert(owned(n.id.as_str()), label);
        assert(names_nodes(names@, all.take(i + 1))) by {
            assert forall|id: Seq<char>|
                #![trigger names@.contains_key(id)]
                match name_for(all.take(i + 1), id) {
                    Some(name) => names@.contains_key(id) && names@[id]@ == name,
                    None => !names@.contains_key(id),
                } by {
                assert(before.contains_key(id) ==> before.dom().contains(id));
            }
        }
        i += 1;
    }
    assert(all.take(all.len() as int) =~= all);
    names
}

/// What an endpoint of an edge is called.
fn find_name(names: &StringHashMap<String>, nodes: Ghost<Seq<NodeRow>>, id: &str) -> (r: String)
    requires
        names_nodes(names@, nodes@),
    ensures
        r@ == end_name(nodes@, id@),
{
    assert(names@.contains_key(id@) ==> names@.dom().contains(id@));
    match names.get(id) {
        Some(name) => owned(name.as_str()),
        None => owned(id),
    }
}

/// The lines of edges, their endpoints called by the names of the nodes.
pub fn edge_lines(edges: &[GraphEdge], nodes: &[GraphNode]) -> (r: Vec<String>)
    ensures
        views(r@) == edge_lines_of(node_views(nodes@), edge_views(edges@)),
{
    let ghost rows = node_views(nodes@);
    let names = node_names(nodes);
    let mut out: Vec<String> = Vec::new();
    let mut i: usize = 0;
    while i < edges.len()
        invariant
            i <= edges@.len(),
            names_nodes(names@, rows),
            out@.len() == i,
            forall|k: int| 0 <= k < i ==> (#[trigger] out@[k])@ == edge_line_of(rows, edges@[k]@),
        decreases edges@.len() - i,
    {
        let e = &edges[i];
        let mut line = find_name(&names, Ghost(rows), e.from_id.as_str());
        line.append(" -[");
        match &e.relationship_name {
            Some(rel) => line.append(rel.as_str()),
            None => line.append("related_to"),
        }
        line.append("]-> ");
        line.append(find_name(&names, Ghost(rows), e.to_id.as_str()).as_str());
        match props_field(opt_str(&e.properties), "edge_text") {
            Some(text) => {
                line.append(" (");
                line.append(truncate(text.as_str(), MAX_EDGE_TEXT_CHARS).as_str());
                line.append(")");
            },
            None => {},
        }
        out.push(line);
        i += 1;
    }
    assert(views(out@) =~= edge_lines_of(rows, edge_views(edges@)));
    out
}

// ---------------------------------------------------------------------------
// Context
// ---------------------------------------------------------------------------

/// Lines put behind a text, each with its end, as long as all is not longer than
/// the model is given; then a remark that there was more.
pub open spec fn filled(out: Seq<char>, lines: Seq<Seq<char>>) -> Seq<char>
    decreases lines.len(),
{
    if lines.len() == 0 {
        out
    } else if out.len() + lines[0].len() + 1 > MAX_CONTEXT_CHARS {
        out + "\n… (context truncated)"@
    } else {
        filled(out + lines[0] + "\n"@, lines.skip(1))
    }
}

/// As many of the lines as the model is given.
pub open spec fn joined_of(lines: Seq<Seq<char>>) -> Seq<char> {
    trim_end_of(filled(Seq::empty(), lines))
}

/// As many of the lines as the model is given.
pub fn join_bounded(lines: &[String]) -> (r: String)
    ensures
        r@ == joined_of(views(lines@)),
{
    let ghost all = views(lines@);
    let mut out = String::new();
    let mut used: usize = 0;
    let mut i: usize = 0;
    assert(all.skip(0) =~= all);
    assert(out@ =~= Seq::empty());
    while i < lines.len()
        invariant
            i <= lines@.len(),
            all == views(lines@),
            used == out@.len(),
            used <= MAX_CONTEXT_CHARS,
            filled(Seq::empty(), all) == filled(out@, all.skip(i as int)),
        decreases lines@.len() - i,
    {
        let ghost rest = all.skip(i as int);
        assert(rest[0] == lines@[i as int]@);
        assert(rest.skip(1) =~= all.skip(i + 1));
        let n: usize = lines[i].as_str().unicode_len();
        if n >= MAX_CONTEXT_CHARS || used + n + 1 > MAX_CONTEXT_CHARS {
            out.append("\n… (context truncated)");
            return trim_end(out.as_str());
        }
        proof {
            reveal_strlit("\n");
        }
        out.append(lines[i].as_str());
        out.append("\n");
        used = used + n + 1;
        i += 1;
    }
    trim_end(out.as_str())
}

proof fn filled_is_bounded(out: Seq<char>, lines: Seq<Seq<char>>)
    requires
        out.len() <= MAX_CONTEXT_CHARS,
    ensures
        filled(out, lines).len() <= MAX_CONTEXT_CHARS + 22,
    decreases lines.len(),
{
    reveal_strlit("\n… (context truncated)");
    reveal_strlit("\n");
    if lines.len() > 0 && out.len() + lines[0].len() + 1 <= MAX_CONTEXT_CHARS {
        filled_is_bounded(out + lines[0] + "\n"@, lines.skip(1));
    }
}

proof fn trimming_does_not_lengthen(s: Seq<char>)
    ensures
        trim_end_of(s).len() <= s.len(),
    decreases s.len(),
{
    if s.len() > 0 {
        trimming_does_not_lengthen(s.drop_last());
    }
}

/// However many lines there are, the context is bounded.
pub proof fn context_stays_bounded(lines: Seq<Seq<char>>)
    ensures
        joined_of(lines).len() <= MAX_CONTEXT_CHARS + 22,
{
    filled_is_bounded(Seq::empty(), lines);
    trimming_does_not_lengthen(filled(Seq::empty(), lines));
}

/// The vector table that is searched.
pub fn seed_table(search_type: SearchType) -> (r: &'static str)
    ensures
        r@ == (match search_type {
            SearchType::Summaries => TABLE_TEXT_SUMMARY@,
            SearchType::GraphCompletion => TABLE_ENTITY@,
        }),
{
    match search_type {
        SearchType::Summaries => TABLE_TEXT_SUMMARY,
        SearchType::GraphCompletion => TABLE_ENTITY,
    }
}

/// The texts of what a search found, cut short.
pub open spec fn summary_lines<T>(hits: Seq<VectorHit<T>>) -> Seq<Seq<char>>
    decreases hits.len(),
{
    if hits.len() == 0 {
        Seq::empty()
    } else {
        match opt_view(hits.last().text) {
            Some(t) => summary_lines(hits.drop_last()).push(
                truncated(t, (MAX_NODE_DESC_CHARS * 2) as nat),
            ),
            None => summary_lines(hits.drop_last()),
        }
    }
}

/// The identifiers of what a search found.
pub open spec fn hit_ids<T>(hits: Seq<VectorHit<T>>) -> Seq<Seq<char>> {
    hits.map_values(|h: VectorHit<T>| h.id@)
}

/// The nodes that a walk reached.
pub open spec fn reached_rows(reached: Seq<ReachedRow>) -> Seq<NodeRow> {
    reached.map_values(|r: ReachedRow| r.node)
}

/// The nodes around what a search found.
pub open spec fn nodes_around(g: Graph, seeds: Seq<Seq<char>>, hops: nat) -> Seq<NodeRow> {
    reached_rows(traverse_of(g, seeds, hops, Seq::empty()))
}

/// The edges between nodes.
pub open spec fn edges_between(g: Graph, nodes: Seq<NodeRow>) -> Seq<EdgeRow> {
    g.edges.filter(edge_among(nodes.map_values(|n: NodeRow| n.id)))
}

/// The lines on nodes and the edges between them.
pub open spec fn graph_lines(nodes: Seq<NodeRow>, edges: Seq<EdgeRow>) -> Seq<Seq<char>> {
    let first = seq!["Entities:"@] + node_lines_of(nodes);
    if edges.len() == 0 {
        first
    } else {
        first + seq![Seq::empty(), "Relationships:"@] + edge_lines_of(nodes, edges)
    }
}

/// What a question is answered from, and how much of the graph that is.
pub struct Context {
    pub text: Seq<char>,
    pub nodes: nat,
    pub edges: nat,
}

/// What a question is answered from, given what a search found.
pub open spec fn context_of<T>(
    t: SearchType,
    hits: Seq<VectorHit<T>>,
    g: Graph,
    hops: nat,
) -> Context {
    match t {
        SearchType::Summaries => Context {
            text: joined_of(summary_lines(hits)),
            nodes: 0,
            edges: 0,
        },
        SearchType::GraphCompletion => {
            let nodes = nodes_around(g, hit_ids(hits), hops);
            let edges = edges_between(g, nodes);
            Context {
                text: joined_of(graph_lines(nodes, edges)),
                nodes: nodes.len(),
                edges: edges.len(),
            }
        },
    }
}

/// The lines of summaries.
fn summary_texts<T>(hits: &[VectorHit<T>]) -> (r: Vec<String>)
    ensures
        views(r@) == summary_lines(hits@),
{
    let mut out: Vec<String> = Vec::new();
    let mut i: usize = 0;
    assert(views(out@) =~= summary_lines(hits@.take(0)));
    while i < hits.len()
        invariant
            i <= hits@.len(),
            views(out@) == summary_lines(hits@.take(i as int)),
        decreases hits@.len() - i,
    {
        let ghost before = views(out@);
        assert(hits@.take(i + 1).drop_last() =~= hits@.take(i as int));
        match &hits[i].text {
            Some(t) => {
                let line = truncate(t.as_str(), MAX_NODE_DESC_CHARS * 2);
                let ghost text = line@;
                out.push(line);
                assert(views(out@) =~= before.push(text));
            },
            None => {},
        }
        i += 1;
    }
    assert(hits@.take(hits@.len() as int) =~= hits@);
    out
}

/// The identifiers of what a search found.
fn seed_ids<T>(hits: &[VectorHit<T>]) -> (r: Vec<String>)
    ensures
        views(r@) == hit_ids(hits@),
{
    let mut out: Vec<String> = Vec::new();
    let mut i: usize = 0;
    while i < hits.len()
        invariant
            i <= hits@.len(),
            out@.len() == i,
            forall|k: int| 0 <= k < i ==> (#[trigger] out@[k])@ == hits@[k].id@,
        decreases hits@.len() - i,
    {
        out.push(owned(hits[i].id.as_str()));
        i += 1;
    }
    assert(views(out@) =~= hit_ids(hits@));
    out
}

/// The nodes that a walk reached, and their identifiers.
fn nodes_of(reached: Vec<ReachedNode>) -> (r: (Vec<GraphNode>, Vec<String>))
    ensures
        node_views(r.0@) == reached_rows(reached_views(reached@)),
        views(r.1@) == node_views(r.0@).map_values(|n: NodeRow| n.id),
{
    let ghost all = reached_rows(reached_views(reached@));
    let mut nodes: Vec<GraphNode> = Vec::new();
    let mut ids: Vec<String> = Vec::new();
    for r in it: reached
        invariant
            all == reached_rows(reached_views(it.seq())),
            nodes@.len() == it.index(),
            ids@.len() == it.index(),
            forall|k: int| 0 <= k < nodes@.len() ==> (#[trigger] nodes@[k])@ == all[k],
            forall|k: int| 0 <= k < ids@.len() ==> (#[trigger] ids@[k])@ == all[k].id,
    {
        assert(all[it.index() as int] == r.node@);
        ids.push(owned(r.node.id.as_str()));
        nodes.push(r.node);
    }
    assert(node_views(nodes@) =~= all);
    assert(views(ids@) =~= node_views(nodes@).map_values(|n: NodeRow| n.id));
    (nodes, ids)
}

/// The lines on nodes and the edges between them.
fn graph_texts(nodes: &[GraphNode], edges: &[GraphEdge]) -> (r: Vec<String>)
    ensures
        views(r@) == graph_lines(node_views(nodes@), edge_views(edges@)),
{
    let mut lines: Vec<String> = Vec::new();
    lines.push(owned("Entities:"));
    let mut more = node_lines(nodes);
    let ghost first = views(more@);
    lines.append(&mut more);
    assert(views(lines@) =~= seq!["Entities:"@] + first);
    if edges.len() > 0 {
        let ghost had = views(lines@);
        lines.push(String::new());
        lines.push(owned("Relationships:"));
        let mut rest = edge_lines(edges, nodes);
        let ghost last = views(rest@);
        assert(lines@[lines@.len() - 2]@ =~= Seq::<char>::empty());
        assert(views(lines@) =~= had + seq![Seq::empty(), "Relationships:"@]);
        let ghost upto = views(lines@);
        lines.append(&mut rest);
        assert(views(lines@) =~= upto + last);
    }
    lines
}

/// What a question is answered from.
#[derive(Debug)]
pub struct Gathered {
    pub context: String,
    pub nodes: usize,
    pub edges: usize,
}

/// What a question is answered from, given what a search found.
pub fn gather<T>(
    search_type: SearchType,
    hits: &[VectorHit<T>],
    graph: &GraphStore,
    max_hops: u32,
) -> (r: Gathered)
    ensures
        ({
            let c = context_of(search_type, hits@, graph@, max_hops as nat);
            r.context@ == c.text && r.nodes == c.nodes && r.edges == c.edges
        }),
{
    match search_type {
        SearchType::Summaries => Gathered {
            context: join_bounded(&summary_texts(hits)),
            nodes: 0,
            edges: 0,
        },
        SearchType::GraphCompletion => {
            let seeds = seed_ids(hits);
            let reached = graph.traverse(&seeds, max_hops, None);
            let (nodes, ids) = nodes_of(reached);
            let edges = graph.edges_within(&ids);
            let lines = graph_texts(&nodes, &edges);
            Gathered { context: join_bounded(&lines), nodes: nodes.len(), edges: edges.len() }
        },
    }
}

// ---------------------------------------------------------------------------
// Asking
// ---------------------------------------------------------------------------

/// What the model is asked.
#[derive(Debug)]
pub struct Question {
    pub system: String,
    pub user: String,
    pub reached_nodes: usize,
    pub reached_edges: usize,
    pub context_chars: usize,
}

/// What the user is said to ask.
pub open spec fn user_prompt(context: Seq<char>, query: Seq<char>) -> Seq<char> {
    "Memory context:\n"@ + context + "\n\nQuestion: "@ + query
}

/// What the model is asked, given what a search found; nothing where nothing
/// was found, or nothing that says anything.
pub fn question<T>(
    query: &str,
    opts: &RecallOptions,
    hits: &[VectorHit<T>],
    graph: &GraphStore,
) -> (r: Option<Question>)
    ensures
        ({
            let c = context_of(opts.search_type, hits@, graph@, opts.max_hops as nat);
            match r {
                Some(q) => {
                    &&& hits@.len() > 0
                    &&& !blank(c.text)
                    &&& q.system@ == (match opt_view(opts.system_prompt) {
                        Some(s) => s,
                        None => DEFAULT_SYSTEM_PROMPT@,
                    })
                    &&& q.user@ == user_prompt(c.text, query@)
                    &&& q.reached_nodes == c.nodes
                    &&& q.reached_edges == c.edges
                    &&& q.context_chars == c.text.len()
                },
                None => hits@.len() == 0 || blank(c.text),
            }
        }),
{
    if hits.len() == 0 {
        return None;
    }
    let gathered = gather(opts.search_type, hits, graph, opts.max_hops);
    if is_blank(gathered.context.as_str()) {
        return None;
    }
    let system = match &opts.system_prompt {
        Some(s) => owned(s.as_str()),
        None => owned(DEFAULT_SYSTEM_PROMPT),
    };
    let mut user = concat3("Memory context:\n", gathered.context.as_str(), "\n\nQuestion: ");
    user.append(query);
    let context_chars: usize = gathered.context.as_str().unicode_len();
    Some(
        Question {
            system,
            user,
            reached_nodes: gathered.nodes,
            reached_edges: gathered.edges,
            context_chars,
        },
    )
}

/// The outcome of a question that was answered.
pub fn answered<T>(
    search_type: SearchType,
    seeds: Vec<VectorHit<T>>,
    question: &Question,
    answer: String,
) -> (r: RecallOutcome<T>)
    ensures
        r.answer == answer,
        r.search_type == search_type,
        r.seeds == seeds,
        r.reached_nodes == question.reached_nodes,
        r.reached_edges == question.reached_edges,
        r.context_chars == question.context_chars,
{
    RecallOutcome {
        answer,
        search_type,
        seeds,
        reached_nodes: question.reached_nodes,
        reached_edges: question.reached_edges,
        context_chars: question.context_chars,
    }
}

/// The outcome of a question that nothing was found for.
pub fn empty_outcome<T>(search_type: SearchType) -> (r: RecallOutcome<T>)
    ensures
        r.answer@ == "未找到相关记忆。"@,
        r.search_type == search_type,
        r.seeds@.len() == 0,
        r.reached_nodes == 0,
        r.reached_edges == 0,
        r.context_chars == 0,
{
    RecallOutcome {
        answer: owned("未找到相关记忆。"),
        search_type,
        seeds: Vec::new(),
        reached_nodes: 0,
        reached_edges: 0,
        context_chars: 0,
    }
}

} // verus!
