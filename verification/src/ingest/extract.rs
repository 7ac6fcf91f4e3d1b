//! What the language model is asked to extract, and how its reply is read.

use vstd::prelude::*;
use vstd::string::*;

use crate::json::{parse_doc, parsed_json, unambiguous, Doc};
use crate::pattern::{
    find_chars, find_from_is_first, find_of, rfind_chars, rfind_from_is_last, rfind_of, starts_of,
    starts_with, trim_end_matches, trim_prefixes, trim_start_matches, trim_suffixes,
};
use crate::text::{chars_of, concat2, opt_view, owned, string_of, trim, trim_of};

verus! {

/// The instructions for extracting a knowledge graph.
pub const EXTRACT_SYSTEM: &'static str = r#"You are a top-tier algorithm designed for extracting information in structured formats to build a knowledge graph.
**Nodes** represent entities and concepts. They're akin to Wikipedia nodes.
**Edges** represent relationships between concepts. They're akin to Wikipedia links.
Every edge should include a description when the text supports relevant
information about the endpoints. The description must use the endpoint names,
stay dry and efficient, and may include useful qualifiers from the source text.
Do not add outside knowledge.
  - Good: Alice works at Acme as a platform engineer on the search team.
  - Bad: This edge describes an employment relationship.

The aim is to achieve simplicity and clarity in the knowledge graph.
# 1. Labeling Nodes
**Consistency**: Ensure you use basic or elementary types for node labels.
  - For example, when you identify an entity representing a person, always label it as **"Person"**.
  - Avoid using more specific terms like "Mathematician" or "Scientist", keep those as "profession" property.
  - Don't use too generic terms like "Entity".
**Node IDs**: Never utilize integers as node IDs.
  - Node IDs should be names or human-readable identifiers found in the text.
**Node Names**: Every node MUST include a "name" field.
  - Use the most complete human-readable name for the entity (e.g., "Albert Einstein", "Python").
# 2. Handling Numerical Data and Dates
  - For example, when you identify an entity representing a date, make sure it has type **"Date"**.
  - Extract the date in the format "YYYY-MM-DD"
  - If not possible to extract the whole date, extract month or year, or both if available.
  - **Property Format**: Properties must be in a key-value format.
  - **Quotation Marks**: Never use escaped single or double quotes within property values.
  - **Naming Convention**: Use snake_case for relationship names, e.g., `acted_in`.
# 3. Coreference Resolution
  - **Maintain Entity Consistency**: When extracting entities, it's vital to ensure consistency.
  If an entity, is mentioned multiple times in the text but is referred to by different names or pronouns,
  always use the most complete identifier for that entity throughout the knowledge graph.
Remember, the knowledge graph should be coherent and easily understandable, so maintaining consistency in entity references is crucial.
# 4. Strict Compliance
Adhere to the rules strictly. Non-compliance will result in termination.

Respond with ONLY a JSON object of this exact shape, no markdown fences:
{"nodes": [{"id": "entity name", "name": "entity name", "type": "EntityType", "description": "..."}], "edges": [{"source_node_id": "entity name", "target_node_id": "entity name", "relationship_name": "snake_case_name", "description": "one-sentence fact"}]}"#;

/// The instructions for summarizing a chunk.
pub const SUMMARIZE_SYSTEM: &'static str = r#"Summarize the chunk for retrieval.

Output two sections only.

First section:
This chunk is about:
- <Category>: <names or topics>
- <Category>: <names or topics>

First-section rules:
1. List entity/topic categories. Do not list facts here.
2. Use only clear, useful categories.
3. Good categories include People, Companies, Organizations, Places, Roles, Projects, Products, Systems, Concepts, Events, and Topics.
4. Keep category lines short.

Second section:
Facts:
- <self-contained fact>
- <self-contained fact>

Second-section rules:
1. Write complete sentences with clear subjects from the first section.
2. Each fact must stand alone without the chunk or the other facts.
3. Order facts by: time first, category second, entity/topic third.
4. Do not group all facts about one entity if that makes the facts jump backward or forward in time.
5. Make sure the facts cover the full content of the chunk.
6. Do not invent.

Max 200 tokens.

Respond with ONLY a JSON object of this exact shape, no markdown fences:
{"summary": "the summary text"}"#;

/// An entity that the model found.
#[derive(Debug)]
pub struct ExtractedNode {
    pub id: String,
    pub name: String,
    pub type_: String,
    pub description: String,
}

/// A relation that the model found between two entities.
#[derive(Debug)]
pub struct ExtractedEdge {
    pub source_node_id: String,
    pub target_node_id: String,
    pub relationship_name: String,
    pub description: Option<String>,
}

/// What the model found in one chunk.
#[derive(Debug)]
pub struct ExtractedGraph {
    pub nodes: Vec<ExtractedNode>,
    pub edges: Vec<ExtractedEdge>,
}

/// What an [`ExtractedNode`] holds.
pub struct NodeFound {
    pub id: Seq<char>,
    pub name: Seq<char>,
    pub type_: Seq<char>,
    pub description: Seq<char>,
}

/// What an [`ExtractedEdge`] holds.
pub struct EdgeFound {
    pub source_node_id: Seq<char>,
    pub target_node_id: Seq<char>,
    pub relationship_name: Seq<char>,
    pub description: Option<Seq<char>>,
}

/// What an [`ExtractedGraph`] holds.
pub struct GraphFound {
    pub nodes: Seq<NodeFound>,
    pub edges: Seq<EdgeFound>,
}

impl ExtractedNode {
    pub open spec fn view(&self) -> NodeFound {
        NodeFound {
            id: self.id@,
            name: self.name@,
            type_: self.type_@,
            description: self.description@,
        }
    }
}

impl ExtractedEdge {
    pub open spec fn view(&self) -> EdgeFound {
        EdgeFound {
            source_node_id: self.source_node_id@,
            target_node_id: self.target_node_id@,
            relationship_name: self.relationship_name@,
            description: opt_view(self.description),
        }
    }
}

impl ExtractedGraph {
    pub open spec fn view(&self) -> GraphFound {
        GraphFound {
            nodes: self.nodes@.map_values(|n: ExtractedNode| n@),
            edges: self.edges@.map_values(|e: ExtractedEdge| e@),
        }
    }
}

pub open spec fn graph_views(graphs: Seq<ExtractedGraph>) -> Seq<GraphFound> {
    graphs.map_values(|g: ExtractedGraph| g@)
}

impl Default for ExtractedGraph {
    fn default() -> (r: ExtractedGraph)
        ensures
            r.nodes@.len() == 0,
            r.edges@.len() == 0,
    {
        ExtractedGraph { nodes: Vec::new(), edges: Vec::new() }
    }
}

// ---------------------------------------------------------------------------
// The JSON in a reply
// ---------------------------------------------------------------------------

/// What follows the last `</think>`, trimmed; the trimmed text where there is
/// none.
pub open spec fn after_thinking(raw: Seq<char>) -> Seq<char> {
    let text = trim_of(raw);
    match rfind_of(text, "</think>"@) {
        Some(i) => trim_of(text.skip(i + "</think>"@.len())),
        None => text,
    }
}

/// The text without code fences around it.
pub open spec fn unfenced(text: Seq<char>) -> Seq<char> {
    trim_of(
        trim_suffixes(trim_prefixes(trim_prefixes(text, "```json"@), "```"@), "```"@),
    )
}

/// From the first opening to the last closing brace, if the text does not start
/// with a brace and they stand in that order; the whole text otherwise.
pub open spec fn braced(text: Seq<char>) -> Seq<char> {
    if starts_of(text, "{"@) {
        text
    } else {
        match (find_of(text, "{"@), rfind_of(text, "}"@)) {
            (Some(a), Some(b)) if b > a => text.subrange(a, b + 1),
            _ => text,
        }
    }
}

/// The part of a reply that should be JSON.
pub open spec fn candidate_of(raw: Seq<char>) -> Seq<char> {
    braced(unfenced(after_thinking(raw)))
}

/// The part of a reply that should be JSON, without reasoning, fences or prose
/// around it.
pub fn json_candidate(raw: &str) -> (r: String)
    ensures
        r@ == candidate_of(raw@),
{
    proof {
        reveal_strlit("</think>");
        reveal_strlit("```json");
        reveal_strlit("```");
        reveal_strlit("{");
        reveal_strlit("}");
    }
    let trimmed = trim(raw);
    let chars = chars_of(trimmed.as_str());
    let marker = chars_of("</think>");
    let text = match rfind_chars(&chars, &marker) {
        Some(i) => {
            proof {
                rfind_from_is_last(chars@, marker@, chars@.len() - marker@.len());
            }
            let tail = string_of(&chars, i + marker.len(), chars.len());
            assert(tail@ =~= chars@.skip(i + marker@.len()));
            trim(tail.as_str())
        },
        None => trimmed,
    };
    let a = trim_start_matches(text.as_str(), "```json");
    let b = trim_start_matches(a.as_str(), "```");
    let c = trim_end_matches(b.as_str(), "```");
    let stripped = trim(c.as_str());
    if starts_with(stripped.as_str(), "{") {
        return stripped;
    }
    let inner = chars_of(stripped.as_str());
    let n: usize = inner.len();
    let open = chars_of("{");
    let close = chars_of("}");
    proof {
        find_from_is_first(inner@, open@, 0);
        rfind_from_is_last(inner@, close@, inner@.len() - close@.len());
    }
    match (find_chars(&inner, &open, 0), rfind_chars(&inner, &close)) {
        (Some(x), Some(y)) => if y > x {
            string_of(&inner, x, y + 1)
        } else {
            stripped
        },
        _ => stripped,
    }
}

/// Why a reply could not be used.
#[derive(Debug)]
pub enum ExtractError {
    /// The reply is not JSON; holds the beginning of what was tried.
    NotJson(String),
    /// The extraction has no nodes.
    NoNodes,
}

/// The first `n` characters.
pub open spec fn head_of(s: Seq<char>, n: nat) -> Seq<char> {
    if s.len() <= n {
        s
    } else {
        s.take(n as int)
    }
}

/// The first `n` characters of a text.
fn head(s: &str, n: usize) -> (r: String)
    ensures
        r@ == head_of(s@, n as nat),
{
    let cs = chars_of(s);
    if cs.len() <= n {
        owned(s)
    } else {
        let r = string_of(&cs, 0, n);
        assert(r@ =~= s@.take(n as int));
        r
    }
}

/// Reads a reply as JSON, tolerating fences, prose and a reasoning tail.
pub fn parse_loose(raw: &str) -> (r: Result<Doc, ExtractError>)
    ensures
        match r {
            Ok(d) => parsed_json(candidate_of(raw@)) == Some(d@) && unambiguous(d@),
            Err(ExtractError::NotJson(shown)) => parsed_json(candidate_of(raw@)) is None && shown@
                == head_of(candidate_of(raw@), 200),
            Err(ExtractError::NoNodes) => false,
        },
{
    let candidate = json_candidate(raw);
    match parse_doc(candidate.as_str()) {
        Some(d) => Ok(d),
        None => Err(ExtractError::NotJson(head(candidate.as_str(), 200))),
    }
}

// ---------------------------------------------------------------------------
// Extraction and summaries
// ---------------------------------------------------------------------------

/// The instructions sent with a chunk: the caller's, with the demand for JSON
/// behind them, or the standard ones.
pub open spec fn extraction_prompt_of(custom: Option<Seq<char>>) -> Seq<char> {
    match custom {
        Some(p) => p + "\n\nRespond with ONLY a JSON object of the exact schema described above."@,
        None => EXTRACT_SYSTEM@,
    }
}

/// The instructions sent with a chunk for extraction.
pub fn extraction_prompt(custom_prompt: Option<&str>) -> (r: String)
    ensures
        r@ == extraction_prompt_of(
            match custom_prompt {
                Some(p) => Some(p@),
                None => None,
            },
        ),
{
    match custom_prompt {
        Some(p) => concat2(
            p,
            "\n\nRespond with ONLY a JSON object of the exact schema described above.",
        ),
        None => owned(EXTRACT_SYSTEM),
    }
}

/// Accepts what the model extracted, unless it found no entity.
pub fn extract_graph(graph: ExtractedGraph) -> (r: Result<ExtractedGraph, ExtractError>)
    ensures
        match r {
            Ok(g) => graph.nodes@.len() > 0 && g == graph,
            Err(e) => graph.nodes@.len() == 0 && e is NoNodes,
        },
{
    if graph.nodes.len() == 0 {
        Err(ExtractError::NoNodes)
    } else {
        Ok(graph)
    }
}

/// The summary as it is kept.
pub fn summarize(summary: &str) -> (r: String)
    ensures
        r@ == trim_of(summary@),
{
    trim(summary)
}

} // verus!
