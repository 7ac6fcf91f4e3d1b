//! What the stores, the models and the settings give back, said of their own
//! arguments and results.

use vstd::prelude::*;

use crate::doctor::{reinserted, table_texts};
use crate::forget::{forget, ForgetError, ForgetTarget, Forgotten};
use crate::embed::{read_vectors, EmbedError, EmbedResponse, EmbeddingClient};
use crate::ingest::assemble::{points_of, Source};
use crate::ingest::chunk::Chunk;
use crate::ingest::datapoints::Datapoint;
use crate::ingest::extract::ExtractedGraph;
use crate::ingest::ids::{entity_id_of, name_form, normal_form};
use crate::ingest::shape::distinct_points;
use crate::json::{key_index, key_index_is_first, member, parsed_json, Json};
use crate::laws::configuring::{leaves, sets, variables_are_read};
use crate::laws::forgetting::{indexes, one_item_parts_nodes, owned_alone, owned_with_others};
use crate::laws::recall::{description_is_shown, label_tells_type_and_name};
use crate::laws::remembering::{
    entity_is_kept, first_entity, goes_by, named_first, relation_is_kept, under,
};
use crate::laws::walking::{every_find_has_a_way, every_way_is_found, leads};
use crate::laws::writing::points_become_nodes;
use crate::llm::{LlmClient, LlmError};
use crate::number::parse_unsigned;
use crate::pattern::occurs_at;
use crate::provenance::{lone_list, remembered_is_owned};
use crate::recall::{node_line_of, RecallOptions, SearchType, UnknownSearchType};
use crate::remember::{commit, Committed};
use crate::settings::{EmbeddingSettings, Env, FileConfig, LlmSettings, Settings, SettingsError};
use crate::storage::graph::{
    node_views, pair_views, reached_views, same_edge, traverse_of, type_names, GraphEdge, GraphNode,
    GraphStore, ReachedNode,
};
use crate::storage::groups::entry_map;
use crate::storage::histogram::count_of;
use crate::storage::refs::entries_opt;
use crate::storage::relational::{DatasetKey, RelationalError, RelationalStore};
use crate::storage::vector::{validate, VectorError};
use crate::storage::vector_writer::{
    build_batch, group_texts, point_rows, Batch, BatchError, DataType, Schema, VectorRow,
};
use crate::text::{ascii_upper, blank, opt_view, trim_of, views};
use crate::uid::{simple_text, spellings_are_distinct, uuid_text, Uuid};

verus! {

// ---------------------------------------------------------------------------
// From remembering to recalling
// ---------------------------------------------------------------------------

/// What the model said of an entity when a text was remembered is what a question is
/// told of it later: the line of its node ends with the description.
pub proof fn remembered_description_is_recalled(
    graph: &mut GraphStore,
    chunks: &[Chunk],
    graphs: &[ExtractedGraph],
    summaries: &[String],
    src: &Source,
    dataset: Uuid,
    data: Uuid,
    run: Uuid,
    c: Committed,
    k: int,
    j: int,
)
    requires
        call_ensures(commit, (graph, chunks, graphs, summaries, src, dataset, data, run), c),
        0 <= k < chunks@.len(),
        k < graphs@.len(),
        0 <= j < graphs@[k].nodes@.len(),
        first_entity(
            crate::ingest::extract::graph_views(graphs@),
            k,
            j,
            entity_id_of(goes_by(graphs@[k].nodes@[j]@)),
        ),
        distinct_points(crate::ingest::assemble::point_views(c.datapoints@)),
        !blank(graphs@[k].nodes@[j].description@),
        graphs@[k].nodes@[j].description@.len() <= 300,
        !blank(name_form(goes_by(graphs@[k].nodes@[j]@))),
    ensures
        exists|i: int|
            #![trigger final(graph)@.nodes[i]]
            0 <= i < final(graph)@.nodes.len() && {
                let n = final(graph)@.nodes[i];
                let found = graphs@[k].nodes@[j]@;
                &&& n.id == uuid_text(entity_id_of(goes_by(found)))
                &&& node_line_of(n) == "["@ + "Entity"@ + "] "@ + name_form(goes_by(found)) + " — "@
                    + found.description
            },
{
    let ids = crate::ingest::assemble::chunk_ids(chunks@);
    let rows = crate::ingest::chunk::chunk_views(chunks@);
    let found = crate::ingest::extract::graph_views(graphs@);
    let said = views(summaries@);
    let b = crate::ingest::assemble::built_of(src@, ids, rows, found, said);
    let points = points_of(b);
    assert(found[k].nodes[j] == graphs@[k].nodes@[j]@);
    entity_is_kept(src@, ids, rows, found, said, k, j);
    let e = graphs@[k].nodes@[j]@;
    let m = choose|m: int|
        #![trigger points[m]]
        0 <= m < points.len() && {
            let p = points[m];
            &&& p.id == entity_id_of(goes_by(e))
            &&& p.type_ == "Entity"@
            &&& p.name == Some(name_form(goes_by(e)))
            &&& p.index_fields == seq!["name"@]
            &&& p.embeddable_text == name_form(goes_by(e))
            &&& under(p.properties, "description"@) == Some(Json::Text(e.description))
            &&& crate::laws::remembering::tells_origin(
                p.properties,
                src@.created_ms,
                0,
                "extract_graph_from_data"@,
                Json::Null,
                Json::Null,
            )
        };
    let p = points[m];
    assert forall|x: int| m < x < points.len() implies uuid_text((#[trigger] points[x]).id)
        != uuid_text(p.id) by {
        assert(points[m].id != points[x].id);
        spellings_are_distinct(p.id, points[x].id);
    }
    let edges = crate::ingest::assemble::dedup_raw(b.edges);
    points_become_nodes(
        old(graph)@,
        points,
        edges,
        dataset.value,
        data.value,
        run.value,
        m,
        src@.created_ms,
    );
    let after = final(graph)@.nodes;
    let i = choose|i: int|
        #![trigger after[i]]
        0 <= i < after.len() && {
            let n = after[i];
            &&& n.id == uuid_text(p.id)
            &&& n.name == p.name
            &&& n.type_ == Some(p.type_)
            &&& n.properties == Some(
                crate::json::json_text(Json::Object(p.properties)),
            )
        };
    let n = after[i];
    assert(parsed_json(n.properties->0) == Some(Json::Object(p.properties)));
    key_index_is_first(p.properties, "description"@);
    let at = key_index(p.properties, "description"@)->0;
    description_is_shown(n, p.properties, at, e.description);
    label_tells_type_and_name(n, "Entity"@);
}

// ---------------------------------------------------------------------------
// Services
// ---------------------------------------------------------------------------

/// The embedding service is reached as the settings say.
pub proof fn embedding_service_is_as_set(
    s: &EmbeddingSettings,
    in_docker: bool,
    c: EmbeddingClient,
)
    requires
        call_ensures(EmbeddingClient::from_settings, (s, in_docker), c),
    ensures
        in_docker ==> c@.endpoint == s.endpoint@,
        (forall|j: int| !#[trigger] occurs_at(s.endpoint@, "host.docker.internal"@, j))
            ==> c@.endpoint == s.endpoint@,
        c@.model == s.model@,
        c@.dimensions == s.dimensions,
        s.api_key matches Some(key) ==> (!blank(key@) ==> c@.api_key == Some(key@)),
        s.api_key matches Some(key) ==> (blank(key@) ==> c@.api_key is None),
        s.api_key is None ==> c@.api_key is None,
        c@.headers == pair_views(s.headers@),
{
    if forall|j: int| !#[trigger] occurs_at(s.endpoint@, "host.docker.internal"@, j) {
        reveal_strlit("host.docker.internal");
        let none = Seq::<char>::empty();
        assert(!crate::pattern::contains_of(s.endpoint@, "host.docker.internal"@));
        crate::laws::models::host_is_renamed(none, none);
        assert(crate::embed::host_endpoint(s.endpoint@, false) == s.endpoint@);
    }
}

/// The language model is reached as the settings say, with a key that is not blank;
/// without one it is not reached.
pub proof fn language_model_is_as_set(s: &LlmSettings, r: Result<LlmClient, LlmError>)
    requires
        call_ensures(LlmClient::from_settings, (s,), r),
    ensures
        r is Err <==> blank(s.api_key@),
        r matches Ok(c) ==> {
            &&& c@.model == s.model@
            &&& c@.api_key == trim_of(s.api_key@)
            &&& c@.extra_args == s.args@
            &&& c@.disable_thinking == s.disable_thinking
            &&& (s.endpoint@.len() > 0 && s.endpoint@.last() != '/' ==> c@.base_url == s.endpoint@)
        },
{
    reveal_strlit("/");
    if s.endpoint@.len() > 0 && s.endpoint@.last() != '/' {
        let t = s.endpoint@;
        if occurs_at(t, "/"@, t.len() - 1) {
            assert(t.subrange(t.len() - 1, t.len() as int)[0] == t[t.len() - 1]);
        }
    }
}

/// Requests go to the completions below the address, and carry the key.
pub proof fn requests_go_to_the_model(c: &LlmClient, url: String, key: String)
    requires
        call_ensures(LlmClient::completions_url, (c,), url),
        call_ensures(LlmClient::api_key, (c,), key),
    ensures
        url@ == c@.base_url + "/chat/completions"@,
        key@ == c@.api_key,
{
}

/// The vectors of a reply are used only where there is one of the expected width for
/// each text.
pub proof fn replies_are_checked<T>(
    reply: EmbedResponse<T>,
    texts: usize,
    dimensions: usize,
    r: Result<Vec<Vec<T>>, EmbedError>,
)
    requires
        call_ensures(read_vectors::<T>, (reply, texts, dimensions), r),
    ensures
        r matches Ok(v) ==> v@.len() == texts && forall|i: int|
            0 <= i < v@.len() ==> (#[trigger] v@[i])@.len() == dimensions && v@[i]@
                == crate::embed::vectors_of(reply)[i],
        crate::embed::vectors_of(reply).len() != texts ==> r is Err,
{
    if let Ok(v) = r {
        let given = crate::embed::vectors_of(reply);
        assert(crate::embed::vector_views(v@).len() == v@.len());
        assert forall|i: int| 0 <= i < v@.len() implies (#[trigger] v@[i])@.len() == dimensions
            && v@[i]@ == given[i] by {
            assert(crate::embed::vector_views(v@)[i] == v@[i]@);
        }
    }
}

// ---------------------------------------------------------------------------
// Settings
// ---------------------------------------------------------------------------

/// Settings are refused where the extra arguments in the environment are no JSON, or
/// the width there is no number that fits; nothing else is refused.
pub proof fn settings_are_merged(
    f: FileConfig,
    env: &Env,
    r: Result<Settings, SettingsError>,
    args: Seq<char>,
    width: Seq<char>,
)
    requires
        call_ensures(Settings::merge, (f, env), r),
    ensures
        sets(*env, "LLM_ARGS"@, args) && parsed_json(args) is None ==> r == Err::<
            Settings,
            SettingsError,
        >(SettingsError::LlmArgs),
        leaves(*env, "LLM_ARGS"@) && sets(*env, "EMBEDDING_DIMENSIONS"@, width) && parse_unsigned(
            width,
        ) is None ==> r == Err::<Settings, SettingsError>(SettingsError::Dimensions),
        leaves(*env, "LLM_ARGS"@) && leaves(*env, "EMBEDDING_DIMENSIONS"@) ==> r is Ok,
{
    variables_are_read(*env, "LLM_ARGS"@, args);
    variables_are_read(*env, "EMBEDDING_DIMENSIONS"@, width);
}

/// A question is answered from five summaries, two hops away, unless something else
/// is asked for.
pub proof fn questions_have_defaults(o: RecallOptions)
    requires
        call_ensures(<RecallOptions as Default>::default, (), o),
    ensures
        o.search_type == SearchType::Summaries,
        o.top_k == 5,
        o.max_hops == 2,
        o.system_prompt is None,
{
}

/// A text names a search type or is given back as it was compared.
pub proof fn search_types_are_parsed(raw: &str, r: Result<SearchType, UnknownSearchType>)
    requires
        call_ensures(SearchType::parse, (raw,), r),
    ensures
        ({
            let name = ascii_upper(trim_of(raw@));
            &&& (name == "SUMMARIES"@ || name == "SUMMARY"@ ==> r == Ok::<
                SearchType,
                UnknownSearchType,
            >(SearchType::Summaries))
            &&& (name == "GRAPH_COMPLETION"@ || name == "GRAPH"@ ==> r == Ok::<
                SearchType,
                UnknownSearchType,
            >(SearchType::GraphCompletion))
            &&& (r matches Err(e) ==> e.given@ == name)
            &&& (r is Err <==> name != "SUMMARIES"@ && name != "SUMMARY"@ && name
                != "GRAPH_COMPLETION"@ && name != "GRAPH"@)
        }),
{
    crate::laws::serving::search_types_have_two_names(raw@);
}

// ---------------------------------------------------------------------------
// Vector tables
// ---------------------------------------------------------------------------

/// The rows of points hold their identifiers and vectors, in the order of the group,
/// and their texts are those to embed.
pub proof fn groups_are_written<T>(
    dps: &[Datapoint],
    group: &[usize],
    vectors: Vec<Vec<T>>,
    texts: Vec<String>,
    rows: Vec<VectorRow<T>>,
    k: int,
)
    requires
        call_ensures(group_texts, (dps, group), texts),
        call_ensures(point_rows::<T>, (dps, group, vectors), rows),
        group@.len() == vectors@.len(),
        0 <= k < group@.len(),
    ensures
        texts@.len() == group@.len(),
        texts@[k]@ == dps@[group@[k] as int].embeddable_text@,
        rows@.len() == group@.len(),
        rows@[k].id@ == uuid_text(dps@[group@[k] as int].id.value),
        rows@[k].vector@ == vectors@[k]@,
        member(rows@[k].payload@, "type"@) == Some(
            Json::Text(dps@[group@[k] as int].type_@),
        ),
        member(rows@[k].payload@, "text"@) == under(
            dps@[group@[k] as int]@.properties,
            "text"@,
        ),
{
    let p = dps@[group@[k] as int]@;
    assert(crate::storage::vector_writer::is_point_row(rows@[k], p, vectors@[k]@));
    reveal_strlit("text");
    reveal_strlit("id");
    reveal_strlit("type");
    assert("text"@.len() != "id"@.len());
    assert("text"@[1] != "type"@[1]);
    crate::laws::vectors::row_holds_its_point(rows@[k], p, vectors@[k]@, "text"@);
}

/// Rows are laid out against a table exactly where it has three columns, the second
/// holds vectors of the width that all rows have, and the third a struct of columns
/// that can be built.
pub proof fn fitting_rows_are_laid_out<T: Copy>(
    schema: &Schema,
    rows: &[VectorRow<T>],
    r: Result<Batch<T>, BatchError>,
)
    requires
        call_ensures(build_batch::<T>, (schema, rows), r),
    ensures
        r is Ok <==> schema.fields@.len() == 3 && (schema.fields@[1].data_type matches
            DataType::FixedSizeList(_, n) && forall|i: int|
            0 <= i < rows@.len() ==> (#[trigger] rows@[i]).vector@.len() == n) && (
        schema.fields@[2].data_type matches DataType::Struct(columns) && forall|i: int|
            0 <= i < columns@.len() ==> match (#[trigger] columns@[i]).data_type {
                DataType::Utf8 | DataType::LargeUtf8 | DataType::Int64 | DataType::Boolean
                | DataType::Float64 | DataType::List(_) => true,
                _ => false,
            }),
        r matches Ok(b) ==> b.ids@.len() == rows@.len(),
{
    match r {
        Ok(b) => {
            assert(views(b.ids@).len() == b.ids@.len());
            assert(crate::storage::vector_writer::row_ids(rows@).len() == rows@.len());
            let columns = schema.fields@[2].data_type->Struct_0@;
            assert forall|i: int| 0 <= i < columns.len() implies match (
            #[trigger] columns[i]).data_type {
                DataType::Utf8 | DataType::LargeUtf8 | DataType::Int64 | DataType::Boolean
                | DataType::Float64 | DataType::List(_) => true,
                _ => false,
            } by {
                assert(crate::storage::vector_writer::is_column(
                    b.payload@[i],
                    columns[i].data_type,
                    crate::storage::vector_writer::payload_cells(rows@, columns[i].name@),
                ));
            }
        },
        Err(e) => {
            if let BatchError::Dimensions { found, expected } = e {
                let i = choose|i: int|
                    0 <= i < rows@.len() && (#[trigger] rows@[i]).vector@.len() == found && found
                        != expected && crate::storage::vector_writer::all_wide(
                        rows@.take(i),
                        expected as nat,
                    );
                assert(rows@[i].vector@.len() == found);
            }
            if let BatchError::Unsupported(name) = e {
                let columns = schema.fields@[2].data_type->Struct_0@;
                let i = choose|i: int|
                    0 <= i < columns.len() && (#[trigger] columns[i]).name@ == name@
                        && !crate::storage::vector_writer::supported(columns[i].data_type)
                        && forall|j: int|
                        0 <= j < i ==> crate::storage::vector_writer::supported(
                            (#[trigger] columns[j]).data_type,
                        );
                assert(columns[i].name@ == name@);
            }
        },
    }
}

/// A table is used only where its vectors have the expected width.
pub proof fn tables_are_validated(schema: &Schema, dims: usize, r: Result<(), VectorError>, i: int)
    requires
        call_ensures(validate, (schema, dims), r),
        0 <= i < schema.fields@.len(),
        schema.fields@[i].name@ == "vector"@,
        forall|j: int| 0 <= j < i ==> (#[trigger] schema.fields@[j]).name@ != "vector"@,
    ensures
        r is Ok <==> (schema.fields@[i].data_type matches DataType::FixedSizeList(_, n) && n
            == dims),
{
    crate::laws::vectors::width_is_that_of_the_vectors(*schema, i);
}

/// The texts that healed rows are embedded from are those of their nodes, and what is
/// put back are the live nodes whose rows were repeated.
pub proof fn healed_texts_are_their_nodes(
    table: &str,
    nodes: &[GraphNode],
    at: &[usize],
    texts: Vec<String>,
    repeats: &[String],
    again: Vec<usize>,
    k: int,
    x: usize,
    type_: Seq<char>,
    field: Seq<char>,
)
    requires
        call_ensures(table_texts, (table, nodes, at), texts),
        call_ensures(reinserted, (nodes, at, repeats), again),
        table@ == type_ + "_"@ + field,
        0 <= k < at@.len(),
        opt_view(nodes@[at@[k] as int].type_) == Some(type_),
    ensures
        texts@.len() == at@.len(),
        field == "name"@ ==> (nodes@[at@[k] as int].name matches Some(name) ==> texts@[k]@
            == name@),
        again@.contains(x) <==> at@.contains(x) && views(repeats@).contains(
            node_views(nodes@)[x as int].id,
        ),
{
    let n = nodes@[at@[k] as int]@;
    crate::laws::repairing::tables_hold_their_field(n, type_, field, Json::Null);
    let rows = node_views(nodes@);
    let wanted = |y: usize| crate::doctor::among(views(repeats@))(rows[y as int].id);
    crate::lists::filter_members(at@, wanted);
    assert(again@ =~= at@.filter(wanted));
    assert(at@.filter(wanted).contains(x) <==> at@.contains(x) && wanted(x));
}

// ---------------------------------------------------------------------------
// Stores
// ---------------------------------------------------------------------------

/// Writing nodes and edges to a graph leaves the rest as it was, and what is written
/// is there.
pub proof fn rows_are_written(
    graph: &mut GraphStore,
    nodes: &[GraphNode],
    n: usize,
    k: int,
)
    requires
        call_ensures(GraphStore::insert_nodes, (graph, nodes), n),
        0 <= k < nodes@.len(),
        forall|j: int| k < j < nodes@.len() ==> (#[trigger] nodes@[j]).id@ != nodes@[k].id@,
    ensures
        n == nodes@.len(),
        final(graph)@.nodes.contains(nodes@[k]@),
        final(graph)@.edges == old(graph)@.edges,
        final(graph)@.metadata == old(graph)@.metadata,
{
    let rows = node_views(nodes@);
    assert(rows[k] == nodes@[k]@);
    assert forall|j: int| k < j < rows.len() implies (#[trigger] rows[j]).id != rows[k].id by {
        assert(nodes@[j].id@ != nodes@[k].id@);
    }
    crate::laws::writing::nodes_written_are_there(old(graph)@.nodes, rows, rows[k]);
}

/// Edges are appended in order.
pub proof fn edges_are_appended(graph: &mut GraphStore, edges: &[GraphEdge], n: usize, k: int)
    requires
        call_ensures(GraphStore::insert_edges, (graph, edges), n),
        0 <= k < edges@.len(),
    ensures
        n == edges@.len(),
        final(graph)@.edges.len() == old(graph)@.edges.len() + edges@.len(),
        final(graph)@.edges.take(old(graph)@.edges.len() as int) == old(graph)@.edges,
        final(graph)@.edges[old(graph)@.edges.len() + k] == edges@[k]@,
        final(graph)@.nodes == old(graph)@.nodes,
{
    assert(final(graph)@.edges.take(old(graph)@.edges.len() as int) =~= old(graph)@.edges);
}

/// A node is found by its identifier exactly where there is one, as it is stored.
pub proof fn nodes_are_found(graph: &GraphStore, id: &str, r: Option<GraphNode>, i: int)
    requires
        call_ensures(GraphStore::node_by_id, (graph, id), r),
        0 <= i < graph@.nodes.len(),
        graph@.nodes[i].id == id@,
        forall|j: int| 0 <= j < i ==> (#[trigger] graph@.nodes[j]).id != id@,
    ensures
        r matches Some(n) && n@ == graph@.nodes[i],
{
    crate::storage::graph::node_index_is_first(graph@.nodes, id@);
    let found = crate::storage::graph::node_index(graph@.nodes, id@);
    if let Some(at) = found {
        if at < i {
            assert(graph@.nodes[at].id != id@);
        }
        if i < at {
            assert(graph@.nodes[i].id != id@);
        }
    } else {
        assert(graph@.nodes[i].id != id@);
    }
}

/// A dataset that is there is found under its name; one that is not is made, once,
/// for the default user.
pub proof fn datasets_are_ensured(
    store: &mut RelationalStore,
    name: &str,
    fresh: Uuid,
    now: &str,
    r: Result<Uuid, RelationalError>,
    k: int,
)
    requires
        call_ensures(RelationalStore::ensure_dataset_at, (store, name, fresh, now), r),
    ensures
        final(store)@.data == old(store)@.data,
        final(store)@.users == old(store)@.users,
        r is Err ==> final(store)@ == old(store)@,
        0 <= k < old(store)@.datasets.len() && old(store)@.datasets[k].name == Some(name@) && (
        forall|j: int|
            0 <= j < k ==> (#[trigger] old(store)@.datasets[j]).name != Some(name@)) ==> {
            &&& final(store)@ == old(store)@
            &&& (r matches Ok(u) ==> crate::storage::dashless::stored_uuid(
                old(store)@.datasets[k].id,
            ) == Some(u.value as int))
        },
        (forall|j: int|
            0 <= j < old(store)@.datasets.len() ==> (#[trigger] old(store)@.datasets[j]).name
                != Some(name@)) ==> (r matches Ok(u) ==> {
            let rows = final(store)@.datasets;
            &&& u == fresh
            &&& rows.len() == old(store)@.datasets.len() + 1
            &&& rows.drop_last() == old(store)@.datasets
            &&& rows.last().id == simple_text(fresh.value)
            &&& rows.last().name == Some(name@)
            &&& rows.last().created_at == Some(now@)
        }),
{
    crate::storage::relational::dataset_index_is_first(old(store)@.datasets, name@);
    let found = crate::storage::relational::dataset_index(old(store)@.datasets, name@);
    if let Some(i) = found {
        if i < k {
            assert(old(store)@.datasets[i].name == Some(name@));
        }
        assert(old(store)@.datasets[i].name == Some(name@));
    } else if r is Ok {
        assert(final(store)@.datasets.drop_last() =~= old(store)@.datasets);
    }
}

/// A data item is deleted by its identifier, and no other.
pub proof fn data_items_are_deleted(
    store: &mut RelationalStore,
    id: Uuid,
    d: crate::storage::relational::DataEntry,
)
    requires
        call_ensures(RelationalStore::delete_data, (store, id), ()),
    ensures
        final(store)@.data.contains(d) <==> old(store)@.data.contains(d) && d.id != simple_text(
            id.value,
        ),
        final(store)@.datasets == old(store)@.datasets,
        final(store)@.users == old(store)@.users,
{
    let pred = crate::storage::relational::data_other_than(simple_text(id.value));
    crate::lists::filter_members(old(store)@.data, pred);
}

/// A dataset is found by its name or by its identifier.
pub proof fn datasets_are_found(
    store: &RelationalStore,
    key: &DatasetKey,
    r: Result<Uuid, RelationalError>,
    k: int,
    v: u128,
)
    requires
        call_ensures(RelationalStore::dataset_id_at, (store, key), r),
        crate::laws::forgetting::tells(store@.datasets, *key, k),
        crate::storage::dashless::stored_uuid(store@.datasets[k].id) == Some(v as int),
    ensures
        r matches Ok(u) && u.value == v,
{
    crate::storage::relational::dataset_at_is_first(store@.datasets, *key);
    let found = crate::storage::relational::dataset_at(store@.datasets, *key);
    if let Some(i) = found {
        if i < k {
            assert(store@.datasets[i].name == store@.datasets[i].name);
        }
        if k < i {
            assert(!crate::storage::relational::told_by(store@.datasets[k], *key));
        }
    } else {
        assert(!crate::storage::relational::told_by(store@.datasets[k], *key));
    }
}

// ---------------------------------------------------------------------------
// Walking and counting
// ---------------------------------------------------------------------------

/// A walk finds just the nodes that edges lead to from a seed within the hops asked
/// for, along the relationships named where any are.
pub proof fn walks_follow_the_edges(
    graph: &GraphStore,
    seeds: &[String],
    hops: u32,
    r: Vec<ReachedNode>,
    named: &[String],
    s: Vec<ReachedNode>,
    i: int,
    path: Seq<int>,
)
    requires
        call_ensures(GraphStore::traverse, (graph, seeds, hops, None::<&[String]>), r),
        call_ensures(GraphStore::traverse, (graph, seeds, hops, Some(named)), s),
        0 <= i < graph@.nodes.len(),
        path.len() <= hops,
    ensures
        leads(graph@.edges, views(seeds@), Seq::empty(), path, graph@.nodes[i].id) ==> exists|
            k: int,
        |
            0 <= k < r@.len() && (#[trigger] r@[k]).node@ == graph@.nodes[i] && r@[k].depth
                <= path.len(),
        leads(graph@.edges, views(seeds@), views(named@), path, graph@.nodes[i].id) ==> exists|
            k: int,
        |
            0 <= k < s@.len() && (#[trigger] s@[k]).node@ == graph@.nodes[i] && s@[k].depth
                <= path.len(),
        forall|k: int| 0 <= k < r@.len() ==> (#[trigger] r@[k]).depth <= hops,
{
    let from = views(seeds@);
    let any = Seq::<Seq<char>>::empty();
    let rows = traverse_of(graph@, from, hops as nat, any);
    assert(reached_views(r@) == rows);
    assert(rows.len() == r@.len());
    if leads(graph@.edges, from, any, path, graph@.nodes[i].id) {
        every_way_is_found(graph@, from, hops as nat, any, i, path);
        let k = choose|k: int|
            0 <= k < rows.len() && {
                let x = #[trigger] rows[k];
                x.node == graph@.nodes[i] && x.depth <= path.len()
            };
        assert(reached_views(r@)[k].node == r@[k].node@);
    }
    let some = views(named@);
    let others = traverse_of(graph@, from, hops as nat, some);
    assert(reached_views(s@) == others);
    assert(others.len() == s@.len());
    if leads(graph@.edges, from, some, path, graph@.nodes[i].id) {
        every_way_is_found(graph@, from, hops as nat, some, i, path);
        let k = choose|k: int|
            0 <= k < others.len() && {
                let x = #[trigger] others[k];
                x.node == graph@.nodes[i] && x.depth <= path.len()
            };
        assert(reached_views(s@)[k].node == s@[k].node@);
    }
    assert forall|k: int| 0 <= k < r@.len() implies (#[trigger] r@[k]).depth <= hops by {
        let way = every_find_has_a_way(graph@, from, hops as nat, any, k);
        assert(reached_views(r@)[k].depth == r@[k].depth);
    }
}

/// What is counted grows by one with each occurrence, and with nothing else.
pub proof fn occurrences_are_counted(names: Seq<Seq<char>>, more: Seq<char>, x: Seq<char>)
    ensures
        count_of(Seq::<Seq<char>>::empty(), x) == 0,
        count_of(names.push(more), x) == count_of(names, x) + (if more == x {
            1nat
        } else {
            0nat
        }),
{
    let p = crate::storage::refs::equal_to(x);
    let none = Seq::<Seq<char>>::empty();
    crate::lists::filter_ends(none, p);
    assert(none.take(0) =~= none);
    crate::lists::filter_step(names.push(more), names.len() as int, p);
    assert(names.push(more).take(names.len() as int) =~= names);
    assert(names.push(more).take(names.len() as int + 1) =~= names.push(more));
}

/// A search type is called by its first name.
pub proof fn search_types_are_named(t: SearchType, r: &'static str)
    requires
        call_ensures(SearchType::as_str, (t,), r),
    ensures
        t == SearchType::Summaries ==> r@ == "SUMMARIES"@,
        t == SearchType::GraphCompletion ==> r@ == "GRAPH_COMPLETION"@,
{
}

// ---------------------------------------------------------------------------
// Refusals
// ---------------------------------------------------------------------------

/// Where a dataset is not known, that is said with its name, and nothing is
/// forgotten.
pub proof fn unknown_dataset_is_refused(
    name: String,
    graph: &mut GraphStore,
    store: &mut RelationalStore,
    r: Result<Forgotten, ForgetError>,
)
    requires
        call_ensures(
            forget,
            (&ForgetTarget::Dataset { dataset: DatasetKey::Name(name) }, graph, store),
            r,
        ),
        forall|j: int|
            0 <= j < old(store)@.datasets.len() ==> (#[trigger] old(store)@.datasets[j]).name
                != Some(name@),
    ensures
        r matches Err(ForgetError::Relational(RelationalError::DatasetNotFound(n))) && n@ == name@,
        final(graph)@ == old(graph)@,
        final(store)@ == old(store)@,
{
    let key = DatasetKey::Name(name);
    crate::storage::relational::dataset_at_is_first(old(store)@.datasets, key);
    let found = crate::storage::relational::dataset_at(old(store)@.datasets, key);
    if let Some(i) = found {
        assert(old(store)@.datasets[i].name != Some(name@));
    }
}

/// A forget that is refused changes nothing.
pub proof fn refused_forget_changes_nothing(
    target: &ForgetTarget,
    graph: &mut GraphStore,
    store: &mut RelationalStore,
    r: Result<Forgotten, ForgetError>,
)
    requires
        call_ensures(forget, (target, graph, store), r),
    ensures
        r is Err ==> final(graph)@ == old(graph)@ && final(store)@ == old(store)@,
        r is Ok ==> final(store)@.users == old(store)@.users && final(store)@.datasets == old(
            store,
        )@.datasets,
{
}

// ---------------------------------------------------------------------------
// Relations of a remembered text
// ---------------------------------------------------------------------------

/// A relation that the model found in a text is in the graph once the text is
/// remembered, and names the new data item among its owners.
pub proof fn remembered_relation_is_in_the_graph(
    graph: &mut GraphStore,
    chunks: &[Chunk],
    graphs: &[ExtractedGraph],
    summaries: &[String],
    src: &Source,
    dataset: Uuid,
    data: Uuid,
    run: Uuid,
    c: Committed,
    k: int,
    m: int,
    a: int,
    b: int,
)
    requires
        call_ensures(commit, (graph, chunks, graphs, summaries, src, dataset, data, run), c),
        0 <= k < chunks@.len(),
        k < graphs@.len(),
        0 <= m < graphs@[k].edges@.len(),
        named_first(graphs@[k]@.nodes, a, graphs@[k].edges@[m].source_node_id@),
        named_first(graphs@[k]@.nodes, b, graphs@[k].edges@[m].target_node_id@),
    ensures
        exists|i: int|
            0 <= i < final(graph)@.edges.len() && {
                let e = #[trigger] final(graph)@.edges[i];
                &&& e.from_id == uuid_text(entity_id_of(goes_by(graphs@[k].nodes@[a]@)))
                &&& e.to_id == uuid_text(entity_id_of(goes_by(graphs@[k].nodes@[b]@)))
                &&& e.relationship_name == Some(
                    normal_form(graphs@[k].edges@[m].relationship_name@),
                )
                &&& entries_opt(e.source_ref_keys).contains(
                    "source_ref:v1:"@ + uuid_text(dataset.value) + ":"@ + uuid_text(data.value),
                )
            },
{
    let ids = crate::ingest::assemble::chunk_ids(chunks@);
    let rows = crate::ingest::chunk::chunk_views(chunks@);
    let found = crate::ingest::extract::graph_views(graphs@);
    let said = views(summaries@);
    let built = crate::ingest::assemble::built_of(src@, ids, rows, found, said);
    let edges = crate::ingest::assemble::dedup_raw(built.edges);
    let points = points_of(built);
    assert(found[k] == graphs@[k]@);
    assert(found[k].edges[m] == graphs@[k].edges@[m]@);
    relation_is_kept(src@, ids, rows, found, said, k, m, a, b);
    let from = uuid_text(entity_id_of(goes_by(found[k].nodes[a])));
    let to = uuid_text(entity_id_of(goes_by(found[k].nodes[b])));
    let rel = normal_form(found[k].edges[m].relationship_name);
    let x = choose|x: int|
        0 <= x < edges.len() && (#[trigger] edges[x]).from_id == from && edges[x].to_id == to
            && edges[x].relationship_name == rel;
    remembered_is_owned(old(graph)@, points, edges, dataset.value, data.value, run.value);
    let row = crate::ingest::assemble::edge_row_of(
        points,
        edges[x],
        uuid_text(dataset.value),
        uuid_text(data.value),
        uuid_text(run.value),
    );
    let key = crate::ingest::datapoints::source_ref_of(
        uuid_text(dataset.value),
        uuid_text(data.value),
    );
    let after = final(graph)@.edges;
    assert(crate::provenance::edge_owned_by(after, row, key));
    let i = choose|i: int|
        0 <= i < after.len() && same_edge(#[trigger] after[i], row) && entries_opt(
            after[i].source_ref_keys,
        ).contains(key);
    assert(after[i].from_id == from);
    assert(found[k].nodes[a] == graphs@[k].nodes@[a]@);
    assert(found[k].nodes[b] == graphs@[k].nodes@[b]@);
}

// ---------------------------------------------------------------------------
// Vector rows of a forgotten data item
// ---------------------------------------------------------------------------

proof fn grouped_id_is_listed(
    entries: Seq<(String, Vec<String>)>,
    table: Seq<char>,
    id: Seq<char>,
) -> (k: int)
    requires
        entry_map(entries).contains_key(table),
        views(entry_map(entries)[table]).contains(id),
    ensures
        0 <= k < entries.len(),
        entries[k].0@ == table,
        views(entries[k].1@).contains(id),
    decreases entries.len(),
{
    let last = entries.last();
    if last.0@ == table {
        entries.len() - 1
    } else {
        grouped_id_is_listed(entries.drop_last(), table, id)
    }
}

/// With a node that the forgotten data item alone owned goes its row in the vector
/// table of each of its index fields: the forget names the table and the row.
pub proof fn forgotten_vectors_are_named(
    key: DatasetKey,
    data_id: Uuid,
    graph: &mut GraphStore,
    store: &mut RelationalStore,
    r: Result<Forgotten, ForgetError>,
    k: int,
    v: u128,
    i: int,
    type_: Seq<char>,
    field: Seq<char>,
)
    requires
        call_ensures(
            forget,
            (&ForgetTarget::DataItem { dataset: key, data_id }, graph, store),
            r,
        ),
        crate::laws::forgetting::tells(old(store)@.datasets, key, k),
        crate::storage::dashless::stored_uuid(old(store)@.datasets[k].id) == Some(v as int),
        0 <= i < old(graph)@.nodes.len(),
        lone_list(
            old(graph)@.nodes[i].source_ref_keys,
            "source_ref:v1:"@ + uuid_text(v) + ":"@ + uuid_text(data_id.value),
        ),
        old(graph)@.nodes[i].type_ == Some(type_),
        indexes(old(graph)@.nodes[i], field),
    ensures
        r is Ok,
        exists|e: int|
            0 <= e < r->Ok_0.vector_deletes@.len() && (
            #[trigger] r->Ok_0.vector_deletes@[e]).0@ == type_ + "_"@ + field && views(
                r->Ok_0.vector_deletes@[e].1@,
            ).contains(old(graph)@.nodes[i].id),
{
    let g = old(graph)@;
    let rel = old(store)@;
    let n = g.nodes[i];
    let none = Seq::<(Uuid, Uuid)>::empty();
    let item = (data_id, Uuid { value: v });
    crate::laws::forgetting::data_item_is_itself(rel, key, data_id, k, v);
    assert(none.push(item) =~= seq![item]);
    let s = crate::forget::swept(g, rel.data, seq![item]);
    crate::laws::forgetting::what_goes_with_a_data_item(
        g,
        rel.data,
        none,
        item,
        n,
        arbitrary(),
        0,
    );
    assert(s.nodes.skip(0) =~= s.nodes);
    assert(g.nodes.contains(n));
    assert(s.nodes.contains(n));
    let at = choose|at: int| 0 <= at < s.nodes.len() && s.nodes[at] == n;
    crate::laws::forgetting::vectors_go_with_their_node(s, at, type_, field);
    let entries = r->Ok_0.vector_deletes@;
    let table = type_ + "_"@ + field;
    assert(crate::forget::id_groups(entry_map(entries)).contains_key(table));
    let e = grouped_id_is_listed(entries, table, n.id);
    assert(entries[e].0@ == table);
}

/// The types of nodes are counted: each that occurs, as often as it does, the most
/// frequent first.
pub proof fn node_types_are_counted(graph: &GraphStore, r: Vec<(String, usize)>, i: int, j: int)
    requires
        call_ensures(GraphStore::node_type_counts, (graph,), r),
    ensures
        0 <= i < r@.len() ==> r@[i].1 == count_of(type_names(graph@.nodes), r@[i].0@),
        0 <= i < j < r@.len() ==> r@[i].1 >= r@[j].1 && r@[i].0@ != r@[j].0@,
        0 <= j < graph@.nodes.len() ==> exists|k: int|
            0 <= k < r@.len() && (#[trigger] r@[k]).0@ == type_names(graph@.nodes)[j],
{
    let rows = crate::storage::histogram::count_views(r@);
    assert(rows.len() == r@.len());
    if 0 <= i < r@.len() {
        assert(rows[i] == (r@[i].0@, r@[i].1 as nat));
    }
    if 0 <= i < j < r@.len() {
        assert(rows[j] == (r@[j].0@, r@[j].1 as nat));
    }
    if 0 <= j < graph@.nodes.len() {
        let names = type_names(graph@.nodes);
        assert(names.contains(names[j]));
        let k = choose|k: int| 0 <= k < rows.len() && (#[trigger] rows[k]).0 == names[j];
        assert(r@[k].0@ == names[j]);
    }
}

/// The nodes reported as detached are those that the forgotten data item owned
/// together with another, and those reported as deleted the ones it owned alone.
pub proof fn detached_nodes_are_counted(
    key: DatasetKey,
    data_id: Uuid,
    graph: &mut GraphStore,
    store: &mut RelationalStore,
    r: Result<Forgotten, ForgetError>,
    k: int,
    v: u128,
)
    requires
        call_ensures(
            forget,
            (&ForgetTarget::DataItem { dataset: key, data_id }, graph, store),
            r,
        ),
        crate::laws::forgetting::tells(old(store)@.datasets, key, k),
        crate::storage::dashless::stored_uuid(old(store)@.datasets[k].id) == Some(v as int),
    ensures
        r is Ok,
        ({
            let owner = "source_ref:v1:"@ + uuid_text(v) + ":"@ + uuid_text(data_id.value);
            &&& r->Ok_0.report.nodes_detached == old(graph)@.nodes.filter(
                owned_with_others(owner),
            ).len()
            &&& r->Ok_0.report.nodes_deleted == old(graph)@.nodes.filter(owned_alone(owner)).len()
        }),
{
    crate::laws::forgetting::data_item_is_itself(old(store)@, key, data_id, k, v);
    one_item_parts_nodes(old(graph)@, old(store)@.data, data_id, Uuid { value: v });
}

/// Where there is no answer, that is said in words.
pub proof fn missing_answers_are_explained(e: LlmError, r: &'static str)
    requires
        call_ensures(LlmError::message, (e,), r),
    ensures
        e == LlmError::NoApiKey ==> r@
            == "LLM API key is not set — configure `llm.api_key` or LLM_API_KEY"@,
        e == LlmError::NoChoices ==> r@ == "LLM returned no choices"@,
        e == LlmError::Empty ==> r@ == "the LLM returned an empty message"@,
        e == LlmError::ReasoningOnly ==> r@
            == "the LLM returned reasoning but no answer — retry, or set LLM_THINKING=disabled to stop it emitting a chain-of-thought"@,
{
}

} // verus!
