//! What a question is answered from.

use vstd::prelude::*;

use crate::json::{json_text, key_index_is_first, parsed_json, Json};
use crate::lists::filter_members;
use crate::recall::{
    context_of, edge_line_of, edge_lines_of, edges_between, filled, graph_lines, hit_ids, joined_of,
    label_of_node, name_for, node_line_of, node_lines_of, nodes_around, summary_lines, truncated,
    user_prompt, SearchType,
};
use crate::storage::graph::{edge_among, traverse_of, EdgeRow, Graph, NodeRow};
use crate::storage::vector::VectorHit;
use crate::text::{blank, trim_end_of, white};
use crate::laws::walking::{every_find_has_a_way, every_way_is_found, leads};

verus! {

// ---------------------------------------------------------------------------
// Properties
// ---------------------------------------------------------------------------

/// The properties spell an object with the given fields, and `key` stands first
/// at the position `i` of them.
pub open spec fn holds_at(
    props: Option<Seq<char>>,
    key: Seq<char>,
    fields: Seq<(Seq<char>, Json)>,
    i: int,
) -> bool {
    &&& props is Some
    &&& parsed_json(props->0) == Some(Json::Object(fields))
    &&& 0 <= i < fields.len()
    &&& fields[i].0 == key
    &&& forall|j: int| 0 <= j < i ==> (#[trigger] fields[j]).0 != key
}

/// The properties say nothing under `key`: there are none, they spell no object,
/// or the object has no such key.
pub open spec fn silent_on(props: Option<Seq<char>>, key: Seq<char>) -> bool {
    match props {
        None => true,
        Some(text) => match parsed_json(text) {
            Some(Json::Object(fields)) => forall|j: int|
                0 <= j < fields.len() ==> (#[trigger] fields[j]).0 != key,
            _ => true,
        },
    }
}

proof fn held_is_read(
    props: Option<Seq<char>>,
    key: Seq<char>,
    fields: Seq<(Seq<char>, Json)>,
    i: int,
)
    requires
        holds_at(props, key, fields, i),
    ensures
        crate::json::member(Json::Object(fields), key) == Some(fields[i].1),
{
    key_index_is_first(fields, key);
    let found = crate::json::key_index(fields, key);
    if let Some(j) = found {
        if j < i {
            assert(fields[j].0 != key);
        }
        if i < j {
            assert(fields[i].0 != key);
        }
    }
}

proof fn silence_is_read(props: Option<Seq<char>>, key: Seq<char>)
    requires
        silent_on(props, key),
    ensures
        crate::recall::property_of(props, key) is None,
{
    if let Some(text) = props {
        if let Some(Json::Object(fields)) = parsed_json(text) {
            key_index_is_first(fields, key);
            if let Some(j) = crate::json::key_index(fields, key) {
                assert(fields[j].0 != key);
            }
        }
    }
}

// ---------------------------------------------------------------------------
// The line of a node
// ---------------------------------------------------------------------------

/// A description of at most 300 characters stands whole in the line of its node,
/// behind the node's label, whatever else the properties hold.
pub proof fn description_is_shown(
    n: NodeRow,
    fields: Seq<(Seq<char>, Json)>,
    i: int,
    description: Seq<char>,
)
    requires
        holds_at(n.properties, "description"@, fields, i),
        fields[i].1 == Json::Text(description),
        !blank(description),
        description.len() <= 300,
    ensures
        node_line_of(n) == label_of_node(n) + " — "@ + description,
{
    held_is_read(n.properties, "description"@, fields, i);
}

/// Of a longer description the first 300 characters stand there, with an ellipsis.
pub proof fn long_description_is_cut(
    n: NodeRow,
    fields: Seq<(Seq<char>, Json)>,
    i: int,
    description: Seq<char>,
)
    requires
        holds_at(n.properties, "description"@, fields, i),
        fields[i].1 == Json::Text(description),
        !blank(description),
        description.len() > 300,
    ensures
        node_line_of(n) == label_of_node(n) + " — "@ + (description.take(300) + "…"@),
{
    held_is_read(n.properties, "description"@, fields, i);
}

/// A node without a description shows its text.
pub proof fn text_is_shown(n: NodeRow, fields: Seq<(Seq<char>, Json)>, i: int, text: Seq<char>)
    requires
        silent_on(n.properties, "description"@),
        holds_at(n.properties, "text"@, fields, i),
        fields[i].1 == Json::Text(text),
        !blank(text),
        text.len() <= 300,
    ensures
        node_line_of(n) == label_of_node(n) + " — "@ + text,
{
    silence_is_read(n.properties, "description"@);
    held_is_read(n.properties, "text"@, fields, i);
}

/// A node with neither shows the name among its properties.
pub proof fn inner_name_is_shown(
    n: NodeRow,
    fields: Seq<(Seq<char>, Json)>,
    i: int,
    name: Seq<char>,
)
    requires
        silent_on(n.properties, "description"@),
        silent_on(n.properties, "text"@),
        holds_at(n.properties, "name"@, fields, i),
        fields[i].1 == Json::Text(name),
        !blank(name),
        name.len() <= 300,
    ensures
        node_line_of(n) == label_of_node(n) + " — "@ + name,
{
    silence_is_read(n.properties, "description"@);
    silence_is_read(n.properties, "text"@);
    held_is_read(n.properties, "name"@, fields, i);
}

/// A blank description counts for nothing: the text is shown in its place.
pub proof fn blank_description_is_passed_over(
    n: NodeRow,
    fields: Seq<(Seq<char>, Json)>,
    i: int,
    k: int,
    text: Seq<char>,
)
    requires
        holds_at(n.properties, "description"@, fields, i),
        fields[i].1 is Text,
        blank(fields[i].1->Text_0),
        holds_at(n.properties, "text"@, fields, k),
        fields[k].1 == Json::Text(text),
        !blank(text),
        text.len() <= 300,
    ensures
        node_line_of(n) == label_of_node(n) + " — "@ + text,
{
    held_is_read(n.properties, "description"@, fields, i);
    held_is_read(n.properties, "text"@, fields, k);
}

/// A number is shown as it is spelled.
pub proof fn number_is_shown(n: NodeRow, fields: Seq<(Seq<char>, Json)>, i: int)
    requires
        holds_at(n.properties, "description"@, fields, i),
        fields[i].1 is Int || fields[i].1 is Float,
        json_text(fields[i].1).len() <= 300,
    ensures
        node_line_of(n) == label_of_node(n) + " — "@ + json_text(fields[i].1),
{
    held_is_read(n.properties, "description"@, fields, i);
}

/// A node whose properties say nothing of it is its label alone.
pub proof fn bare_node_is_its_label(n: NodeRow)
    requires
        silent_on(n.properties, "description"@),
        silent_on(n.properties, "text"@),
        silent_on(n.properties, "name"@),
    ensures
        node_line_of(n) == label_of_node(n),
{
    silence_is_read(n.properties, "description"@);
    silence_is_read(n.properties, "text"@);
    silence_is_read(n.properties, "name"@);
}

/// A node's label is its type in brackets, then its name where it has one that is
/// not blank.
pub proof fn label_tells_type_and_name(n: NodeRow, type_: Seq<char>)
    requires
        n.type_ == Some(type_) || (n.type_ is None && type_ == "Node"@),
    ensures
        n.name is Some && !blank(n.name->0) ==> label_of_node(n) == "["@ + type_ + "] "@ + n.name->0,
        n.name is None || blank(n.name->0) ==> label_of_node(n) == "["@ + type_ + "]"@,
{
    reveal_strlit("]");
    reveal_strlit(" ");
    reveal_strlit("] ");
    assert("] "@ =~= "]"@ + " "@);
    if n.name is Some {
        assert("["@ + type_ + "]"@ + " "@ + n.name->0 =~= "["@ + type_ + "] "@ + n.name->0);
    }
}

// ---------------------------------------------------------------------------
// The line of an edge
// ---------------------------------------------------------------------------

/// `n` is the last of the nodes with the identifier `id`, and `name` what it is
/// called: its name, or its label where the name is blank or missing.
pub open spec fn called(nodes: Seq<NodeRow>, k: int, id: Seq<char>, name: Seq<char>) -> bool {
    &&& 0 <= k < nodes.len()
    &&& nodes[k].id == id
    &&& forall|j: int| k < j < nodes.len() ==> (#[trigger] nodes[j]).id != id
    &&& if nodes[k].name is Some && !blank(nodes[k].name->0) {
        name == nodes[k].name->0
    } else {
        name == label_of_node(nodes[k])
    }
}

proof fn called_is_found(nodes: Seq<NodeRow>, k: int, id: Seq<char>, name: Seq<char>)
    requires
        called(nodes, k, id, name),
    ensures
        name_for(nodes, id) == Some(name),
    decreases nodes.len(),
{
    if k < nodes.len() - 1 {
        let head = nodes.drop_last();
        assert(nodes[nodes.len() - 1].id != id);
        assert(called(head, k, id, name)) by {
            assert forall|j: int| k < j < head.len() implies (#[trigger] head[j]).id != id by {
                assert(head[j] == nodes[j]);
            }
        }
        called_is_found(head, k, id, name);
    }
}

proof fn stranger_is_not_found(nodes: Seq<NodeRow>, id: Seq<char>)
    requires
        forall|j: int| 0 <= j < nodes.len() ==> (#[trigger] nodes[j]).id != id,
    ensures
        name_for(nodes, id) is None,
    decreases nodes.len(),
{
    if nodes.len() > 0 {
        let head = nodes.drop_last();
        assert forall|j: int| 0 <= j < head.len() implies (#[trigger] head[j]).id != id by {
            assert(head[j] == nodes[j]);
        }
        assert(nodes[nodes.len() - 1].id != id);
        stranger_is_not_found(head, id);
    }
}

/// The line of an edge names the node it comes from, the relationship and the
/// node it leads to, in that order.
pub proof fn edge_line_names_both_ends(
    nodes: Seq<NodeRow>,
    e: EdgeRow,
    rel: Seq<char>,
    a: int,
    from: Seq<char>,
    b: int,
    to: Seq<char>,
)
    requires
        called(nodes, a, e.from_id, from),
        called(nodes, b, e.to_id, to),
        e.relationship_name == Some(rel) || (e.relationship_name is None && rel == "related_to"@),
        silent_on(e.properties, "edge_text"@),
    ensures
        edge_line_of(nodes, e) == from + " -["@ + rel + "]-> "@ + to,
{
    called_is_found(nodes, a, e.from_id, from);
    called_is_found(nodes, b, e.to_id, to);
    silence_is_read(e.properties, "edge_text"@);
}

/// Where the edge has a text of its own, that follows in brackets, whole up to
/// 200 characters.
pub proof fn edge_text_is_shown(
    nodes: Seq<NodeRow>,
    e: EdgeRow,
    rel: Seq<char>,
    a: int,
    from: Seq<char>,
    b: int,
    to: Seq<char>,
    fields: Seq<(Seq<char>, Json)>,
    i: int,
    text: Seq<char>,
)
    requires
        called(nodes, a, e.from_id, from),
        called(nodes, b, e.to_id, to),
        e.relationship_name == Some(rel) || (e.relationship_name is None && rel == "related_to"@),
        holds_at(e.properties, "edge_text"@, fields, i),
        fields[i].1 == Json::Text(text),
        !blank(text),
    ensures
        text.len() <= 200 ==> edge_line_of(nodes, e) == from + " -["@ + rel + "]-> "@ + to + " ("@
            + text + ")"@,
        text.len() > 200 ==> edge_line_of(nodes, e) == from + " -["@ + rel + "]-> "@ + to + " ("@ + (
        text.take(200) + "…"@) + ")"@,
{
    called_is_found(nodes, a, e.from_id, from);
    called_is_found(nodes, b, e.to_id, to);
    held_is_read(e.properties, "edge_text"@, fields, i);
}

/// An end that is not among the nodes is called by its identifier.
pub proof fn unknown_end_is_its_identifier(nodes: Seq<NodeRow>, id: Seq<char>)
    requires
        forall|j: int| 0 <= j < nodes.len() ==> (#[trigger] nodes[j]).id != id,
    ensures
        crate::recall::end_name(nodes, id) == id,
{
    stranger_is_not_found(nodes, id);
}

// ---------------------------------------------------------------------------
// Lines in the context
// ---------------------------------------------------------------------------

/// How many characters the first `k` lines take, each with its end.
pub open spec fn taken(lines: Seq<Seq<char>>, k: int) -> nat
    decreases k,
{
    if k <= 0 {
        0
    } else {
        taken(lines, k - 1) + lines[k - 1].len() + 1
    }
}

/// `line` stands in `text` at `p` as a line of its own.
pub open spec fn stands_at(text: Seq<char>, p: int, line: Seq<char>) -> bool {
    &&& 0 <= p
    &&& p + line.len() <= text.len()
    &&& text.subrange(p, p + line.len()) == line
    &&& p > 0 ==> text[p - 1] == '\n'
    &&& p + line.len() < text.len() ==> text[p + line.len()] == '\n'
}

proof fn taken_shifts(lines: Seq<Seq<char>>, k: int)
    requires
        1 <= k <= lines.len(),
    ensures
        taken(lines, k) == lines[0].len() + 1 + taken(lines.skip(1), k - 1),
    decreases k,
{
    if k > 1 {
        taken_shifts(lines, k - 1);
        assert(lines.skip(1)[k - 2] == lines[k - 1]);
    } else {
        assert(taken(lines, 0) == 0);
        assert(taken(lines.skip(1), 0) == 0);
    }
}

/// More lines take no less room.
pub proof fn taken_grows(lines: Seq<Seq<char>>, i: int, k: int)
    requires
        0 <= i <= k,
    ensures
        taken(lines, i) <= taken(lines, k),
    decreases k,
{
    if i < k {
        taken_grows(lines, i, k - 1);
    }
}

proof fn filled_begins(out: Seq<char>, lines: Seq<Seq<char>>)
    ensures
        filled(out, lines).len() >= out.len(),
        filled(out, lines).take(out.len() as int) == out,
    decreases lines.len(),
{
    if lines.len() == 0 {
        assert(out.take(out.len() as int) =~= out);
    } else if out.len() + lines[0].len() + 1 > 12_000 {
        assert(filled(out, lines).take(out.len() as int) =~= out);
    } else {
        let next = out + lines[0] + "\n"@;
        filled_begins(next, lines.skip(1));
        assert(next.take(out.len() as int) =~= out);
        assert(filled(out, lines).take(out.len() as int) =~= next.take(out.len() as int));
    }
}

proof fn filled_holds(out: Seq<char>, lines: Seq<Seq<char>>, i: int)
    requires
        0 <= i < lines.len(),
        out.len() + taken(lines, i + 1) <= 12_000,
    ensures
        ({
            let all = filled(out, lines);
            let p = out.len() + taken(lines, i) as int;
            &&& all.len() >= p + lines[i].len() + 1
            &&& all.subrange(p, p + lines[i].len()) == lines[i]
            &&& all[p + lines[i].len()] == '\n'
            &&& (i > 0 ==> all[p - 1] == '\n')
        }),
    decreases i,
{
    reveal_strlit("\n");
    let next = out + lines[0] + "\n"@;
    taken_grows(lines, 1, i + 1);
    taken_shifts(lines, i + 1);
    assert(taken(lines, 0) == 0);
    assert(taken(lines, 1) == taken(lines, 0) + lines[0].len() + 1);
    let all = filled(out, lines);
    assert(all == filled(next, lines.skip(1)));
    filled_begins(next, lines.skip(1));
    if i == 0 {
        assert(all.take(next.len() as int) == next);
        assert forall|j: int| 0 <= j < next.len() implies all[j] == next[j] by {
            assert(all.take(next.len() as int)[j] == all[j]);
        }
        assert(all.subrange(out.len() as int, out.len() as int + lines[0].len()) =~= lines[0]);
        assert(next[out.len() as int + lines[0].len()] == '\n');
    } else {
        taken_shifts(lines, i);
        assert(lines.skip(1)[i - 1] == lines[i]);
        filled_holds(next, lines.skip(1), i - 1);
        if i == 1 {
            assert(all.take(next.len() as int)[next.len() - 1] == all[next.len() - 1]);
            assert(next[next.len() - 1] == '\n');
        }
    }
}

/// A text without white space at its end is a beginning of the text; what follows is
/// white space, and its own last character is not.
pub proof fn trimmed_end(s: Seq<char>)
    ensures
        trim_end_of(s).len() <= s.len(),
        trim_end_of(s) == s.take(trim_end_of(s).len() as int),
        forall|j: int| trim_end_of(s).len() <= j < s.len() ==> white(#[trigger] s[j]),
        trim_end_of(s).len() > 0 ==> !white(trim_end_of(s).last()),
    decreases s.len(),
{
    if s.len() > 0 && white(s.last()) {
        let head = s.drop_last();
        trimmed_end(head);
        let n = trim_end_of(s).len() as int;
        assert(head.take(n) =~= s.take(n));
        assert forall|j: int| n <= j < s.len() implies white(#[trigger] s[j]) by {
            if j < head.len() {
                assert(head[j] == s[j]);
            }
        }
    } else {
        assert(s.take(s.len() as int) =~= s);
    }
}

proof fn cutting_keeps_line(all: Seq<char>, n: int, p: int, line: Seq<char>)
    requires
        stands_at(all, p, line),
        p + line.len() <= n <= all.len(),
    ensures
        stands_at(all.take(n), p, line),
{
    let kept = all.take(n);
    assert(kept.subrange(p, p + line.len()) =~= all.subrange(p, p + line.len()));
}

proof fn line_stands_before_trimming(lines: Seq<Seq<char>>, i: int)
    requires
        0 <= i < lines.len(),
        taken(lines, i + 1) <= 12_000,
    ensures
        stands_at(filled(Seq::empty(), lines), taken(lines, i) as int, lines[i]),
{
    filled_holds(Seq::empty(), lines, i);
    if i == 0 {
        assert(taken(lines, 0) == 0);
    }
}

/// A line stands in the context, behind those before it, as long as they leave it
/// room within 12000 characters. Only white space at the very end may be missing.
pub proof fn line_stands_in_context(lines: Seq<Seq<char>>, i: int)
    requires
        0 <= i < lines.len(),
        taken(lines, i + 1) <= 12_000,
    ensures
        exists|pad: Seq<char>|
            blank(pad) && #[trigger] stands_at(
                joined_of(lines) + pad,
                taken(lines, i) as int,
                lines[i],
            ),
        lines[i].len() > 0 && !white(lines[i].last()) ==> stands_at(
            joined_of(lines),
            taken(lines, i) as int,
            lines[i],
        ),
{
    let all = filled(Seq::empty(), lines);
    let kept = joined_of(lines);
    let p = taken(lines, i) as int;
    let line = lines[i];
    line_stands_before_trimming(lines, i);
    trimmed_end(all);
    let n = kept.len() as int;
    let pad = all.skip(n);
    assert(kept + pad =~= all);
    assert(blank(pad)) by {
        assert forall|j: int| 0 <= j < pad.len() implies white(#[trigger] pad[j]) by {
            assert(pad[j] == all[n + j]);
        }
    }
    assert(stands_at(kept + pad, p, line));
    if line.len() > 0 && !white(line.last()) {
        assert(all.subrange(p, p + line.len())[line.len() - 1] == all[p + line.len() - 1]);
        assert(p + line.len() <= n);
        cutting_keeps_line(all, n, p, line);
    }
}

proof fn filled_length(out: Seq<char>, lines: Seq<Seq<char>>)
    requires
        out.len() + taken(lines, lines.len() as int) <= 12_000,
    ensures
        filled(out, lines).len() == out.len() + taken(lines, lines.len() as int),
    decreases lines.len(),
{
    reveal_strlit("\n");
    if lines.len() > 0 {
        taken_shifts(lines, lines.len() as int);
        filled_length(out + lines[0] + "\n"@, lines.skip(1));
    }
}

/// Where there is room for all lines, the context is these lines and no more.
pub proof fn context_is_the_lines(lines: Seq<Seq<char>>)
    requires
        taken(lines, lines.len() as int) <= 12_000,
    ensures
        exists|pad: Seq<char>|
            #[trigger] blank(pad) && joined_of(lines).len() + pad.len() == taken(
                lines,
                lines.len() as int,
            ),
        joined_of(lines).len() > 0 ==> !white(joined_of(lines).last()),
{
    let all = filled(Seq::empty(), lines);
    filled_length(Seq::empty(), lines);
    trimmed_end(all);
    let pad = all.skip(joined_of(lines).len() as int);
    assert(blank(pad)) by {
        assert forall|j: int| 0 <= j < pad.len() implies white(#[trigger] pad[j]) by {
            assert(pad[j] == all[joined_of(lines).len() + j]);
        }
    }
}

proof fn filled_overflows(out: Seq<char>, lines: Seq<Seq<char>>, k: int)
    requires
        0 <= k < lines.len(),
        out.len() + taken(lines, k) <= 12_000,
        out.len() + taken(lines, k + 1) > 12_000,
    ensures
        filled(out, lines).len() >= out.len() + taken(lines, k),
        filled(out, lines).skip(out.len() as int + taken(lines, k)) == "\n… (context truncated)"@,
    decreases k,
{
    reveal_strlit("\n");
    assert(taken(lines, 0) == 0);
    assert(taken(lines, 1) == taken(lines, 0) + lines[0].len() + 1);
    if k == 0 {
        assert(filled(out, lines).skip(out.len() as int) =~= "\n… (context truncated)"@);
    } else {
        taken_grows(lines, 1, k);
        taken_shifts(lines, k);
        taken_shifts(lines, k + 1);
        filled_overflows(out + lines[0] + "\n"@, lines.skip(1), k - 1);
    }
}

/// Where a line has no room any more, a remark ends the context in its place.
pub proof fn overlong_context_says_so(lines: Seq<Seq<char>>, k: int)
    requires
        0 <= k < lines.len(),
        taken(lines, k) <= 12_000,
        taken(lines, k + 1) > 12_000,
    ensures
        joined_of(lines).len() >= taken(lines, k),
        joined_of(lines).skip(taken(lines, k) as int) == "\n… (context truncated)"@,
{
    reveal_strlit("\n… (context truncated)");
    let all = filled(Seq::empty(), lines);
    let p = taken(lines, k) as int;
    filled_overflows(Seq::empty(), lines, k);
    assert(all.skip(p).len() == 22);
    assert(all.skip(p)[21] == ')');
    assert(all.last() == ')');
    assert(!white(')'));
    assert(trim_end_of(all) == all);
}

// ---------------------------------------------------------------------------
// Summaries
// ---------------------------------------------------------------------------

/// How many characters the texts of the first `k` hits take as lines: those of
/// more than 600 characters are cut there and get an ellipsis.
pub open spec fn said<T>(hits: Seq<VectorHit<T>>, k: int) -> nat
    decreases k,
{
    if k <= 0 {
        0
    } else {
        said(hits, k - 1) + match hits[k - 1].text {
            Some(t) => if t@.len() <= 600 {
                t@.len() + 1
            } else {
                602
            },
            None => 0,
        }
    }
}

/// How many of the first `k` hits have a text.
pub open spec fn texts<T>(hits: Seq<VectorHit<T>>, k: int) -> nat
    decreases k,
{
    if k <= 0 {
        0
    } else {
        texts(hits, k - 1) + if hits[k - 1].text is Some {
            1nat
        } else {
            0nat
        }
    }
}

proof fn summaries_are_lines<T>(hits: Seq<VectorHit<T>>, k: int)
    requires
        0 <= k <= hits.len(),
    ensures
        summary_lines(hits.take(k)).len() == texts(hits, k),
        forall|j: int|
            0 <= j < k && (#[trigger] hits[j]).text is Some ==> {
                let lines = summary_lines(hits.take(k));
                &&& texts(hits, j) < lines.len()
                &&& taken(lines, texts(hits, j) as int) == said(hits, j)
                &&& taken(lines, texts(hits, j) as int + 1) == said(hits, j + 1)
                &&& lines[texts(hits, j) as int] == (if hits[j].text->0@.len() <= 600 {
                    hits[j].text->0@
                } else {
                    hits[j].text->0@.take(600) + "…"@
                })
            },
        taken(summary_lines(hits.take(k)), texts(hits, k) as int) == said(hits, k),
    decreases k,
{
    reveal_strlit("…");
    if k > 0 {
        summaries_are_lines(hits, k - 1);
        let upto = hits.take(k);
        let before = summary_lines(hits.take(k - 1));
        let after = summary_lines(upto);
        assert(upto.drop_last() =~= hits.take(k - 1));
        assert(upto.last() == hits[k - 1]);
        assert(hits[k - 1].text is None ==> after == before);
        assert(forall|j: int| 0 <= j < before.len() ==> after[j] == before[j]);
        assert forall|m: int| 0 <= m <= before.len() implies taken(after, m) == taken(
            before,
            m,
        ) by {
            same_beginning_takes_alike(before, after, m);
        }
        assert forall|j: int| 0 <= j < k && (#[trigger] hits[j]).text is Some implies {
            let lines = after;
            &&& texts(hits, j) < lines.len()
            &&& taken(lines, texts(hits, j) as int) == said(hits, j)
            &&& taken(lines, texts(hits, j) as int + 1) == said(hits, j + 1)
            &&& lines[texts(hits, j) as int] == (if hits[j].text->0@.len() <= 600 {
                hits[j].text->0@
            } else {
                hits[j].text->0@.take(600) + "…"@
            })
        } by {
            if j < k - 1 {
                assert(texts(hits, j) < before.len());
            } else {
                assert(texts(hits, j) == before.len());
                assert(after == before.push(truncated(hits[j].text->0@, 600)));
                assert(taken(after, before.len() as int + 1) == taken(after, before.len() as int)
                    + after[before.len() as int].len() + 1);
            }
        }
    } else {
        assert(hits.take(0) =~= Seq::empty());
    }
}

proof fn same_beginning_takes_alike(a: Seq<Seq<char>>, b: Seq<Seq<char>>, m: int)
    requires
        0 <= m <= a.len(),
        a.len() <= b.len(),
        forall|j: int| 0 <= j < a.len() ==> a[j] == b[j],
    ensures
        taken(a, m) == taken(b, m),
    decreases m,
{
    if m > 0 {
        same_beginning_takes_alike(a, b, m - 1);
    }
}

/// A text whole up to 600 characters; of a longer one the first 600 and an
/// ellipsis.
pub open spec fn at_most_600(text: Seq<char>) -> Seq<char> {
    if text.len() <= 600 {
        text
    } else {
        text.take(600) + "…"@
    }
}

/// A question answered from summaries is given the text of each hit, whole up to
/// 600 characters, as a line of its own in the order of the hits, as long as the
/// lines up to it are within 12000 characters. The graph has no part in it.
pub proof fn summaries_are_shown<T>(hits: Seq<VectorHit<T>>, g: Graph, hops: nat, i: int)
    requires
        0 <= i < hits.len(),
        hits[i].text is Some,
        said(hits, i + 1) <= 12_000,
    ensures
        exists|pad: Seq<char>|
            blank(pad) && #[trigger] stands_at(
                context_of(SearchType::Summaries, hits, g, hops).text + pad,
                said(hits, i) as int,
                at_most_600(hits[i].text->0@),
            ),
        hits[i].text->0@.len() > 600 || (hits[i].text->0@.len() > 0 && !white(
            hits[i].text->0@.last(),
        )) ==> stands_at(
            context_of(SearchType::Summaries, hits, g, hops).text,
            said(hits, i) as int,
            at_most_600(hits[i].text->0@),
        ),
        context_of(SearchType::Summaries, hits, g, hops).nodes == 0,
        context_of(SearchType::Summaries, hits, g, hops).edges == 0,
{
    reveal_strlit("…");
    summaries_are_lines(hits, hits.len() as int);
    assert(hits.take(hits.len() as int) =~= hits);
    let k = texts(hits, i) as int;
    let lines = summary_lines(hits);
    let line = at_most_600(hits[i].text->0@);
    assert(lines[k] == line);
    assert(taken(lines, k) == said(hits, i));
    line_stands_in_context(lines, k);
    let pad = choose|pad: Seq<char>|
        blank(pad) && #[trigger] stands_at(joined_of(lines) + pad, taken(lines, k) as int, lines[k]);
    assert(stands_at(
        context_of(SearchType::Summaries, hits, g, hops).text + pad,
        said(hits, i) as int,
        line,
    ));
    if hits[i].text->0@.len() > 600 {
        assert(line.last() == '…');
        assert(!white('…'));
    }
}

/// Where there is room for the texts of all hits, nothing else is said.
pub proof fn only_summaries_are_shown<T>(hits: Seq<VectorHit<T>>, g: Graph, hops: nat)
    requires
        said(hits, hits.len() as int) <= 12_000,
    ensures
        exists|pad: Seq<char>|
            #[trigger] blank(pad) && context_of(SearchType::Summaries, hits, g, hops).text.len()
                + pad.len() == said(hits, hits.len() as int),
{
    summaries_are_lines(hits, hits.len() as int);
    assert(hits.take(hits.len() as int) =~= hits);
    context_is_the_lines(summary_lines(hits));
}

// ---------------------------------------------------------------------------
// The graph around what was found
// ---------------------------------------------------------------------------

/// A question answered from the graph is given a line for every node that edges
/// lead to from a hit within the hops asked for.
pub proof fn every_node_around_has_a_line<T>(
    hits: Seq<VectorHit<T>>,
    g: Graph,
    hops: nat,
    i: int,
    path: Seq<int>,
)
    requires
        0 <= i < g.nodes.len(),
        leads(g.edges, hits.map_values(|h: VectorHit<T>| h.id@), Seq::empty(), path, g.nodes[i].id),
        path.len() <= hops,
    ensures
        ({
            let nodes = nodes_around(g, hit_ids(hits), hops);
            let lines = graph_lines(nodes, edges_between(g, nodes));
            &&& nodes.contains(g.nodes[i])
            &&& context_of(SearchType::GraphCompletion, hits, g, hops).text == joined_of(lines)
            &&& context_of(SearchType::GraphCompletion, hits, g, hops).nodes == nodes.len()
            &&& exists|k: int|
                1 <= k <= nodes.len() && #[trigger] lines[k] == node_line_of(g.nodes[i])
        }),
{
    let seeds = hits.map_values(|h: VectorHit<T>| h.id@);
    assert(hit_ids(hits) =~= seeds);
    every_way_is_found(g, seeds, hops, Seq::empty(), i, path);
    let reached = traverse_of(g, seeds, hops, Seq::empty());
    let k = choose|k: int|
        0 <= k < reached.len() && {
            let r = #[trigger] reached[k];
            r.node == g.nodes[i] && r.depth <= path.len()
        };
    let nodes = nodes_around(g, hit_ids(hits), hops);
    assert(nodes[k] == g.nodes[i]);
    let lines = graph_lines(nodes, edges_between(g, nodes));
    assert(node_lines_of(nodes)[k] == node_line_of(nodes[k]));
    assert(lines[k + 1] == node_line_of(g.nodes[i]));
}

/// The nodes it is given lines for are nodes of the store that edges lead to from
/// a hit.
pub proof fn only_nodes_around_have_lines<T>(
    hits: Seq<VectorHit<T>>,
    g: Graph,
    hops: nat,
    k: int,
) -> (path: Seq<int>)
    requires
        0 <= k < nodes_around(g, hit_ids(hits), hops).len(),
    ensures
        g.nodes.contains(nodes_around(g, hit_ids(hits), hops)[k]),
        path.len() <= hops,
        leads(
            g.edges,
            hits.map_values(|h: VectorHit<T>| h.id@),
            Seq::empty(),
            path,
            nodes_around(g, hit_ids(hits), hops)[k].id,
        ),
{
    let seeds = hits.map_values(|h: VectorHit<T>| h.id@);
    assert(hit_ids(hits) =~= seeds);
    every_find_has_a_way(g, seeds, hops, Seq::empty(), k)
}

/// Every edge of the store between two of these nodes has a line, and no other.
pub proof fn every_edge_between_has_a_line<T>(
    hits: Seq<VectorHit<T>>,
    g: Graph,
    hops: nat,
    e: EdgeRow,
)
    ensures
        ({
            let nodes = nodes_around(g, hit_ids(hits), hops);
            let edges = edges_between(g, nodes);
            let lines = graph_lines(nodes, edges);
            &&& edges.contains(e) <==> g.edges.contains(e) && (exists|a: int|
                0 <= a < nodes.len() && (#[trigger] nodes[a]).id == e.from_id) && (exists|b: int|
                0 <= b < nodes.len() && (#[trigger] nodes[b]).id == e.to_id)
            &&& context_of(SearchType::GraphCompletion, hits, g, hops).edges == edges.len()
            &&& (edges.contains(e) ==> exists|k: int|
                nodes.len() + 3 <= k < lines.len() && #[trigger] lines[k] == edge_line_of(nodes, e))
        }),
{
    let nodes = nodes_around(g, hit_ids(hits), hops);
    let ids = nodes.map_values(|n: NodeRow| n.id);
    let edges = edges_between(g, nodes);
    let lines = graph_lines(nodes, edges);
    filter_members(g.edges, edge_among(ids));
    assert(edges.contains(e) <==> g.edges.contains(e) && edge_among(ids)(e));
    assert forall|id: Seq<char>| ids.contains(id) <==> exists|a: int|
        0 <= a < nodes.len() && (#[trigger] nodes[a]).id == id by {
        if ids.contains(id) {
            let a = choose|a: int| 0 <= a < ids.len() && ids[a] == id;
            assert(nodes[a].id == id);
        }
        if exists|a: int| 0 <= a < nodes.len() && (#[trigger] nodes[a]).id == id {
            let a = choose|a: int| 0 <= a < nodes.len() && (#[trigger] nodes[a]).id == id;
            assert(ids[a] == id);
        }
    }
    if edges.contains(e) {
        let k = choose|k: int| 0 <= k < edges.len() && edges[k] == e;
        assert(edge_lines_of(nodes, edges)[k] == edge_line_of(nodes, e));
        assert(lines[nodes.len() + 3 + k] == edge_line_of(nodes, e));
    }
}

/// The lines are a heading, one line for each node, and where there are edges an
/// empty line, a heading and one line for each edge.
pub proof fn graph_lines_are_laid_out(nodes: Seq<NodeRow>, edges: Seq<EdgeRow>)
    ensures
        graph_lines(nodes, edges)[0] == "Entities:"@,
        forall|i: int|
            0 <= i < nodes.len() ==> graph_lines(nodes, edges)[i + 1] == node_line_of(
                #[trigger] nodes[i],
            ),
        edges.len() == 0 ==> graph_lines(nodes, edges).len() == nodes.len() + 1,
        edges.len() > 0 ==> {
            &&& graph_lines(nodes, edges).len() == nodes.len() + edges.len() + 3
            &&& graph_lines(nodes, edges)[nodes.len() as int + 1] == Seq::<char>::empty()
            &&& graph_lines(nodes, edges)[nodes.len() as int + 2] == "Relationships:"@
        },
        forall|i: int|
            0 <= i < edges.len() ==> graph_lines(nodes, edges)[nodes.len() + 3 + i]
                == edge_line_of(nodes, #[trigger] edges[i]),
{
    let lines = graph_lines(nodes, edges);
    assert forall|i: int| 0 <= i < nodes.len() implies lines[i + 1] == node_line_of(
        #[trigger] nodes[i],
    ) by {
        assert(node_lines_of(nodes)[i] == node_line_of(nodes[i]));
    }
    assert forall|i: int| 0 <= i < edges.len() implies lines[nodes.len() + 3 + i] == edge_line_of(
        nodes,
        #[trigger] edges[i],
    ) by {
        assert(edge_lines_of(nodes, edges)[i] == edge_line_of(nodes, edges[i]));
    }
}

// ---------------------------------------------------------------------------
// The question
// ---------------------------------------------------------------------------

/// What the model is told holds the whole context behind its heading, and ends
/// with the question itself.
pub proof fn prompt_holds_context_and_question(context: Seq<char>, query: Seq<char>)
    ensures
        user_prompt(context, query).len() == 28 + context.len() + query.len(),
        user_prompt(context, query).take(16) == "Memory context:\n"@,
        user_prompt(context, query).subrange(16, 16 + context.len() as int) == context,
        user_prompt(context, query).subrange(16 + context.len() as int, 28 + context.len() as int)
            == "\n\nQuestion: "@,
        user_prompt(context, query).skip(28 + context.len() as int) == query,
{
    reveal_strlit("Memory context:\n");
    reveal_strlit("\n\nQuestion: ");
    let all = user_prompt(context, query);
    assert(all.take(16) =~= "Memory context:\n"@);
    assert(all.subrange(16, 16 + context.len() as int) =~= context);
    assert(all.subrange(16 + context.len() as int, 28 + context.len() as int) =~= "\n\nQuestion: "@);
    assert(all.skip(28 + context.len() as int) =~= query);
}

} // verus!
