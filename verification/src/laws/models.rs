//! What the models are sent, and what is made of their replies.

use vstd::prelude::*;

use crate::embed::{
    by_index, embed_request, host_endpoint, ordering_is_sound, placed, usable_key, vectors_of,
    EmbedData, EmbedResponse,
};
use crate::ingest::datapoints::{set_all, set_all_keeps_others};
use crate::ingest::extract::{
    after_thinking, braced, candidate_of, extraction_prompt_of, head_of, unfenced,
};
use crate::json::{
    field_set_is_read, field_set_keeps_others, member, parsed_number, zero_json, Json,
};
use crate::laws::chunking::trimming_ignores_blank_end;
use crate::laws::graphs::joining_prepends;
use crate::laws::recall::trimmed_end;
use crate::laws::remembering::{field_is_read, set_is_read, under};
use crate::llm::{answer_of, bare_model_of, had_reasoning, overlaid, request_of, turn, Access};
use crate::pattern::{
    contains_of, find_from_is_first, find_of, occurs_at, replace_str_of, rfind_from_is_last,
    rfind_of, split_str_of, starts_of, trim_prefixes, trim_suffixes,
};
use crate::text::{blank, blank_iff_trims_to_nothing, trim_end_of, trim_of, trim_start_of, white};

verus! {

// ---------------------------------------------------------------------------
// Searching
// ---------------------------------------------------------------------------

proof fn absent_is_not_found(s: Seq<char>, pat: Seq<char>)
    requires
        !contains_of(s, pat),
    ensures
        find_of(s, pat) is None,
        rfind_of(s, pat) is None,
{
    find_from_is_first(s, pat, 0);
    rfind_from_is_last(s, pat, s.len() - pat.len());
    if let Some(i) = find_of(s, pat) {
        assert(occurs_at(s, pat, i));
    }
    if let Some(i) = rfind_of(s, pat) {
        assert(occurs_at(s, pat, i));
    }
}

/// The first character of the pattern does not occur in it again.
spec fn begins_once(pat: Seq<char>) -> bool {
    pat.len() > 0 && forall|i: int| 0 < i < pat.len() ==> #[trigger] pat[i] != pat[0]
}

proof fn last_is_found(a: Seq<char>, pat: Seq<char>, b: Seq<char>)
    requires
        begins_once(pat),
        !contains_of(b, pat),
    ensures
        rfind_of(a + pat + b, pat) == Some(a.len() as int),
        contains_of(a + pat + b, pat),
{
    let s = a + pat + b;
    let n = a.len() as int;
    assert(s.subrange(n, n + pat.len()) =~= pat);
    assert(occurs_at(s, pat, n));
    rfind_from_is_last(s, pat, s.len() - pat.len());
    let found = rfind_of(s, pat);
    if let Some(i) = found {
        if i > n {
            assert(occurs_at(s, pat, i));
            assert(s.subrange(i, i + pat.len())[0] == s[i]);
            if i < n + pat.len() {
                assert(s[i] == pat[i - n]);
                assert(false);
            } else {
                let j = i - n - pat.len();
                assert(b.subrange(j, j + pat.len()) =~= s.subrange(i, i + pat.len()));
                assert(occurs_at(b, pat, j));
            }
        }
    }
}

proof fn think_begins_once()
    ensures
        begins_once("</think>"@),
        "</think>"@.len() == 8,
        "</think>"@[0] == '<',
        "</think>"@[7] == '>',
{
    reveal_strlit("</think>");
}

// ---------------------------------------------------------------------------
// Answers
// ---------------------------------------------------------------------------

/// A reply without a chain of thought is answered by all of it, but for white space
/// around it.
pub proof fn plain_reply_is_the_answer(content: Seq<char>)
    requires
        !contains_of(content, "</think>"@),
        !starts_of(trim_start_of(content), "<think>"@),
        !blank(content),
    ensures
        answer_of(Some(content)) == Some(trim_of(content)),
{
    absent_is_not_found(content, "</think>"@);
    blank_iff_trims_to_nothing(content);
}

/// Behind a chain of thought, what follows its end is the answer.
pub proof fn answer_follows_reasoning(thoughts: Seq<char>, rest: Seq<char>)
    requires
        !contains_of(rest, "</think>"@),
        !starts_of(trim_start_of(rest), "<think>"@),
        !blank(rest),
    ensures
        answer_of(Some(thoughts + "</think>"@ + rest)) == Some(trim_of(rest)),
{
    think_begins_once();
    let all = thoughts + "</think>"@ + rest;
    last_is_found(thoughts, "</think>"@, rest);
    assert(all.skip(thoughts.len() as int + 8) =~= rest);
    blank_iff_trims_to_nothing(rest);
}

/// A reply that is blank behind its chain of thought, or missing, has no answer; it
/// is told apart whether there was any thought.
pub proof fn reasoning_alone_is_no_answer(thoughts: Seq<char>, rest: Seq<char>)
    requires
        blank(rest),
    ensures
        answer_of(Some(thoughts + "</think>"@ + rest)) is None,
        answer_of(None) is None,
        had_reasoning(Some(thoughts + "</think>"@ + rest), None),
        !had_reasoning(None, None),
        forall|r: Seq<char>| #[trigger] had_reasoning(None, Some(r)) <==> !blank(r),
{
    think_begins_once();
    let all = thoughts + "</think>"@ + rest;
    assert(!contains_of(rest, "</think>"@)) by {
        if contains_of(rest, "</think>"@) {
            let i = choose|i: int| occurs_at(rest, "</think>"@, i);
            assert(rest.subrange(i, i + 8)[0] == rest[i]);
            assert(white('<'));
        }
    }
    last_is_found(thoughts, "</think>"@, rest);
    assert(all.skip(thoughts.len() as int + 8) =~= rest);
    blank_iff_trims_to_nothing(rest);
    blank_iff_trims_to_nothing(Seq::<char>::empty());
    absent_in_empty();
}

proof fn absent_in_empty()
    ensures
        answer_of(None) is None,
{
    think_begins_once();
    let none = Seq::<char>::empty();
    assert(!contains_of(none, "</think>"@)) by {
        if contains_of(none, "</think>"@) {
            let i = choose|i: int| occurs_at(none, "</think>"@, i);
            assert(i + 8 <= none.len());
        }
    }
    absent_is_not_found(none, "</think>"@);
    assert(trim_of(none) =~= none);
}

// ---------------------------------------------------------------------------
// JSON in a reply
// ---------------------------------------------------------------------------

proof fn trimming_stops_at(a: Seq<char>, rest: Seq<char>)
    requires
        rest.len() > 0,
        !white(rest.first()),
    ensures
        trim_start_of(a + rest) == trim_start_of(a) + rest,
    decreases a.len(),
{
    if a.len() > 0 {
        if white(a.first()) {
            assert((a + rest).drop_first() =~= a.drop_first() + rest);
            trimming_stops_at(a.drop_first(), rest);
        }
    } else {
        assert(a + rest =~= rest);
        assert(trim_start_of(a) + rest =~= rest);
    }
}

proof fn trimming_end_stops_at(s: Seq<char>, b: Seq<char>)
    requires
        s.len() > 0,
        !white(s.last()),
    ensures
        trim_end_of(s + b) == s + trim_end_of(b),
    decreases b.len(),
{
    if b.len() > 0 {
        assert((s + b).last() == b.last());
        if white(b.last()) {
            assert((s + b).drop_last() =~= s + b.drop_last());
            trimming_end_stops_at(s, b.drop_last());
        }
    } else {
        assert(s + b =~= s);
        assert(s + trim_end_of(b) =~= s);
    }
}

proof fn trimming_around(a: Seq<char>, mid: Seq<char>, b: Seq<char>)
    requires
        mid.len() > 0,
        !white(mid.first()),
        !white(mid.last()),
    ensures
        trim_of(a + mid + b) == trim_start_of(a) + mid + trim_end_of(b),
{
    assert(a + mid + b =~= a + (mid + b));
    trimming_stops_at(a, mid + b);
    let s = trim_start_of(a) + mid;
    assert(trim_start_of(a) + (mid + b) =~= s + b);
    assert(s.last() == mid.last());
    trimming_end_stops_at(s, b);
}

proof fn trimming_whole(s: Seq<char>)
    requires
        s.len() > 0,
        !white(s.first()),
        !white(s.last()),
    ensures
        trim_of(s) == s,
{
    let none = Seq::<char>::empty();
    trimming_around(none, s, none);
    assert(none + s + none =~= s);
    assert(trim_start_of(none) + s + trim_end_of(none) =~= s);
}

/// A text that looks like a JSON object: it begins with an opening brace and ends
/// with a closing one.
pub open spec fn in_braces(s: Seq<char>) -> bool {
    s.len() >= 2 && s.first() == '{' && s.last() == '}'
}

proof fn braces_stay(s: Seq<char>)
    requires
        in_braces(s),
    ensures
        braced(unfenced(s)) == s,
        trim_of(s) == s,
{
    reveal_strlit("{");
    reveal_strlit("```json");
    reveal_strlit("```");
    trimming_whole(s);
    assert(!starts_of(s, "```json"@)) by {
        if starts_of(s, "```json"@) {
            assert(s.subrange(0, 7)[0] == s[0]);
        }
    }
    assert(!starts_of(s, "```"@)) by {
        if starts_of(s, "```"@) {
            assert(s.subrange(0, 3)[0] == s[0]);
        }
    }
    assert(!occurs_at(s, "```"@, s.len() - 3)) by {
        if occurs_at(s, "```"@, s.len() - 3) {
            assert(s.subrange(s.len() - 3, s.len() as int)[2] == s[s.len() - 1]);
        }
    }
    assert(s.subrange(0, 1) =~= "{"@);
}

/// A reply that is a JSON object and nothing else is taken as it is.
pub proof fn bare_json_is_taken(json: Seq<char>)
    requires
        in_braces(json),
        !contains_of(json, "</think>"@),
    ensures
        candidate_of(json) == json,
{
    braces_stay(json);
    absent_is_not_found(json, "</think>"@);
}

/// A JSON object in a code fence is taken out of it.
pub proof fn fenced_json_is_taken(json: Seq<char>)
    requires
        in_braces(json),
        !contains_of("```json\n"@ + json + "\n```"@, "</think>"@),
    ensures
        candidate_of("```json\n"@ + json + "\n```"@) == json,
{
    reveal_strlit("```json\n");
    reveal_strlit("\n```");
    reveal_strlit("```json");
    reveal_strlit("```");
    let all = "```json\n"@ + json + "\n```"@;
    trimming_whole(all);
    absent_is_not_found(all, "</think>"@);
    assert(after_thinking(all) == all);
    assert(all.subrange(0, 7) =~= "```json"@);
    assert(starts_of(all, "```json"@));
    let inner = all.skip(7);
    let none = Seq::<char>::empty();
    let line = seq!['\n'];
    assert(inner =~= line + json + "\n```"@);
    assert(inner[0] == '\n');
    assert(!starts_of(inner, "```json"@)) by {
        if starts_of(inner, "```json"@) {
            assert(inner.subrange(0, 7)[0] == inner[0]);
        }
    }
    assert(trim_prefixes(inner, "```json"@) == inner);
    assert(trim_prefixes(all, "```json"@) == inner);
    assert(!starts_of(inner, "```"@)) by {
        if starts_of(inner, "```"@) {
            assert(inner.subrange(0, 3)[0] == inner[0]);
        }
    }
    assert(trim_prefixes(inner, "```"@) == inner);
    let body = line + json + line;
    assert(inner =~= body + "```"@);
    assert(inner.subrange(inner.len() - 3, inner.len() as int) =~= "```"@);
    assert(occurs_at(inner, "```"@, inner.len() - 3));
    assert(inner.take(inner.len() - 3) =~= body);
    assert(!occurs_at(body, "```"@, body.len() - 3)) by {
        if occurs_at(body, "```"@, body.len() - 3) {
            assert(body.subrange(body.len() - 3, body.len() as int)[2] == body[body.len() - 1]);
        }
    }
    assert(trim_suffixes(body, "```"@) == body);
    assert(trim_suffixes(inner, "```"@) == body);
    trimming_around(line, json, line);
    assert(trim_start_of(line) =~= none) by {
        assert(line.drop_first() =~= none);
        assert(trim_start_of(none) == none);
    }
    assert(trim_end_of(line) =~= none) by {
        assert(line.drop_last() =~= none);
        assert(trim_end_of(none) == none);
    }
    assert(none + json + none =~= json);
    assert(unfenced(all) == json);
    reveal_strlit("{");
    assert(json.subrange(0, 1) =~= "{"@);
}

/// A JSON object with prose around it is taken out of the prose.
pub proof fn json_in_prose_is_taken(a: Seq<char>, json: Seq<char>, b: Seq<char>)
    requires
        in_braces(json),
        !blank(a),
        forall|i: int| 0 <= i < a.len() ==> #[trigger] a[i] != '{' && a[i] != '`',
        forall|i: int| 0 <= i < b.len() ==> #[trigger] b[i] != '}' && b[i] != '`',
        !contains_of(trim_of(a + json + b), "</think>"@),
    ensures
        candidate_of(a + json + b) == json,
{
    reveal_strlit("{");
    reveal_strlit("}");
    reveal_strlit("```json");
    reveal_strlit("```");
    trimming_around(a, json, b);
    let x = trim_start_of(a);
    let y = trim_end_of(b);
    let s = x + json + y;
    absent_is_not_found(s, "</think>"@);
    start_is_part(a);
    let k = choose|k: int| 0 <= k <= a.len() && x == #[trigger] a.skip(k);
    trimmed_end(b);
    assert(x.len() > 0) by {
        if x.len() == 0 {
            blank_iff_trims_to_nothing(a);
            assert(trim_end_of(x) == x);
        }
    }
    assert(!white(x.first())) by {
        start_is_trimmed(a);
    }
    assert(s.first() == x.first());
    assert(x[0] == a[k]);
    assert(!white(s.last())) by {
        if y.len() > 0 {
            assert(s.last() == y.last());
        } else {
            assert(s.last() == json.last());
        }
    }
    trimming_whole(s);
    assert(after_thinking(a + json + b) == s);
    assert(s[0] != '`' && s[0] != '{');
    assert(s.last() != '`') by {
        if y.len() > 0 {
            assert(y.last() == b[y.len() - 1]);
        }
    }
    assert(!starts_of(s, "```json"@)) by {
        if starts_of(s, "```json"@) {
            assert(s.subrange(0, 7)[0] == s[0]);
        }
    }
    assert(!starts_of(s, "```"@)) by {
        if starts_of(s, "```"@) {
            assert(s.subrange(0, 3)[0] == s[0]);
        }
    }
    assert(!occurs_at(s, "```"@, s.len() - 3)) by {
        if occurs_at(s, "```"@, s.len() - 3) {
            assert(s.subrange(s.len() - 3, s.len() as int)[2] == s[s.len() - 1]);
        }
    }
    assert(unfenced(s) == s);
    assert(!starts_of(s, "{"@)) by {
        if starts_of(s, "{"@) {
            assert(s.subrange(0, 1)[0] == s[0]);
        }
    }
    let at = x.len() as int;
    let end = x.len() + json.len() - 1;
    find_from_is_first(s, "{"@, 0);
    assert(s.subrange(at, at + 1) =~= "{"@);
    assert(occurs_at(s, "{"@, at));
    assert(find_of(s, "{"@) == Some(at)) by {
        let i = find_of(s, "{"@)->0;
        if i < at {
            assert(s.subrange(i, i + 1)[0] == s[i]);
            assert(s[i] == a[k + i]);
        }
    }
    rfind_from_is_last(s, "}"@, s.len() - 1);
    assert(s.subrange(end, end + 1) =~= "}"@);
    assert(occurs_at(s, "}"@, end));
    assert(rfind_of(s, "}"@) == Some(end)) by {
        let i = rfind_of(s, "}"@)->0;
        if i > end {
            assert(s.subrange(i, i + 1)[0] == s[i]);
            assert(s[i] == y[i - end - 1]);
            assert(y[i - end - 1] == b[i - end - 1]);
        }
    }
    assert(s.subrange(at, end + 1) =~= json);
}

proof fn start_is_part(s: Seq<char>)
    ensures
        exists|a: int| 0 <= a <= s.len() && trim_start_of(s) == #[trigger] s.skip(a),
    decreases s.len(),
{
    if s.len() > 0 && white(s.first()) {
        let t = s.drop_first();
        start_is_part(t);
        let a = choose|a: int| 0 <= a <= t.len() && trim_start_of(t) == #[trigger] t.skip(a);
        assert(s.skip(a + 1) =~= t.skip(a));
    } else {
        assert(s.skip(0) =~= s);
    }
}

proof fn start_is_trimmed(s: Seq<char>)
    ensures
        trim_start_of(s).len() > 0 ==> !white(trim_start_of(s).first()),
    decreases s.len(),
{
    if s.len() > 0 && white(s.first()) {
        start_is_trimmed(s.drop_first());
    }
}

/// A chain of thought before the JSON makes no difference.
pub proof fn reasoning_is_passed_over(thoughts: Seq<char>, rest: Seq<char>)
    requires
        !contains_of(rest, "</think>"@),
        !contains_of(trim_end_of(rest), "</think>"@),
        !contains_of(trim_of(rest), "</think>"@),
    ensures
        candidate_of(thoughts + "</think>"@ + rest) == candidate_of(rest),
{
    think_begins_once();
    trimming_around(thoughts, "</think>"@, rest);
    let x = trim_start_of(thoughts);
    let y = trim_end_of(rest);
    last_is_found(x, "</think>"@, y);
    let s = x + "</think>"@ + y;
    assert(s.skip(x.len() as int + 8) =~= y);
    absent_is_not_found(trim_of(rest), "</think>"@);
    trimmed_end(rest);
    let tail = rest.skip(y.len() as int);
    assert(y + tail =~= rest);
    assert(blank(tail)) by {
        assert forall|i: int| 0 <= i < tail.len() implies white(#[trigger] tail[i]) by {
            assert(tail[i] == rest[y.len() + i]);
        }
    }
    if blank(y) {
        blank_iff_trims_to_nothing(y);
        assert(blank(rest)) by {
            assert forall|i: int| 0 <= i < rest.len() implies white(#[trigger] rest[i]) by {
                if i < y.len() {
                    assert(rest[i] == y[i]);
                } else {
                    assert(rest[i] == tail[i - y.len()]);
                }
            }
        }
        blank_iff_trims_to_nothing(rest);
        assert(trim_of(y) =~= trim_of(rest));
    } else {
        trimming_ignores_blank_end(y, tail);
    }
}

/// Instructions of the caller's own are sent, with the demand for JSON behind them.
pub proof fn own_instructions_are_sent(custom: Seq<char>)
    ensures
        extraction_prompt_of(Some(custom)) == custom
            + "\n\nRespond with ONLY a JSON object of the exact schema described above."@,
        extraction_prompt_of(Some(custom)).take(custom.len() as int) == custom,
{
    assert(extraction_prompt_of(Some(custom)).take(custom.len() as int) =~= custom);
}

/// Of a reply that is no JSON the first characters are shown, all where there are
/// not more.
pub proof fn beginning_is_shown(s: Seq<char>, n: nat)
    ensures
        s.len() <= n ==> head_of(s, n) == s,
        s.len() > n ==> head_of(s, n) == s.take(n as int),
{
}

// ---------------------------------------------------------------------------
// Requests to the language model
// ---------------------------------------------------------------------------

/// The name of a model is what stands behind the last slash.
pub proof fn provider_is_left_out(provider: Seq<char>, name: Seq<char>)
    requires
        !name.contains('/'),
    ensures
        bare_model_of(name) == name,
        bare_model_of(provider + "/"@ + name) == name,
{
    reveal_strlit("/");
    assert(!contains_of(name, "/"@)) by {
        if contains_of(name, "/"@) {
            let i = choose|i: int| occurs_at(name, "/"@, i);
            assert(name.subrange(i, i + 1)[0] == name[i]);
        }
    }
    absent_is_not_found(name, "/"@);
    last_is_found(provider, "/"@, name);
    let all = provider + "/"@ + name;
    assert(all.skip(provider.len() as int + 1) =~= name);
}

proof fn overlaid_is_set(fields: Seq<(Seq<char>, Json)>, extra: Seq<(Seq<char>, Json)>)
    ensures
        overlaid(fields, extra) == set_all(fields, extra),
    decreases extra.len(),
{
    if extra.len() > 0 {
        overlaid_is_set(fields, extra.drop_last());
    }
}

proof fn request_keys_differ()
    ensures
        "model"@ != "messages"@,
        "model"@ != "temperature"@,
        "model"@ != "thinking"@,
        "messages"@ != "temperature"@,
        "messages"@ != "thinking"@,
        "temperature"@ != "thinking"@,
{
    reveal_strlit("model");
    reveal_strlit("messages");
    reveal_strlit("temperature");
    reveal_strlit("thinking");
    assert("model"@.len() != "messages"@.len());
    assert("model"@.len() != "temperature"@.len());
    assert("model"@.len() != "thinking"@.len());
    assert("messages"@.len() != "temperature"@.len());
    assert("messages"@[0] != "thinking"@[0]);
    assert("temperature"@.len() != "thinking"@.len());
}

/// The extra arguments, or none where they are no object.
pub open spec fn extras_of(a: Access) -> Seq<(Seq<char>, Json)> {
    match a.extra_args {
        Json::Object(extra) => extra,
        _ => Seq::empty(),
    }
}

proof fn request_reads(a: Access, system: Seq<char>, user: Seq<char>, key: Seq<char>)
    ensures
        ({
            let plain = seq![
                ("model"@, Json::Text(bare_model_of(a.model))),
                ("messages"@, Json::List(seq![turn("system"@, system), turn("user"@, user)])),
                ("temperature"@, zero_json()),
            ];
            &&& (key != "thinking"@ || !a.disable_thinking ==> member(
                request_of(a, system, user),
                key,
            ) == under(set_all(plain, extras_of(a)), key))
            &&& (a.disable_thinking ==> member(request_of(a, system, user), "thinking"@) == Some(
                Json::Object(seq![("type"@, Json::Text("disabled"@))]),
            ))
        }),
{
    let plain = seq![
        ("model"@, Json::Text(bare_model_of(a.model))),
        ("messages"@, Json::List(seq![turn("system"@, system), turn("user"@, user)])),
        ("temperature"@, zero_json()),
    ];
    let extended = set_all(plain, extras_of(a));
    overlaid_is_set(plain, extras_of(a));
    let off = Json::Object(seq![("type"@, Json::Text("disabled"@))]);
    field_set_is_read(extended, "thinking"@, off);
    if key != "thinking"@ {
        field_set_keeps_others(extended, "thinking"@, off, key);
    }
}

/// The model is asked by its bare name, with the instructions and the question in
/// two messages and without chance, unless the extra arguments say otherwise.
pub proof fn model_is_asked(a: Access, system: Seq<char>, user: Seq<char>)
    ensures
        (forall|i: int| 0 <= i < extras_of(a).len() ==> (#[trigger] extras_of(a)[i]).0 != "model"@)
            ==> member(request_of(a, system, user), "model"@) == Some(
            Json::Text(bare_model_of(a.model)),
        ),
        (forall|i: int|
            0 <= i < extras_of(a).len() ==> (#[trigger] extras_of(a)[i]).0 != "messages"@)
            ==> member(request_of(a, system, user), "messages"@) == Some(
            Json::List(
                seq![
                    Json::Object(
                        seq![
                            ("role"@, Json::Text("system"@)),
                            ("content"@, Json::Text(system)),
                        ],
                    ),
                    Json::Object(
                        seq![("role"@, Json::Text("user"@)), ("content"@, Json::Text(user))],
                    ),
                ],
            ),
        ),
        (forall|i: int|
            0 <= i < extras_of(a).len() ==> (#[trigger] extras_of(a)[i]).0 != "temperature"@)
            ==> member(request_of(a, system, user), "temperature"@) == Some(
                Json::Float(parsed_number("0.0"@)->0),
            ),
{
    request_keys_differ();
    let plain = seq![
        ("model"@, Json::Text(bare_model_of(a.model))),
        ("messages"@, Json::List(seq![turn("system"@, system), turn("user"@, user)])),
        ("temperature"@, zero_json()),
    ];
    field_is_read(plain, 0);
    field_is_read(plain, 1);
    field_is_read(plain, 2);
    request_reads(a, system, user, "model"@);
    request_reads(a, system, user, "messages"@);
    request_reads(a, system, user, "temperature"@);
    if forall|i: int| 0 <= i < extras_of(a).len() ==> (#[trigger] extras_of(a)[i]).0 != "model"@ {
        set_all_keeps_others(plain, extras_of(a), "model"@);
    }
    if forall|i: int|
        0 <= i < extras_of(a).len() ==> (#[trigger] extras_of(a)[i]).0 != "messages"@ {
        set_all_keeps_others(plain, extras_of(a), "messages"@);
    }
    if forall|i: int|
        0 <= i < extras_of(a).len() ==> (#[trigger] extras_of(a)[i]).0 != "temperature"@ {
        set_all_keeps_others(plain, extras_of(a), "temperature"@);
    }
}

/// Every extra argument is sent; where thinking is turned off, that is sent too and
/// comes first.
pub proof fn extra_arguments_are_sent(a: Access, system: Seq<char>, user: Seq<char>, i: int)
    requires
        0 <= i < extras_of(a).len(),
        forall|j: int|
            i < j < extras_of(a).len() ==> (#[trigger] extras_of(a)[j]).0 != extras_of(a)[i].0,
    ensures
        extras_of(a)[i].0 != "thinking"@ || !a.disable_thinking ==> member(
            request_of(a, system, user),
            extras_of(a)[i].0,
        ) == Some(extras_of(a)[i].1),
        a.disable_thinking ==> member(request_of(a, system, user), "thinking"@) == Some(
            Json::Object(seq![("type"@, Json::Text("disabled"@))]),
        ),
{
    let plain = seq![
        ("model"@, Json::Text(bare_model_of(a.model))),
        ("messages"@, Json::List(seq![turn("system"@, system), turn("user"@, user)])),
        ("temperature"@, zero_json()),
    ];
    request_reads(a, system, user, extras_of(a)[i].0);
    set_is_read(plain, extras_of(a), i);
}

/// Thinking is turned off in the request where it is to be.
pub proof fn thinking_is_turned_off(a: Access, system: Seq<char>, user: Seq<char>)
    requires
        a.disable_thinking,
    ensures
        member(request_of(a, system, user), "thinking"@) == Some(
            Json::Object(seq![("type"@, Json::Text("disabled"@))]),
        ),
{
    request_reads(a, system, user, "model"@);
}

// ---------------------------------------------------------------------------
// Embeddings
// ---------------------------------------------------------------------------

/// The texts are sent in order, to the model that is set.
pub proof fn texts_are_sent(model: Seq<char>, texts: Seq<Seq<char>>)
    ensures
        member(embed_request(model, texts), "model"@) == Some(Json::Text(model)),
        member(embed_request(model, texts), "input"@) matches Some(Json::List(items))
            && items.len() == texts.len() && forall|i: int|
            0 <= i < texts.len() ==> items[i] == Json::Text(#[trigger] texts[i]),
{
    reveal_strlit("model");
    reveal_strlit("input");
    assert("model"@[0] != "input"@[0]);
    let fields = embed_request(model, texts)->Object_0;
    field_is_read(fields, 0);
    field_is_read(fields, 1);
}

/// A key is sent as it is, and a blank one counts as none.
pub proof fn blank_key_is_none(key: Seq<char>)
    ensures
        !blank(key) ==> usable_key(Some(key)) == Some(key),
        blank(key) ==> usable_key(Some(key)) is None,
        usable_key(None) is None,
{
}

/// No two positions are the same.
pub open spec fn placed_apart<T>(data: Seq<EmbedData<T>>) -> bool {
    forall|i: int, j: int|
        #![trigger data[i], data[j]]
        0 <= i < j < data.len() ==> data[i].index->0 != data[j].index->0
}

proof fn placing_holds<T>(sorted: Seq<EmbedData<T>>, x: EmbedData<T>)
    ensures
        placed(sorted, x).len() == sorted.len() + 1,
        forall|y: EmbedData<T>| #[trigger]
            placed(sorted, x).contains(y) <==> sorted.contains(y) || y == x,
    decreases sorted.len(),
{
    let after = placed(sorted, x);
    if sorted.len() == 0 || sorted.last().index->0 <= x.index->0 {
        assert forall|y: EmbedData<T>| #[trigger]
            after.contains(y) <==> sorted.contains(y) || y == x by {
            assert(after[sorted.len() as int] == x);
            if sorted.contains(y) {
                let k = choose|k: int| 0 <= k < sorted.len() && sorted[k] == y;
                assert(after[k] == y);
            }
            if after.contains(y) {
                let k = choose|k: int| 0 <= k < after.len() && after[k] == y;
                if k < sorted.len() {
                    assert(sorted[k] == y);
                }
            }
        }
    } else {
        let head = sorted.drop_last();
        placing_holds(head, x);
        let before = placed(head, x);
        assert(sorted[sorted.len() - 1] == sorted.last());
        assert forall|y: EmbedData<T>| #[trigger]
            after.contains(y) <==> sorted.contains(y) || y == x by {
            assert(after[before.len() as int] == sorted.last());
            if sorted.contains(y) {
                let k = choose|k: int| 0 <= k < sorted.len() && sorted[k] == y;
                if k < head.len() {
                    assert(head[k] == y);
                    assert(head.contains(y));
                    assert(before.contains(y));
                    let m = choose|m: int| 0 <= m < before.len() && before[m] == y;
                    assert(after[m] == y);
                }
            }
            if y == x {
                assert(before.contains(x));
                let m = choose|m: int| 0 <= m < before.len() && before[m] == x;
                assert(after[m] == y);
            }
            if after.contains(y) {
                let k = choose|k: int| 0 <= k < after.len() && after[k] == y;
                if k < before.len() {
                    assert(before[k] == y);
                    assert(before.contains(y));
                    if head.contains(y) {
                        let m = choose|m: int| 0 <= m < head.len() && head[m] == y;
                        assert(sorted[m] == y);
                    }
                }
            }
        }
    }
}

proof fn placing_keeps_apart<T>(sorted: Seq<EmbedData<T>>, x: EmbedData<T>)
    requires
        placed_apart(sorted),
        forall|i: int| 0 <= i < sorted.len() ==> (#[trigger] sorted[i]).index->0 != x.index->0,
    ensures
        placed_apart(placed(sorted, x)),
    decreases sorted.len(),
{
    let after = placed(sorted, x);
    if sorted.len() == 0 || sorted.last().index->0 <= x.index->0 {
        assert forall|i: int, j: int|
            #![trigger after[i], after[j]]
            0 <= i < j < after.len() implies after[i].index->0 != after[j].index->0 by {
            assert(after[i] == sorted[i]);
            if j < sorted.len() {
                assert(after[j] == sorted[j]);
            }
        }
    } else {
        let head = sorted.drop_last();
        assert forall|i: int, j: int|
            #![trigger head[i], head[j]]
            0 <= i < j < head.len() implies head[i].index->0 != head[j].index->0 by {
            assert(head[i] == sorted[i] && head[j] == sorted[j]);
        }
        assert forall|i: int| 0 <= i < head.len() implies (#[trigger] head[i]).index->0
            != x.index->0 by {
            assert(head[i] == sorted[i]);
        }
        placing_keeps_apart(head, x);
        placing_holds(head, x);
        let before = placed(head, x);
        assert forall|i: int, j: int|
            #![trigger after[i], after[j]]
            0 <= i < j < after.len() implies after[i].index->0 != after[j].index->0 by {
            assert(after[i] == before[i]);
            if j < before.len() {
                assert(after[j] == before[j]);
            } else {
                assert(after[j] == sorted[sorted.len() - 1]);
                assert(before.contains(before[i]));
                if head.contains(before[i]) {
                    let m = choose|m: int| 0 <= m < head.len() && head[m] == before[i];
                    assert(sorted[m] == before[i]);
                    assert(sorted[m].index->0 != sorted[sorted.len() - 1].index->0);
                } else {
                    assert(before[i] == x);
                    assert(sorted[sorted.len() - 1].index->0 != x.index->0);
                }
            }
        }
    }
}

proof fn ordering_keeps_apart<T>(data: Seq<EmbedData<T>>)
    requires
        placed_apart(data),
    ensures
        placed_apart(by_index(data)),
        by_index(data).len() == data.len(),
        forall|y: EmbedData<T>| #[trigger] by_index(data).contains(y) <==> data.contains(y),
    decreases data.len(),
{
    if data.len() > 0 {
        let head = data.drop_last();
        let last = data.last();
        assert(data[data.len() - 1] == last);
        assert forall|i: int, j: int|
            #![trigger head[i], head[j]]
            0 <= i < j < head.len() implies head[i].index->0 != head[j].index->0 by {
            assert(head[i] == data[i] && head[j] == data[j]);
        }
        ordering_keeps_apart(head);
        let sorted = by_index(head);
        assert forall|i: int| 0 <= i < sorted.len() implies (#[trigger] sorted[i]).index->0
            != last.index->0 by {
            assert(sorted.contains(sorted[i]));
            let k = choose|k: int| 0 <= k < head.len() && head[k] == sorted[i];
            assert(data[k] == head[k]);
        }
        placing_keeps_apart(sorted, last);
        placing_holds(sorted, last);
        assert forall|y: EmbedData<T>| #[trigger] by_index(data).contains(y) <==> data.contains(
            y,
        ) by {
            if data.contains(y) {
                let k = choose|k: int| 0 <= k < data.len() && data[k] == y;
                if k < head.len() {
                    assert(head[k] == y);
                    assert(head.contains(y));
                    assert(sorted.contains(y));
                }
            }
            if sorted.contains(y) {
                let k = choose|k: int| 0 <= k < head.len() && head[k] == y;
                assert(data[k] == y);
            }
        }
    }
}

proof fn ranks_are_positions<T>(sorted: Seq<EmbedData<T>>, i: int)
    requires
        crate::embed::in_order(sorted),
        placed_apart(sorted),
        0 <= i < sorted.len(),
        forall|k: int| 0 <= k < sorted.len() ==> (#[trigger] sorted[k]).index->0 < sorted.len(),
    ensures
        sorted[i].index->0 == i,
{
    at_least_its_rank(sorted, i);
    at_most_its_rank(sorted, i);
}

proof fn at_least_its_rank<T>(sorted: Seq<EmbedData<T>>, i: int)
    requires
        crate::embed::in_order(sorted),
        placed_apart(sorted),
        0 <= i < sorted.len(),
    ensures
        sorted[i].index->0 >= i,
    decreases i,
{
    if i > 0 {
        at_least_its_rank(sorted, i - 1);
        assert(sorted[i - 1].index->0 <= sorted[i].index->0);
        assert(sorted[i - 1].index->0 != sorted[i].index->0);
    }
}

proof fn at_most_its_rank<T>(sorted: Seq<EmbedData<T>>, i: int)
    requires
        crate::embed::in_order(sorted),
        placed_apart(sorted),
        0 <= i < sorted.len(),
        forall|k: int| 0 <= k < sorted.len() ==> (#[trigger] sorted[k]).index->0 < sorted.len(),
    ensures
        sorted[i].index->0 <= i,
    decreases sorted.len() - i,
{
    if i < sorted.len() - 1 {
        at_most_its_rank(sorted, i + 1);
        assert(sorted[i].index->0 <= sorted[i + 1].index->0);
        assert(sorted[i].index->0 != sorted[i + 1].index->0);
    }
}

/// Each text gets the vector that came with its position, in whatever order they
/// came.
pub proof fn vectors_go_to_their_texts<T>(r: EmbedResponse<T>, data: Seq<EmbedData<T>>, k: int)
    requires
        r.embeddings is None,
        r.data is Some,
        r.data->0@ == data,
        forall|i: int|
            0 <= i < data.len() ==> (#[trigger] data[i]).index is Some && data[i].index->0
                < data.len(),
        placed_apart(data),
        0 <= k < data.len(),
    ensures
        vectors_of(r).len() == data.len(),
        vectors_of(r)[data[k].index->0 as int] == data[k].embedding@,
{
    ordering_keeps_apart(data);
    ordering_is_sound(data);
    let sorted = by_index(data);
    assert forall|i: int| 0 <= i < sorted.len() implies (#[trigger] sorted[i]).index->0
        < sorted.len() by {
        assert(sorted.contains(sorted[i]));
        let m = choose|m: int| 0 <= m < data.len() && data[m] == sorted[i];
        assert(data[m].index->0 < data.len());
    }
    assert(data.contains(data[k]));
    assert(sorted.contains(data[k]));
    let i = choose|i: int| 0 <= i < sorted.len() && sorted[i] == data[k];
    ranks_are_positions(sorted, i);
    assert(crate::embed::all_placed(data));
}

/// Vectors that come without positions belong to the texts in the order in which
/// they came.
pub proof fn unplaced_vectors_keep_their_order<T>(r: EmbedResponse<T>, k: int)
    ensures
        r.embeddings matches Some(list) ==> vectors_of(r).len() == list@.len() && (0 <= k
            < list@.len() ==> vectors_of(r)[k] == list@[k]@),
        r.embeddings is None && r.data is None ==> vectors_of(r).len() == 0,
        r.embeddings is None ==> (r.data matches Some(data) ==> ((exists|i: int|
            0 <= i < data@.len() && (#[trigger] data@[i]).index is None) ==> vectors_of(r).len()
            == data@.len() && (0 <= k < data@.len() ==> vectors_of(r)[k] == data@[k].embedding@))),
{
    if let Some(data) = r.data {
        if exists|i: int| 0 <= i < data@.len() && (#[trigger] data@[i]).index is None {
            let i = choose|i: int| 0 <= i < data@.len() && (#[trigger] data@[i]).index is None;
            assert(!crate::embed::all_placed(data@));
        }
    }
    if r.data is None && r.embeddings is None {
        let none = Seq::<EmbedData<T>>::empty();
        assert(crate::embed::all_placed(none));
        assert(by_index(none).len() == 0);
    }
}

/// Outside a container its host is called `localhost`: the name by which the
/// container knows it is replaced wherever it stands, and all else stays. Inside
/// one nothing is replaced.
pub proof fn host_is_renamed(a: Seq<char>, b: Seq<char>)
    requires
        forall|j: int|
            0 <= j < a.len() ==> !#[trigger] occurs_at(
                a + "host.docker.internal"@ + b,
                "host.docker.internal"@,
                j,
            ),
    ensures
        host_endpoint(a + "host.docker.internal"@ + b, false) == a + "localhost"@ + host_endpoint(
            b,
            false,
        ),
        host_endpoint(a + "host.docker.internal"@ + b, true) == a + "host.docker.internal"@ + b,
        forall|raw: Seq<char>|
            !contains_of(raw, "host.docker.internal"@) ==> #[trigger] host_endpoint(raw, false)
                == raw,
{
    reveal_strlit("host.docker.internal");
    let pat = "host.docker.internal"@;
    let with = "localhost"@;
    let s = a + pat + b;
    let n = a.len() as int;
    assert(s.subrange(n, n + pat.len()) =~= pat);
    assert(occurs_at(s, pat, n));
    find_from_is_first(s, pat, 0);
    assert(find_of(s, pat) == Some(n)) by {
        let i = find_of(s, pat)->0;
        if i < n {
            assert(occurs_at(s, pat, i));
        }
    }
    assert(s.take(n) =~= a);
    assert(s.skip(n + pat.len()) =~= b);
    assert(split_str_of(s, pat) == seq![a] + split_str_of(b, pat));
    assert(split_str_of(b, pat).len() > 0);
    joining_prepends(a, split_str_of(b, pat), with);
    assert forall|raw: Seq<char>| !contains_of(raw, pat) implies #[trigger] host_endpoint(
        raw,
        false,
    ) == raw by {
        absent_is_not_found(raw, pat);
        assert(split_str_of(raw, pat) == seq![raw]);
        assert(replace_str_of(raw, pat, with) == raw);
    }
}

/// A reply in which a chain of thought begins or ends came with one.
pub proof fn marks_tell_of_reasoning(a: Seq<char>, b: Seq<char>, plain: Seq<char>)
    ensures
        had_reasoning(Some(a + "<think>"@ + b), None),
        had_reasoning(Some(a + "</think>"@ + b), None),
        !contains_of(plain, "<think>"@) && !contains_of(plain, "</think>"@) ==> !had_reasoning(
            Some(plain),
            None,
        ),
{
    let n = a.len() as int;
    let open = "<think>"@;
    let close = "</think>"@;
    assert((a + open + b).subrange(n, n + open.len()) =~= open);
    assert(occurs_at(a + open + b, open, n));
    assert((a + close + b).subrange(n, n + close.len()) =~= close);
    assert(occurs_at(a + close + b, close, n));
}

} // verus!
