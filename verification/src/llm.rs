//! Chat completions: what is sent to the model and what is made of its reply.

use vstd::prelude::*;
use vstd::string::*;

use crate::json::{
    copy_doc, distinct_keys, doc_view_parts, doc_views, field_set_keeps_unambiguous, field_views,
    put, set_field, unambiguous, unambiguous_object, with_field, zero, zero_json, Doc, Fields, Json,
};
use crate::pattern::{
    contains, contains_of, occurs_at, rfind_chars, rfind_from_is_last, rfind_of, starts_of,
    starts_with, trim_end_matches, trim_suffixes,
};
use crate::settings::LlmSettings;
use crate::text::{
    blank, chars_of, concat2, is_blank, opt_view, owned, string_of, trim, trim_end_of, trim_of,
    trim_start, trim_start_of, trimmed_is_part, white,
};

verus! {

// ---------------------------------------------------------------------------
// Replies
// ---------------------------------------------------------------------------

/// What stands behind the last end of a chain of thought; all of the text where
/// none ends.
pub open spec fn behind_reasoning(text: Seq<char>) -> Seq<char> {
    match rfind_of(text, "</think>"@) {
        Some(i) => text.skip(i + "</think>"@.len()),
        None => text,
    }
}

/// What a reply says once its chain of thought is taken off: what stands behind
/// the last end of one, unless another begins there.
pub open spec fn without_reasoning(text: Seq<char>) -> Seq<char> {
    let rest = behind_reasoning(text);
    if starts_of(trim_start_of(rest), "<think>"@) {
        Seq::empty()
    } else {
        trim_of(rest)
    }
}

/// A text that carries the marks of a chain of thought.
pub open spec fn carries_reasoning(text: Seq<char>) -> bool {
    contains_of(text, "<think>"@) || contains_of(text, "</think>"@)
}

/// What a reply says once its chain of thought is taken off.
pub fn strip_reasoning(text: &str) -> (r: String)
    ensures
        r@ == without_reasoning(text@),
{
    let chars = chars_of(text);
    let mark = chars_of("</think>");
    let n: usize = chars.len();
    let rest = match rfind_chars(&chars, &mark) {
        Some(i) => {
            let tail = string_of(&chars, i + mark.len(), n);
            assert(tail@ =~= text@.skip(i + mark@.len()));
            tail
        },
        None => owned(text),
    };
    if starts_with(trim_start(rest.as_str()).as_str(), "<think>") {
        String::new()
    } else {
        trim(rest.as_str())
    }
}

/// Whether a text carries the marks of a chain of thought.
pub fn has_reasoning(text: &str) -> (r: bool)
    ensures
        r == carries_reasoning(text@),
{
    contains(text, "<think>") || contains(text, "</think>")
}

/// What the model said.
#[derive(Debug)]
pub struct Message {
    pub content: Option<String>,
    /// The chain of thought, where it comes apart. It is never the answer.
    pub reasoning_content: Option<String>,
}

/// The answer in a message, if there is one.
pub open spec fn answer_of(content: Option<Seq<char>>) -> Option<Seq<char>> {
    let text = without_reasoning(
        match content {
            Some(c) => c,
            None => Seq::empty(),
        },
    );
    if text.len() == 0 {
        None
    } else {
        Some(text)
    }
}

/// A message that came with a chain of thought.
pub open spec fn had_reasoning(
    content: Option<Seq<char>>,
    reasoning: Option<Seq<char>>,
) -> bool {
    (reasoning matches Some(r) && !blank(r)) || (content matches Some(c) && carries_reasoning(c))
}

impl Message {
    /// The answer, without any chain of thought; nothing where there is none.
    pub fn answer(&self) -> (r: Option<String>)
        ensures
            opt_view(r) == answer_of(opt_view(self.content)),
    {
        let text = match &self.content {
            Some(c) => strip_reasoning(c.as_str()),
            None => strip_reasoning(""),
        };
        proof {
            reveal_strlit("");
            assert(""@ =~= Seq::<char>::empty());
        }
        if text.as_str().unicode_len() == 0 {
            None
        } else {
            Some(text)
        }
    }

    /// Whether there is a chain of thought and no answer.
    pub fn reasoning_only(&self) -> (r: bool)
        ensures
            r == (had_reasoning(opt_view(self.content), opt_view(self.reasoning_content))
                && answer_of(opt_view(self.content)) is None),
    {
        let apart = match &self.reasoning_content {
            Some(r) => !is_blank(r.as_str()),
            None => false,
        };
        let inline = match &self.content {
            Some(c) => has_reasoning(c.as_str()),
            None => false,
        };
        (apart || inline) && self.answer().is_none()
    }
}

/// The answer stands behind every chain of thought that ends: no end of one
/// stands in it, and it does not begin with one. A reply in which the last chain
/// of thought only begins has no answer.
pub proof fn answer_stands_behind_reasoning(content: Seq<char>)
    ensures
        answer_of(Some(content)) matches Some(a) ==> !contains_of(a, "</think>"@) && !starts_of(
            a,
            "<think>"@,
        ),
        starts_of(trim_start_of(behind_reasoning(content)), "<think>"@) ==> answer_of(
            Some(content),
        ) is None,
        answer_of(None) is None,
{
    reveal_strlit("</think>");
    reveal_strlit("<think>");
    let mark = "</think>"@;
    rfind_from_is_last(content, mark, content.len() - mark.len());
    let rest = behind_reasoning(content);
    if let Some(a) = answer_of(Some(content)) {
        if contains_of(a, mark) {
            trimmed_stands_within(rest, mark);
            let k = choose|k: int| occurs_at(rest, mark, k);
            match rfind_of(content, mark) {
                Some(i) => {
                    assert(content.subrange(i + 8 + k, i + 8 + k + 8) =~= rest.subrange(k, k + 8));
                    assert(occurs_at(content, mark, i + 8 + k));
                },
                None => {
                    assert(occurs_at(content, mark, k));
                },
            }
        }
        if starts_of(a, "<think>"@) {
            trimmed_end_is_prefix(trim_start_of(rest));
            assert(trim_start_of(rest).take(7) =~= a.take(7));
        }
    }
    let none = Seq::<char>::empty();
    rfind_from_is_last(none, mark, -8);
    assert(rfind_of(none, mark) is None);
    assert(trim_of(none) =~= none);
}

/// A text begins with itself without trailing white space.
proof fn trimmed_end_is_prefix(s: Seq<char>)
    ensures
        trim_end_of(s).len() <= s.len(),
        trim_end_of(s) == s.take(trim_end_of(s).len() as int),
    decreases s.len(),
{
    if s.len() > 0 && white(s.last()) {
        trimmed_end_is_prefix(s.drop_last());
        let n = trim_end_of(s).len() as int;
        assert(s.drop_last().take(n) =~= s.take(n));
    } else {
        assert(s.take(s.len() as int) =~= s);
    }
}

/// What stands in a trimmed text stands in the text.
proof fn trimmed_stands_within(s: Seq<char>, pat: Seq<char>)
    requires
        contains_of(trim_of(s), pat),
    ensures
        contains_of(s, pat),
{
    trimmed_is_part(s);
    let (a, b) = choose|a: int, b: int|
        #![trigger s.subrange(a, b)]
        0 <= a <= b <= s.len() && trim_of(s) == s.subrange(a, b);
    let k = choose|k: int| occurs_at(trim_of(s), pat, k);
    assert(s.subrange(a + k, a + k + pat.len()) =~= trim_of(s).subrange(k, k + pat.len()));
    assert(occurs_at(s, pat, a + k));
}

/// Why there is no answer.
#[derive(Debug, Clone, Copy, PartialEq, Eq, Structural)]
pub enum LlmError {
    /// No key is configured.
    NoApiKey,
    /// The reply holds no message.
    NoChoices,
    /// The message holds a chain of thought and no answer.
    ReasoningOnly,
    /// The message holds nothing.
    Empty,
}

impl LlmError {
    /// What the error says.
    pub fn message(self) -> (r: &'static str)
        ensures
            r@ == (match self {
                LlmError::NoApiKey =>
                    "LLM API key is not set — configure `llm.api_key` or LLM_API_KEY"@,
                LlmError::NoChoices => "LLM returned no choices"@,
                LlmError::ReasoningOnly =>
                    "the LLM returned reasoning but no answer — retry, or set LLM_THINKING=disabled to stop it emitting a chain-of-thought"@,
                LlmError::Empty => "the LLM returned an empty message"@,
            }),
    {
        match self {
            LlmError::NoApiKey => "LLM API key is not set — configure `llm.api_key` or LLM_API_KEY",
            LlmError::NoChoices => "LLM returned no choices",
            LlmError::ReasoningOnly =>
                "the LLM returned reasoning but no answer — retry, or set LLM_THINKING=disabled to stop it emitting a chain-of-thought",
            LlmError::Empty => "the LLM returned an empty message",
        }
    }
}

/// The answer in the first of the messages of a reply.
pub fn read_reply(messages: &[Message]) -> (r: Result<String, LlmError>)
    ensures
        match r {
            Ok(a) => messages@.len() > 0 && answer_of(opt_view(messages@[0].content)) == Some(a@),
            Err(LlmError::NoChoices) => messages@.len() == 0,
            Err(LlmError::ReasoningOnly) => messages@.len() > 0 && answer_of(
                opt_view(messages@[0].content),
            ) is None && had_reasoning(
                opt_view(messages@[0].content),
                opt_view(messages@[0].reasoning_content),
            ),
            Err(LlmError::Empty) => messages@.len() > 0 && answer_of(
                opt_view(messages@[0].content),
            ) is None && !had_reasoning(
                opt_view(messages@[0].content),
                opt_view(messages@[0].reasoning_content),
            ),
            Err(LlmError::NoApiKey) => false,
        },
{
    if messages.len() == 0 {
        return Err(LlmError::NoChoices);
    }
    let message = &messages[0];
    match message.answer() {
        Some(a) => Ok(a),
        None => if message.reasoning_only() {
            Err(LlmError::ReasoningOnly)
        } else {
            Err(LlmError::Empty)
        },
    }
}

// ---------------------------------------------------------------------------
// Requests
// ---------------------------------------------------------------------------

/// The name of a model without that of its provider: what stands behind the
/// last slash.
pub open spec fn bare_model_of(model: Seq<char>) -> Seq<char> {
    match rfind_of(model, "/"@) {
        Some(i) => model.skip(i + 1),
        None => model,
    }
}

/// The name of a model without that of its provider.
pub fn bare_model(model: &str) -> (r: String)
    ensures
        r@ == bare_model_of(model@),
{
    let chars = chars_of(model);
    let slash = chars_of("/");
    let n: usize = chars.len();
    proof {
        reveal_strlit("/");
    }
    match rfind_chars(&chars, &slash) {
        Some(i) => {
            let tail = string_of(&chars, i + 1, n);
            assert(tail@ =~= model@.skip(i + 1));
            tail
        },
        None => owned(model),
    }
}

/// How a model is reached.
#[derive(Debug)]
pub struct LlmClient {
    base_url: String,
    model: String,
    api_key: String,
    extra_args: Doc,
    disable_thinking: bool,
}

/// What an [`LlmClient`] holds.
pub struct Access {
    pub base_url: Seq<char>,
    pub model: Seq<char>,
    pub api_key: Seq<char>,
    pub extra_args: Json,
    pub disable_thinking: bool,
}

/// A message of the conversation.
pub open spec fn turn(role: Seq<char>, content: Seq<char>) -> Json {
    Json::Object(seq![("role"@, Json::Text(role)), ("content"@, Json::Text(content))])
}

/// The fields with those of `extra` set, one after the other.
pub open spec fn overlaid(
    fields: Seq<(Seq<char>, Json)>,
    extra: Seq<(Seq<char>, Json)>,
) -> Seq<(Seq<char>, Json)>
    decreases extra.len(),
{
    if extra.len() == 0 {
        fields
    } else {
        with_field(overlaid(fields, extra.drop_last()), extra.last().0, extra.last().1)
    }
}

/// What is sent to the model.
pub open spec fn request_of(a: Access, system: Seq<char>, user: Seq<char>) -> Json {
    let plain = seq![
        ("model"@, Json::Text(bare_model_of(a.model))),
        ("messages"@, Json::List(seq![turn("system"@, system), turn("user"@, user)])),
        ("temperature"@, zero_json()),
    ];
    let extended = match a.extra_args {
        Json::Object(extra) => overlaid(plain, extra),
        _ => plain,
    };
    Json::Object(
        if a.disable_thinking {
            with_field(
                extended,
                "thinking"@,
                Json::Object(seq![("type"@, Json::Text("disabled"@))]),
            )
        } else {
            extended
        },
    )
}

proof fn overlay_keeps_unambiguous(
    fields: Seq<(Seq<char>, Json)>,
    extra: Seq<(Seq<char>, Json)>,
)
    requires
        unambiguous(Json::Object(fields)),
        forall|i: int| 0 <= i < extra.len() ==> unambiguous((#[trigger] extra[i]).1),
    ensures
        unambiguous(Json::Object(overlaid(fields, extra))),
    decreases extra.len(),
{
    if extra.len() > 0 {
        let head = extra.drop_last();
        assert forall|i: int| 0 <= i < head.len() implies unambiguous((#[trigger] head[i]).1) by {
            assert(head[i] == extra[i]);
        }
        overlay_keeps_unambiguous(fields, head);
        assert(unambiguous(extra[extra.len() - 1].1));
        field_set_keeps_unambiguous(overlaid(fields, head), extra.last().0, extra.last().1);
    }
}

proof fn turn_is_unambiguous(role: Seq<char>, content: Seq<char>)
    ensures
        unambiguous(turn(role, content)),
{
    reveal_strlit("role");
    reveal_strlit("content");
    let fields = seq![("role"@, Json::Text(role)), ("content"@, Json::Text(content))];
    assert(distinct_keys(fields)) by {
        assert("role"@.len() == 4 && "content"@.len() == 7);
    }
    assert forall|i: int| 0 <= i < fields.len() implies unambiguous((#[trigger] fields[i]).1) by {
        assert(fields[i].1 is Text);
    }
    unambiguous_object(fields);
}

/// No object in a request has a key twice, unless one among the extra arguments
/// has.
proof fn request_is_unambiguous(a: Access, system: Seq<char>, user: Seq<char>)
    requires
        unambiguous(a.extra_args),
    ensures
        unambiguous(request_of(a, system, user)),
{
    reveal_strlit("model");
    reveal_strlit("messages");
    reveal_strlit("temperature");
    let first = turn("system"@, system);
    let second = turn("user"@, user);
    turn_is_unambiguous("system"@, system);
    turn_is_unambiguous("user"@, user);
    let turns = Json::List(seq![first, second]);
    assert(unambiguous(turns)) by {
        assert forall|i: int| 0 <= i < turns->List_0.len() implies unambiguous(
            #[trigger] turns->List_0[i],
        ) by {
            assert(turns->List_0[i] == first || turns->List_0[i] == second);
        }
    }
    let plain = seq![
        ("model"@, Json::Text(bare_model_of(a.model))),
        ("messages"@, turns),
        ("temperature"@, zero_json()),
    ];
    assert(distinct_keys(plain)) by {
        assert("model"@.len() == 5 && "messages"@.len() == 8 && "temperature"@.len() == 11);
    }
    assert forall|i: int| 0 <= i < plain.len() implies unambiguous((#[trigger] plain[i]).1) by {
        assert(plain[i] == plain[0] || plain[i] == plain[1] || plain[i] == plain[2]);
    }
    unambiguous_object(plain);
    let off = seq![("type"@, Json::Text("disabled"@))];
    unambiguous_object(off);
    let extended = match a.extra_args {
        Json::Object(extra) => overlaid(plain, extra),
        _ => plain,
    };
    match a.extra_args {
        Json::Object(extra) => {
            unambiguous_object(extra);
            overlay_keeps_unambiguous(plain, extra);
        },
        _ => {},
    }
    field_set_keeps_unambiguous(extended, "thinking"@, Json::Object(off));
}

/// A message of the conversation.
fn turn_doc(role: &str, content: &str) -> (r: Doc)
    ensures
        r@ == turn(role@, content@),
{
    broadcast use doc_view_parts;

    let mut fields: Fields = Vec::new();
    put(&mut fields, "role", Doc::Text(owned(role)));
    put(&mut fields, "content", Doc::Text(owned(content)));
    assert(field_views(fields@) =~= seq![
        ("role"@, Json::Text(role@)),
        ("content"@, Json::Text(content@)),
    ]);
    Doc::Object(fields)
}

impl LlmClient {
    pub closed spec fn view(&self) -> Access {
        Access {
            base_url: self.base_url@,
            model: self.model@,
            api_key: self.api_key@,
            extra_args: self.extra_args@,
            disable_thinking: self.disable_thinking,
        }
    }

    /// The access that settings give; the key must not be blank.
    pub fn from_settings(s: &LlmSettings) -> (r: Result<LlmClient, LlmError>)
        ensures
            match r {
                Ok(c) => !blank(s.api_key@) && c@ == (Access {
                    base_url: trim_suffixes(s.endpoint@, "/"@),
                    model: s.model@,
                    api_key: trim_of(s.api_key@),
                    extra_args: s.args@,
                    disable_thinking: s.disable_thinking,
                }),
                Err(e) => e is NoApiKey && blank(s.api_key@),
            },
    {
        if is_blank(s.api_key.as_str()) {
            return Err(LlmError::NoApiKey);
        }
        Ok(
            LlmClient::with_extra_args(
                owned(s.endpoint.as_str()),
                owned(s.model.as_str()),
                trim(s.api_key.as_str()),
                copy_doc(&s.args),
                s.disable_thinking,
            ),
        )
    }

    /// Access to a model, without extra fields.
    pub fn new(base_url: String, model: String, api_key: String) -> (r: LlmClient)
        ensures
            r@ == (Access {
                base_url: trim_suffixes(base_url@, "/"@),
                model: model@,
                api_key: api_key@,
                extra_args: Json::Object(Seq::empty()),
                disable_thinking: false,
            }),
    {
        broadcast use doc_view_parts;

        let none: Fields = Vec::new();
        assert(field_views(none@) =~= Seq::empty());
        LlmClient::with_extra_args(base_url, model, api_key, Doc::Object(none), false)
    }

    /// Access to a model; slashes at the end of the address are dropped.
    pub fn with_extra_args(
        base_url: String,
        model: String,
        api_key: String,
        extra_args: Doc,
        disable_thinking: bool,
    ) -> (r: LlmClient)
        ensures
            r@ == (Access {
                base_url: trim_suffixes(base_url@, "/"@),
                model: model@,
                api_key: api_key@,
                extra_args: extra_args@,
                disable_thinking,
            }),
    {
        LlmClient {
            base_url: trim_end_matches(base_url.as_str(), "/"),
            model,
            api_key,
            extra_args,
            disable_thinking,
        }
    }

    /// The name that the model is called by in requests.
    pub fn model(&self) -> (r: String)
        ensures
            r@ == bare_model_of(self@.model),
    {
        bare_model(self.model.as_str())
    }

    /// The key that requests carry.
    pub fn api_key(&self) -> (r: String)
        ensures
            r@ == self@.api_key,
    {
        owned(self.api_key.as_str())
    }

    /// Where requests go.
    pub fn completions_url(&self) -> (r: String)
        ensures
            r@ == self@.base_url + "/chat/completions"@,
    {
        concat2(self.base_url.as_str(), "/chat/completions")
    }

    /// What is sent to the model.
    pub fn request(&self, system: &str, user: &str) -> (r: Doc)
        ensures
            r@ == request_of(self@, system@, user@),
            unambiguous(self@.extra_args) ==> unambiguous(r@),
    {
        broadcast use doc_view_parts;

        proof {
            if unambiguous(self@.extra_args) {
                request_is_unambiguous(self@, system@, user@);
            }
        }

        let mut turns: Vec<Doc> = Vec::new();
        turns.push(turn_doc("system", system));
        turns.push(turn_doc("user", user));
        assert(doc_views(turns@) =~= seq![turn("system"@, system@), turn("user"@, user@)]);
        let mut fields: Fields = Vec::new();
        put(&mut fields, "model", Doc::Text(self.model()));
        put(&mut fields, "messages", Doc::List(turns));
        put(&mut fields, "temperature", zero());
        let ghost plain = seq![
            ("model"@, Json::Text(bare_model_of(self@.model))),
            ("messages"@, Json::List(seq![turn("system"@, system@), turn("user"@, user@)])),
            ("temperature"@, zero_json()),
        ];
        assert(field_views(fields@) =~= plain);
        match &self.extra_args {
            Doc::Object(extra) => {
                let ghost all = field_views(extra@);
                let mut i: usize = 0;
                assert(overlaid(plain, all.take(0)) == plain);
                while i < extra.len()
                    invariant
                        i <= extra@.len(),
                        all == field_views(extra@),
                        field_views(fields@) == overlaid(plain, all.take(i as int)),
                    decreases extra@.len() - i,
                {
                    assert(all.take(i + 1).drop_last() =~= all.take(i as int));
                    set_field(&mut fields, extra[i].0.as_str(), copy_doc(&extra[i].1));
                    i += 1;
                }
                assert(all.take(all.len() as int) =~= all);
            },
            _ => {},
        }
        if self.disable_thinking {
            let mut off: Fields = Vec::new();
            put(&mut off, "type", Doc::Text(owned("disabled")));
            assert(field_views(off@) =~= seq![("type"@, Json::Text("disabled"@))]);
            set_field(&mut fields, "thinking", Doc::Object(off));
        }
        Doc::Object(fields)
    }
}

} // verus!
