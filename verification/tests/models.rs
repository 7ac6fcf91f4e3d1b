use reflect_mem::embed::{
    check_vectors, read_vectors, rewrite_endpoint_for_host, EmbedData, EmbedError, EmbedResponse,
    EmbeddingClient,
};
use reflect_mem::json::{doc_text, parse_doc, Doc};
use reflect_mem::llm::{
    bare_model, has_reasoning, read_reply, strip_reasoning, LlmClient, LlmError, Message,
};
use reflect_mem::settings::{EmbeddingSettings, LlmSettings};

fn message(content: Option<&str>, reasoning: Option<&str>) -> Message {
    Message {
        content: content.map(str::to_string),
        reasoning_content: reasoning.map(str::to_string),
    }
}

// ---------------------------------------------------------------------------
// The language model
// ---------------------------------------------------------------------------

#[test]
fn strips_inline_chain_of_thought() {
    let raw = "先想一下...\n</think>\n\n最终答案是这样。";
    assert_eq!(strip_reasoning(raw), "最终答案是这样。");
}

#[test]
fn keeps_plain_answers_untouched() {
    assert_eq!(strip_reasoning("  直接答案  "), "直接答案");
}

#[test]
fn reasoning_only_yields_no_answer() {
    assert_eq!(strip_reasoning("思考中</think>"), "");
    assert_eq!(strip_reasoning("<think>思考到一半被截断"), "");

    let m = Message {
        content: Some("<think>thinking</think>".into()),
        reasoning_content: None,
    };
    assert_eq!(m.answer(), None);
    assert!(m.reasoning_only());
}

#[test]
fn separate_reasoning_field_is_never_the_answer() {
    let m = Message {
        content: Some(String::new()),
        reasoning_content: Some("only thinking here".into()),
    };
    assert_eq!(m.answer(), None);
    assert!(m.reasoning_only());
}

#[test]
fn an_answer_is_preferred_over_separate_reasoning() {
    let m = Message {
        content: Some("the answer".into()),
        reasoning_content: Some("the thinking".into()),
    };
    assert_eq!(m.answer().as_deref(), Some("the answer"));
    assert!(!m.reasoning_only());
}

#[test]
fn strips_provider_prefix() {
    assert_eq!(
        bare_model("openai/MiniMax-M2.7-highspeed"),
        "MiniMax-M2.7-highspeed"
    );
    assert_eq!(
        bare_model("MiniMax-M2.7-highspeed"),
        "MiniMax-M2.7-highspeed"
    );
    assert_eq!(bare_model("openai/qwen3:14b"), "qwen3:14b");
}

#[test]
fn completions_url_has_no_double_slash() {
    let c = LlmClient::new(
        "https://api.minimaxi.com/v1/".into(),
        "m".into(),
        "k".into(),
    );
    assert_eq!(
        c.completions_url(),
        "https://api.minimaxi.com/v1/chat/completions"
    );
}

#[test]
fn the_last_end_of_reasoning_counts() {
    assert_eq!(strip_reasoning("a</think>b</think> c "), "c");
    assert_eq!(strip_reasoning("first</think><think>second cut off"), "");
    assert_eq!(strip_reasoning("first</think> \n <think>second"), "");
    assert!(!strip_reasoning("x</think> y </think> z").contains("</think>"));
    assert!(has_reasoning("a <think> b"));
    assert!(!has_reasoning("a think b"));
}

#[test]
fn a_reply_gives_its_answer_or_says_why_not() {
    assert_eq!(read_reply(&[]), Err(LlmError::NoChoices));
    assert_eq!(
        read_reply(&[message(Some("<think>x"), None)]),
        Err(LlmError::ReasoningOnly)
    );
    assert_eq!(
        read_reply(&[message(Some("  "), None)]),
        Err(LlmError::Empty)
    );
    assert_eq!(read_reply(&[message(None, Some(" "))]), Err(LlmError::Empty));
    assert_eq!(
        read_reply(&[message(Some(" yes "), None), message(Some("no"), None)]),
        Ok("yes".to_string())
    );
    assert_eq!(LlmError::NoChoices.message(), "LLM returned no choices");
}

fn llm_settings(key: &str) -> LlmSettings {
    LlmSettings {
        endpoint: "http://h/v1//".into(),
        model: "openai/m".into(),
        api_key: key.into(),
        args: parse_doc("{\"reasoning_split\":true,\"temperature\":1}").unwrap(),
        disable_thinking: true,
    }
}

#[test]
fn a_request_carries_the_extra_fields_and_no_thinking() {
    let c = LlmClient::from_settings(&llm_settings(" key ")).unwrap();
    assert_eq!(c.api_key(), "key");
    assert_eq!(c.model(), "m");
    assert_eq!(c.completions_url(), "http://h/v1/chat/completions");
    assert_eq!(
        doc_text(&c.request("sys", "usr")),
        "{\"model\":\"m\",\"messages\":[{\"role\":\"system\",\"content\":\"sys\"},\
         {\"role\":\"user\",\"content\":\"usr\"}],\"temperature\":1,\"reasoning_split\":true,\
         \"thinking\":{\"type\":\"disabled\"}}"
    );
}

#[test]
fn a_plain_request_has_no_extra_fields() {
    let c = LlmClient::new("http://h".into(), "m".into(), "k".into());
    assert_eq!(
        doc_text(&c.request("s", "u")),
        "{\"model\":\"m\",\"messages\":[{\"role\":\"system\",\"content\":\"s\"},\
         {\"role\":\"user\",\"content\":\"u\"}],\"temperature\":0.0}"
    );
}

#[test]
fn a_blank_key_is_refused() {
    assert!(matches!(
        LlmClient::from_settings(&llm_settings("  ")),
        Err(LlmError::NoApiKey)
    ));
}

// ---------------------------------------------------------------------------
// Embeddings
// ---------------------------------------------------------------------------

/// A reply as the services spell it, read field by field.
fn reply(text: &str) -> EmbedResponse<f64> {
    let value: serde_json::Value = serde_json::from_str(text).unwrap();
    let vector = |v: &serde_json::Value| -> Vec<f64> {
        v.as_array()
            .unwrap()
            .iter()
            .map(|x| x.as_f64().unwrap())
            .collect()
    };
    EmbedResponse {
        embeddings: value
            .get("embeddings")
            .and_then(|v| v.as_array())
            .map(|list| list.iter().map(vector).collect()),
        data: value.get("data").and_then(|v| v.as_array()).map(|list| {
            list.iter()
                .map(|d| EmbedData {
                    embedding: vector(&d["embedding"]),
                    index: d["index"].as_u64().map(|n| n as usize),
                })
                .collect()
        }),
    }
}

#[test]
fn rewrites_docker_hostname_for_host_runs() {
    let raw = "http://host.docker.internal:11434/api/embed";
    assert_eq!(
        rewrite_endpoint_for_host(raw, false),
        "http://localhost:11434/api/embed"
    );
}

#[test]
fn keeps_docker_hostname_inside_docker() {
    let raw = "http://host.docker.internal:11434/api/embed";
    assert_eq!(rewrite_endpoint_for_host(raw, true), raw);
}

#[test]
fn leaves_other_hosts_untouched() {
    let raw = "http://127.0.0.1:11434/api/embed";
    assert_eq!(rewrite_endpoint_for_host(raw, false), raw);
}

#[test]
fn parses_ollama_response() {
    let r = reply(r#"{"embeddings":[[1.0,2.0],[3.0,4.0]]}"#);
    assert_eq!(r.into_vectors(), vec![vec![1.0, 2.0], vec![3.0, 4.0]]);
}

#[test]
fn parses_openai_response_and_restores_order() {
    let r = reply(
        r#"{"data":[{"index":1,"embedding":[3.0,4.0]},{"index":0,"embedding":[1.0,2.0]}]}"#,
    );
    assert_eq!(r.into_vectors(), vec![vec![1.0, 2.0], vec![3.0, 4.0]]);
}

#[test]
fn unknown_response_shape_yields_no_vectors() {
    let r = reply(r#"{"ok":true}"#);
    assert!(r.into_vectors().is_empty());
}

#[test]
fn vectors_without_positions_stay_as_they_came() {
    let r = reply(r#"{"data":[{"index":1,"embedding":[3.0]},{"embedding":[1.0]}]}"#);
    assert_eq!(r.into_vectors(), vec![vec![3.0], vec![1.0]]);
}

#[test]
fn vectors_with_the_same_position_keep_their_order() {
    let r = reply(
        r#"{"data":[{"index":2,"embedding":[9.0]},{"index":1,"embedding":[1.0]},
            {"index":1,"embedding":[2.0]},{"index":0,"embedding":[0.0]}]}"#,
    );
    assert_eq!(
        r.into_vectors(),
        vec![vec![0.0], vec![1.0], vec![2.0], vec![9.0]]
    );
}

#[test]
fn vectors_are_checked_against_what_was_asked() {
    assert_eq!(
        check_vectors(vec![vec![1u8]], 2, 1),
        Err(EmbedError::Count { asked: 2, got: 1 })
    );
    assert_eq!(
        check_vectors(vec![vec![1u8], vec![1, 2, 3]], 2, 1),
        Err(EmbedError::Dimensions { got: 3, expected: 1 })
    );
    assert_eq!(
        read_vectors(reply(r#"{"embeddings":[[1.0,2.0]]}"#), 1, 2),
        Ok(vec![vec![1.0, 2.0]])
    );
}

#[test]
fn an_embedding_request_names_the_model_and_the_texts() {
    let c = EmbeddingClient::from_settings(
        &EmbeddingSettings {
            endpoint: "http://host.docker.internal/e".into(),
            model: "m".into(),
            dimensions: 3,
            api_key: Some("  ".into()),
            headers: vec![("x".into(), "y".into())],
        },
        false,
    );
    assert_eq!(c.endpoint(), "http://localhost/e");
    assert_eq!(c.api_key(), None);
    assert_eq!(c.dimensions(), 3);
    assert_eq!(c.headers(), vec![("x".to_string(), "y".to_string())]);
    assert_eq!(
        doc_text(&c.request(&["a".into(), "b".into()])),
        "{\"model\":\"m\",\"input\":[\"a\",\"b\"]}"
    );
    let plain = EmbeddingClient::new("http://h".into(), "n".into(), 1);
    assert_eq!(plain.model(), "n");
    assert_eq!(plain.api_key(), None);
    assert_eq!(plain.request(&[]).get_str("model"), Some("n"));
    assert!(matches!(plain.request(&[]).get("input"), Some(Doc::List(_))));
}
