use reflect_mem::config::{
    data_root, databases_dir, graph_db_path, lancedb_path, relational_db_path, session_db_path,
    text_dir,
};
use reflect_mem::json::{doc_text, parse_doc};
use reflect_mem::settings::{
    env_opt, init, join_path, resolve_config_path, thinking_disabled, transport_of, with_flags,
    Env, FileConfig, FileEmbedding, FileLlm, FileMcp, Settings, SettingsError, Transport,
    DEFAULT_EMBEDDING_DIMENSIONS, DEFAULT_LLM_ENDPOINT, DEFAULT_MCP_BIND,
};

fn env(vars: &[(&str, &str)]) -> Env {
    Env {
        vars: vars
            .iter()
            .map(|v| (v.0.to_string(), v.1.to_string()))
            .collect(),
    }
}

fn text(table: &toml::Table, section: &str, key: &str) -> Option<String> {
    table
        .get(section)
        .and_then(|s| s.get(key))
        .and_then(|v| v.as_str())
        .map(str::to_string)
}

/// A configuration file, read field by field.
fn file(source: &str) -> FileConfig {
    let table: toml::Table = toml::from_str(source).unwrap();
    FileConfig {
        data_root: table
            .get("data_root")
            .and_then(|v| v.as_str())
            .map(str::to_string),
        llm: FileLlm {
            endpoint: text(&table, "llm", "endpoint"),
            model: text(&table, "llm", "model"),
            api_key: text(&table, "llm", "api_key"),
            thinking: text(&table, "llm", "thinking"),
            args: None,
        },
        embedding: FileEmbedding {
            endpoint: text(&table, "embedding", "endpoint"),
            model: text(&table, "embedding", "model"),
            dimensions: table
                .get("embedding")
                .and_then(|s| s.get("dimensions"))
                .and_then(|v| v.as_integer())
                .map(|n| n as usize),
            api_key: text(&table, "embedding", "api_key"),
            headers: Vec::new(),
        },
        mcp: FileMcp {
            transport: text(&table, "mcp", "transport"),
            bind: text(&table, "mcp", "bind"),
            token: text(&table, "mcp", "token"),
        },
    }
}

#[test]
fn thinking_flag_parses_off_values() {
    for v in ["disabled", "off", "false", "0", "none", "  DISABLED "] {
        assert!(thinking_disabled(v), "{v} should disable thinking");
    }
}

#[test]
fn thinking_flag_keeps_default_on() {
    for v in ["", "adaptive", "on", "true", "enabled", "garbage"] {
        assert!(!thinking_disabled(v), "{v:?} should keep thinking on");
    }
}

#[test]
fn parses_a_full_toml_config() {
    let source = r#"
        data_root = "/tmp/rm-test"
        [llm]
        endpoint = "http://llm.test/v1"
        model = "MiniMax-M3"
        api_key = "sk-test"
        thinking = "disabled"
        [embedding]
        dimensions = 768
        [mcp]
        transport = "streamable-http"
        bind = "0.0.0.0:9999"
        token = "s3cret"
    "#;
    let s = Settings::merge(file(source), &env(&[])).unwrap();
    assert_eq!(s.data_root, "/tmp/rm-test");
    assert_eq!(s.llm.endpoint, "http://llm.test/v1");
    assert_eq!(s.llm.model, "MiniMax-M3");
    assert!(s.llm.disable_thinking);
    assert_eq!(s.embedding.dimensions, 768);
    assert_eq!(s.mcp.transport, "streamable-http");
    assert_eq!(s.mcp.bind, "0.0.0.0:9999");
    assert_eq!(s.mcp.token.as_deref(), Some("s3cret"));
}

#[test]
fn partial_config_falls_back_to_defaults() {
    let s = Settings::merge(file("[llm]\nmodel = \"MiniMax-M3\"\n"), &env(&[])).unwrap();
    assert_eq!(s.llm.model, "MiniMax-M3");
    assert_eq!(s.llm.endpoint, DEFAULT_LLM_ENDPOINT);
    assert_eq!(s.embedding.dimensions, DEFAULT_EMBEDDING_DIMENSIONS);
    assert_eq!(s.mcp.transport, "stdio");
}

#[test]
fn the_environment_overrides_the_file() {
    let e = env(&[
        ("DATA_ROOT", "/e"),
        ("LLM_MODEL", "from-env"),
        ("LLM_THINKING", "on"),
        ("LLM_ARGS", "{\"a\":1}"),
        ("EMBEDDING_DIMENSIONS", "12"),
        ("EMBEDDING_API_KEY", "ek"),
        ("MCP_TOKEN", "  "),
    ]);
    let source = "data_root = \"/f\"\n[llm]\nmodel = \"m\"\nthinking = \"off\"\n[mcp]\ntoken = \"t\"\n";
    let s = Settings::merge(file(source), &e).unwrap();
    assert_eq!(s.data_root, "/e");
    assert_eq!(s.llm.model, "from-env");
    assert!(!s.llm.disable_thinking);
    assert_eq!(doc_text(&s.llm.args), "{\"a\":1}");
    assert_eq!(s.embedding.dimensions, 12);
    assert_eq!(s.embedding.api_key.as_deref(), Some("ek"));
    assert_eq!(s.mcp.token.as_deref(), Some("t"));
}

#[test]
fn bad_values_in_the_environment_are_refused() {
    let bad = Settings::merge(FileConfig::default(), &env(&[("LLM_ARGS", "{")]));
    assert_eq!(bad.unwrap_err(), SettingsError::LlmArgs);
    let bad = Settings::merge(FileConfig::default(), &env(&[("EMBEDDING_DIMENSIONS", "ten")]));
    assert_eq!(bad.unwrap_err(), SettingsError::Dimensions);
    assert_eq!(
        SettingsError::Dimensions.message(),
        "EMBEDDING_DIMENSIONS must be a number"
    );
}

#[test]
fn without_file_and_environment_the_defaults_hold() {
    let e = env(&[("HOME", "/home/u")]);
    let s = Settings::merge(FileConfig::default(), &e).unwrap();
    let b = Settings::builtin(&e);
    assert_eq!(s.data_root, "/home/u/.agents/reflect-mem");
    assert_eq!(s.data_root, b.data_root);
    assert_eq!(s.llm.endpoint, b.llm.endpoint);
    assert_eq!(s.llm.api_key, "");
    assert_eq!(s.llm.args, parse_doc("{}").unwrap());
    assert_eq!(s.embedding.model, b.embedding.model);
    assert_eq!(s.mcp.bind, "127.0.0.1:8080");
}

#[test]
fn the_configuration_file_is_looked_for_in_turn() {
    assert_eq!(resolve_config_path(Some("/x"), &env(&[("REFLECT_MEM_CONFIG", "/y")])), "/x");
    assert_eq!(resolve_config_path(None, &env(&[("REFLECT_MEM_CONFIG", "/y")])), "/y");
    assert_eq!(resolve_config_path(None, &env(&[("DATA_ROOT", "/d")])), "/d/config.toml");
    assert_eq!(
        resolve_config_path(None, &env(&[])),
        "./.agents/reflect-mem/config.toml"
    );
}

#[test]
fn blank_variables_count_as_unset() {
    let e = env(&[("A", " "), ("B", "b")]);
    assert_eq!(env_opt(&e, "A"), None);
    assert_eq!(env_opt(&e, "B").as_deref(), Some("b"));
    assert_eq!(env_opt(&e, "C"), None);
}

#[test]
fn paths_are_joined_as_the_standard_library_joins_them() {
    for (base, below) in [("/a", "b"), ("/a/", "b"), ("", "b"), ("/a", "/b"), ("a", "")] {
        let expected = std::path::Path::new(base).join(below);
        assert_eq!(join_path(base, below), expected.to_str().unwrap(), "{base:?} {below:?}");
    }
}

#[test]
fn everything_is_kept_below_the_data_root() {
    let s = Settings::builtin(&env(&[("HOME", "/h")]));
    assert_eq!(data_root(&s), "/h/.agents/reflect-mem");
    let dir = "/h/.agents/reflect-mem/system/databases";
    assert_eq!(databases_dir(&s), dir);
    assert_eq!(graph_db_path(&s), format!("{dir}/reflect-mem.graph.sqlite"));
    assert_eq!(relational_db_path(&s), format!("{dir}/reflect-mem.sqlite"));
    assert_eq!(lancedb_path(&s), format!("{dir}/reflect-mem.lancedb"));
    assert_eq!(session_db_path(&s), format!("{dir}/reflect-mem.session.sqlite"));
    assert_eq!(text_dir(&s), "/h/.agents/reflect-mem/data");
}

#[test]
fn settings_are_installed_once() {
    let mut slot = None;
    init(&mut slot, Settings::builtin(&env(&[("HOME", "/first")])));
    init(&mut slot, Settings::builtin(&env(&[("HOME", "/second")])));
    assert_eq!(slot.unwrap().data_root, "/first/.agents/reflect-mem");
}

#[test]
fn the_command_line_comes_first() {
    let vars = env(&[("MCP_TRANSPORT", "streamable-http"), ("MCP_TOKEN", "t1")]);
    let s = Settings::merge(file(""), &vars).unwrap();
    let mcp = with_flags(s.mcp, Some("stdio".into()), None, Some("t2".into()));
    assert_eq!(mcp.transport, "stdio");
    assert_eq!(mcp.bind, DEFAULT_MCP_BIND);
    assert_eq!(mcp.token.as_deref(), Some("t2"));
    let kept = with_flags(mcp, None, Some("0.0.0.0:1".into()), None);
    assert_eq!(kept.transport, "stdio");
    assert_eq!(kept.bind, "0.0.0.0:1");
    assert_eq!(kept.token.as_deref(), Some("t2"));
}

#[test]
fn transports_are_known_by_name() {
    assert_eq!(transport_of("stdio"), Some(Transport::Stdio));
    assert_eq!(transport_of("streamable-http"), Some(Transport::StreamableHttp));
    assert_eq!(transport_of("sse"), None);
    assert_eq!(transport_of("STDIO"), None);
}
