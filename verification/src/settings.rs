//! Runtime settings.
//!
//! They come from the command line, then from environment variables, then from a
//! configuration file, then from built-in defaults, whichever says something
//! first.

use vstd::prelude::*;
use vstd::string::*;

use crate::json::{
    doc_view_parts, field_views, parse_doc, parsed_json, unambiguous, Doc, Fields, Json,
};
use crate::number::{parse_unsigned, parse_usize};
use crate::text::{
    ascii_lower, blank, concat3, is_blank, opt_view, owned, same, to_ascii_lower, trim, trim_of,
};

verus! {

pub const DEFAULT_DATA_ROOT_DIR: &'static str = ".agents/reflect-mem";

pub const DEFAULT_LLM_ENDPOINT: &'static str = "https://api.minimaxi.com/v1";

pub const DEFAULT_LLM_MODEL: &'static str = "MiniMax-M2.7-highspeed";

pub const DEFAULT_EMBEDDING_ENDPOINT: &'static str = "http://localhost:11434/api/embed";

pub const DEFAULT_EMBEDDING_MODEL: &'static str = "qwen3-embedding:0.6b";

pub const DEFAULT_EMBEDDING_DIMENSIONS: usize = 1024;

pub const DEFAULT_MCP_TRANSPORT: &'static str = "stdio";

pub const DEFAULT_MCP_BIND: &'static str = "127.0.0.1:8080";

// ---------------------------------------------------------------------------
// Settings
// ---------------------------------------------------------------------------

/// All settings, resolved.
#[derive(Debug)]
pub struct Settings {
    pub data_root: String,
    pub llm: LlmSettings,
    pub embedding: EmbeddingSettings,
    pub mcp: McpSettings,
}

#[derive(Debug)]
pub struct LlmSettings {
    pub endpoint: String,
    pub model: String,
    pub api_key: String,
    /// Extra fields of each request.
    pub args: Doc,
    /// Whether the model is asked to answer without a chain of thought.
    pub disable_thinking: bool,
}

#[derive(Debug)]
pub struct EmbeddingSettings {
    pub endpoint: String,
    pub model: String,
    pub dimensions: usize,
    /// Sent as a bearer token.
    pub api_key: Option<String>,
    /// Extra headers of each request.
    pub headers: Vec<(String, String)>,
}

#[derive(Debug)]
pub struct McpSettings {
    pub transport: String,
    pub bind: String,
    /// The bearer token that requests must carry.
    pub token: Option<String>,
}

/// What a configuration file says; everything is optional.
#[derive(Debug)]
pub struct FileConfig {
    pub data_root: Option<String>,
    pub llm: FileLlm,
    pub embedding: FileEmbedding,
    pub mcp: FileMcp,
}

#[derive(Debug)]
pub struct FileLlm {
    pub endpoint: Option<String>,
    pub model: Option<String>,
    pub api_key: Option<String>,
    pub thinking: Option<String>,
    pub args: Option<Doc>,
}

#[derive(Debug)]
pub struct FileEmbedding {
    pub endpoint: Option<String>,
    pub model: Option<String>,
    pub dimensions: Option<usize>,
    pub api_key: Option<String>,
    pub headers: Vec<(String, String)>,
}

#[derive(Debug)]
pub struct FileMcp {
    pub transport: Option<String>,
    pub bind: Option<String>,
    pub token: Option<String>,
}

impl Default for FileConfig {
    fn default() -> (r: FileConfig)
        ensures
            r.data_root is None,
            r.llm.endpoint is None,
            r.llm.model is None,
            r.llm.api_key is None,
            r.llm.thinking is None,
            r.llm.args is None,
            r.embedding.endpoint is None,
            r.embedding.model is None,
            r.embedding.dimensions is None,
            r.embedding.api_key is None,
            r.embedding.headers@.len() == 0,
            r.mcp.transport is None,
            r.mcp.bind is None,
            r.mcp.token is None,
    {
        FileConfig {
            data_root: None,
            llm: FileLlm { endpoint: None, model: None, api_key: None, thinking: None, args: None },
            embedding: FileEmbedding {
                endpoint: None,
                model: None,
                dimensions: None,
                api_key: None,
                headers: Vec::new(),
            },
            mcp: FileMcp { transport: None, bind: None, token: None },
        }
    }
}

/// Why settings cannot be resolved.
#[derive(Debug, Clone, Copy, PartialEq, Eq, Structural)]
pub enum SettingsError {
    /// `LLM_ARGS` is not JSON.
    LlmArgs,
    /// `EMBEDDING_DIMENSIONS` is not a number.
    Dimensions,
}

impl SettingsError {
    /// What the error says.
    pub fn message(self) -> (r: &'static str)
        ensures
            r@ == (match self {
                SettingsError::LlmArgs => "LLM_ARGS must be a JSON object"@,
                SettingsError::Dimensions => "EMBEDDING_DIMENSIONS must be a number"@,
            }),
    {
        match self {
            SettingsError::LlmArgs => "LLM_ARGS must be a JSON object",
            SettingsError::Dimensions => "EMBEDDING_DIMENSIONS must be a number",
        }
    }
}

// ---------------------------------------------------------------------------
// The environment
// ---------------------------------------------------------------------------

/// Environment variables: names and values.
#[derive(Debug)]
pub struct Env {
    pub vars: Vec<(String, String)>,
}

/// The value of the first variable of that name.
pub open spec fn var_of(vars: Seq<(String, String)>, key: Seq<char>) -> Option<Seq<char>>
    decreases vars.len(),
{
    if vars.len() == 0 {
        None
    } else if vars[0].0@ == key {
        Some(vars[0].1@)
    } else {
        var_of(vars.skip(1), key)
    }
}

/// The value of a variable, if it is set and not blank.
pub open spec fn env_value(env: Env, key: Seq<char>) -> Option<Seq<char>> {
    match var_of(env.vars@, key) {
        Some(v) => if blank(v) {
            None
        } else {
            Some(v)
        },
        None => None,
    }
}

/// The value of a variable.
pub fn env_var(env: &Env, key: &str) -> (r: Option<String>)
    ensures
        opt_view(r) == var_of(env.vars@, key@),
{
    let mut i: usize = 0;
    assert(env.vars@.skip(0) =~= env.vars@);
    while i < env.vars.len()
        invariant
            i <= env.vars@.len(),
            var_of(env.vars@, key@) == var_of(env.vars@.skip(i as int), key@),
        decreases env.vars@.len() - i,
    {
        assert(env.vars@.skip(i as int).skip(1) =~= env.vars@.skip(i + 1));
        if same(env.vars[i].0.as_str(), key) {
            return Some(owned(env.vars[i].1.as_str()));
        }
        i += 1;
    }
    None
}

/// The value of a variable, if it is set and not blank.
pub fn env_opt(env: &Env, key: &str) -> (r: Option<String>)
    ensures
        opt_view(r) == env_value(*env, key@),
{
    match env_var(env, key) {
        Some(v) => if is_blank(v.as_str()) {
            None
        } else {
            Some(v)
        },
        None => None,
    }
}

/// A path below another one; the lower one alone where it starts at the root.
pub open spec fn joined_path(base: Seq<char>, below: Seq<char>) -> Seq<char> {
    if below.len() > 0 && below[0] == '/' {
        below
    } else if base.len() == 0 || base.last() == '/' {
        base + below
    } else {
        base + "/"@ + below
    }
}

/// A path below another one.
pub fn join_path(base: &str, below: &str) -> (r: String)
    ensures
        r@ == joined_path(base@, below@),
{
    let n: usize = base.unicode_len();
    if below.unicode_len() > 0 && below.get_char(0) == '/' {
        owned(below)
    } else if n == 0 || base.get_char(n - 1) == '/' {
        crate::text::concat2(base, below)
    } else {
        concat3(base, "/", below)
    }
}

/// Where memory is kept where nothing says otherwise: below the home directory.
pub open spec fn default_root(env: Env) -> Seq<char> {
    joined_path(
        match var_of(env.vars@, "HOME"@) {
            Some(home) => home,
            None => "."@,
        },
        DEFAULT_DATA_ROOT_DIR@,
    )
}

/// Where memory is kept where nothing says otherwise.
pub fn default_data_root(env: &Env) -> (r: String)
    ensures
        r@ == default_root(*env),
{
    match env_var(env, "HOME") {
        Some(home) => join_path(home.as_str(), DEFAULT_DATA_ROOT_DIR),
        None => join_path(".", DEFAULT_DATA_ROOT_DIR),
    }
}

/// A value of `thinking` that turns the chain of thought off.
pub open spec fn turns_off(raw: Seq<char>) -> bool {
    let value = ascii_lower(trim_of(raw));
    value == "disabled"@ || value == "off"@ || value == "false"@ || value == "0"@ || value
        == "none"@
}

/// Whether a value of `thinking` turns the chain of thought off.
pub fn thinking_disabled(raw: &str) -> (r: bool)
    ensures
        r == turns_off(raw@),
{
    let value = to_ascii_lower(trim(raw).as_str());
    same(value.as_str(), "disabled") || same(value.as_str(), "off") || same(
        value.as_str(),
        "false",
    ) || same(value.as_str(), "0") || same(value.as_str(), "none")
}

/// Where the configuration file is.
pub open spec fn config_path_of(explicit: Option<Seq<char>>, env: Env) -> Seq<char> {
    match explicit {
        Some(p) => p,
        None => match env_value(env, "REFLECT_MEM_CONFIG"@) {
            Some(p) => p,
            None => joined_path(
                match env_value(env, "DATA_ROOT"@) {
                    Some(root) => root,
                    None => default_root(env),
                },
                "config.toml"@,
            ),
        },
    }
}

/// Where the configuration file is: where the command line says, where the
/// environment says, or in the directory where memory is kept.
pub fn resolve_config_path(explicit: Option<&str>, env: &Env) -> (r: String)
    ensures
        r@ == config_path_of(
            match explicit {
                Some(p) => Some(p@),
                None => None,
            },
            *env,
        ),
{
    match explicit {
        Some(p) => owned(p),
        None => match env_opt(env, "REFLECT_MEM_CONFIG") {
            Some(p) => p,
            None => {
                let root = match env_opt(env, "DATA_ROOT") {
                    Some(root) => root,
                    None => default_data_root(env),
                };
                join_path(root.as_str(), "config.toml")
            },
        },
    }
}

// ---------------------------------------------------------------------------
// Merging
// ---------------------------------------------------------------------------

/// What the environment says, or else the file.
pub open spec fn first_of(env: Option<Seq<char>>, file: Option<String>) -> Option<Seq<char>> {
    match env {
        Some(v) => Some(v),
        None => opt_view(file),
    }
}

/// What the environment says, or else the file, or else the default.
pub open spec fn first_or(
    env: Option<Seq<char>>,
    file: Option<String>,
    default: Seq<char>,
) -> Seq<char> {
    match first_of(env, file) {
        Some(v) => v,
        None => default,
    }
}

/// What the environment says, or else the file.
fn either(env: Option<String>, file: Option<String>) -> (r: Option<String>)
    ensures
        opt_view(r) == first_of(opt_view(env), file),
{
    match env {
        Some(v) => Some(v),
        None => file,
    }
}

/// What the environment says, or else the file, or else the default.
fn either_or(env: Option<String>, file: Option<String>, default: &str) -> (r: String)
    ensures
        r@ == first_or(opt_view(env), file, default@),
{
    match either(env, file) {
        Some(v) => v,
        None => owned(default),
    }
}

/// The extra fields of requests to the model; nothing where they are not JSON.
pub open spec fn args_of(env: Option<Seq<char>>, file: Option<Doc>) -> Option<Json> {
    match env {
        Some(raw) => parsed_json(raw),
        None => match file {
            Some(d) => Some(d@),
            None => Some(Json::Object(Seq::empty())),
        },
    }
}

/// The width of the vectors; nothing where it is no number.
pub open spec fn dimensions_of(env: Option<Seq<char>>, file: Option<usize>) -> Option<nat> {
    match env {
        Some(raw) => match parse_unsigned(raw) {
            Some(n) => if n <= usize::MAX {
                Some(n)
            } else {
                None
            },
            None => None,
        },
        None => match file {
            Some(n) => Some(n as nat),
            None => Some(DEFAULT_EMBEDDING_DIMENSIONS as nat),
        },
    }
}

/// The settings that the environment and a file give.
pub open spec fn is_merged(s: Settings, f: FileConfig, env: Env) -> bool {
    &&& s.data_root@ == first_or(env_value(env, "DATA_ROOT"@), f.data_root, default_root(env))
    &&& s.llm.endpoint@ == first_or(
        env_value(env, "LLM_ENDPOINT"@),
        f.llm.endpoint,
        DEFAULT_LLM_ENDPOINT@,
    )
    &&& s.llm.model@ == first_or(env_value(env, "LLM_MODEL"@), f.llm.model, DEFAULT_LLM_MODEL@)
    &&& s.llm.api_key@ == first_or(env_value(env, "LLM_API_KEY"@), f.llm.api_key, Seq::empty())
    &&& args_of(env_value(env, "LLM_ARGS"@), f.llm.args) == Some(s.llm.args@)
    &&& s.llm.disable_thinking == (first_of(
        env_value(env, "LLM_THINKING"@),
        f.llm.thinking,
    ) matches Some(raw) && turns_off(raw))
    &&& s.embedding.endpoint@ == first_or(
        env_value(env, "EMBEDDING_ENDPOINT"@),
        f.embedding.endpoint,
        DEFAULT_EMBEDDING_ENDPOINT@,
    )
    &&& s.embedding.model@ == first_or(
        env_value(env, "EMBEDDING_MODEL"@),
        f.embedding.model,
        DEFAULT_EMBEDDING_MODEL@,
    )
    &&& dimensions_of(env_value(env, "EMBEDDING_DIMENSIONS"@), f.embedding.dimensions) == Some(
        s.embedding.dimensions as nat,
    )
    &&& opt_view(s.embedding.api_key) == first_of(
        env_value(env, "EMBEDDING_API_KEY"@),
        f.embedding.api_key,
    )
    &&& s.embedding.headers == f.embedding.headers
    &&& s.mcp.transport@ == first_or(
        env_value(env, "MCP_TRANSPORT"@),
        f.mcp.transport,
        DEFAULT_MCP_TRANSPORT@,
    )
    &&& s.mcp.bind@ == first_or(env_value(env, "MCP_BIND"@), f.mcp.bind, DEFAULT_MCP_BIND@)
    &&& opt_view(s.mcp.token) == first_of(env_value(env, "MCP_TOKEN"@), f.mcp.token)
}

/// An object without fields.
fn empty_object() -> (r: Doc)
    ensures
        r@ == Json::Object(Seq::empty()),
{
    broadcast use doc_view_parts;

    let none: Fields = Vec::new();
    assert(field_views(none@) =~= Seq::empty());
    Doc::Object(none)
}

impl Settings {
    /// The built-in defaults.
    pub fn builtin(env: &Env) -> (r: Settings)
        ensures
            r.data_root@ == default_root(*env),
            r.llm.endpoint@ == DEFAULT_LLM_ENDPOINT@,
            r.llm.model@ == DEFAULT_LLM_MODEL@,
            r.llm.api_key@ == Seq::<char>::empty(),
            r.llm.args@ == Json::Object(Seq::empty()),
            !r.llm.disable_thinking,
            r.embedding.endpoint@ == DEFAULT_EMBEDDING_ENDPOINT@,
            r.embedding.model@ == DEFAULT_EMBEDDING_MODEL@,
            r.embedding.dimensions == DEFAULT_EMBEDDING_DIMENSIONS,
            r.embedding.api_key is None,
            r.embedding.headers@.len() == 0,
            r.mcp.transport@ == DEFAULT_MCP_TRANSPORT@,
            r.mcp.bind@ == DEFAULT_MCP_BIND@,
            r.mcp.token is None,
    {
        Settings {
            data_root: default_data_root(env),
            llm: LlmSettings {
                endpoint: owned(DEFAULT_LLM_ENDPOINT),
                model: owned(DEFAULT_LLM_MODEL),
                api_key: String::new(),
                args: empty_object(),
                disable_thinking: false,
            },
            embedding: EmbeddingSettings {
                endpoint: owned(DEFAULT_EMBEDDING_ENDPOINT),
                model: owned(DEFAULT_EMBEDDING_MODEL),
                dimensions: DEFAULT_EMBEDDING_DIMENSIONS,
                api_key: None,
                headers: Vec::new(),
            },
            mcp: McpSettings {
                transport: owned(DEFAULT_MCP_TRANSPORT),
                bind: owned(DEFAULT_MCP_BIND),
                token: None,
            },
        }
    }

    /// Lays the environment over what a file says, and fills in the defaults.
    pub fn merge(f: FileConfig, env: &Env) -> (r: Result<Settings, SettingsError>)
        ensures
            match r {
                Ok(s) => is_merged(s, f, *env) && ((f.llm.args matches Some(d) ==> unambiguous(d@))
                    ==> unambiguous(s.llm.args@)),
                Err(SettingsError::LlmArgs) => args_of(
                    env_value(*env, "LLM_ARGS"@),
                    f.llm.args,
                ) is None,
                Err(SettingsError::Dimensions) => args_of(
                    env_value(*env, "LLM_ARGS"@),
                    f.llm.args,
                ) is Some && dimensions_of(
                    env_value(*env, "EMBEDDING_DIMENSIONS"@),
                    f.embedding.dimensions,
                ) is None,
            },
    {
        let root = default_data_root(env);
        let data_root = either_or(env_opt(env, "DATA_ROOT"), f.data_root, root.as_str());
        let endpoint = either_or(env_opt(env, "LLM_ENDPOINT"), f.llm.endpoint, DEFAULT_LLM_ENDPOINT);
        let model = either_or(env_opt(env, "LLM_MODEL"), f.llm.model, DEFAULT_LLM_MODEL);
        let api_key = match either(env_opt(env, "LLM_API_KEY"), f.llm.api_key) {
            Some(k) => k,
            None => String::new(),
        };
        let thinking = either(env_opt(env, "LLM_THINKING"), f.llm.thinking);
        let disable_thinking = match thinking {
            Some(raw) => thinking_disabled(raw.as_str()),
            None => false,
        };
        let args = match env_opt(env, "LLM_ARGS") {
            Some(raw) => match parse_doc(raw.as_str()) {
                Some(d) => d,
                None => return Err(SettingsError::LlmArgs),
            },
            None => match f.llm.args {
                Some(d) => d,
                None => empty_object(),
            },
        };
        let embed_endpoint = either_or(
            env_opt(env, "EMBEDDING_ENDPOINT"),
            f.embedding.endpoint,
            DEFAULT_EMBEDDING_ENDPOINT,
        );
        let embed_model = either_or(
            env_opt(env, "EMBEDDING_MODEL"),
            f.embedding.model,
            DEFAULT_EMBEDDING_MODEL,
        );
        let dimensions: usize = match env_opt(env, "EMBEDDING_DIMENSIONS") {
            Some(raw) => match parse_usize(raw.as_str()) {
                Some(n) => n,
                None => return Err(SettingsError::Dimensions),
            },
            None => match f.embedding.dimensions {
                Some(n) => n,
                None => DEFAULT_EMBEDDING_DIMENSIONS,
            },
        };
        let embed_key = either(env_opt(env, "EMBEDDING_API_KEY"), f.embedding.api_key);
        let transport = either_or(
            env_opt(env, "MCP_TRANSPORT"),
            f.mcp.transport,
            DEFAULT_MCP_TRANSPORT,
        );
        let bind = either_or(env_opt(env, "MCP_BIND"), f.mcp.bind, DEFAULT_MCP_BIND);
        let token = either(env_opt(env, "MCP_TOKEN"), f.mcp.token);
        Ok(
            Settings {
                data_root,
                llm: LlmSettings { endpoint, model, api_key, args, disable_thinking },
                embedding: EmbeddingSettings {
                    endpoint: embed_endpoint,
                    model: embed_model,
                    dimensions,
                    api_key: embed_key,
                    headers: f.embedding.headers,
                },
                mcp: McpSettings { transport, bind, token },
            },
        )
    }
}

/// Without a file and without variables that say anything, the settings are the
/// built-in defaults.
pub proof fn nothing_said_gives_defaults(s: Settings, f: FileConfig, env: Env)
    requires
        is_merged(s, f, env),
        forall|key: Seq<char>| #[trigger] env_value(env, key) is None,
        f.data_root is None,
        f.llm.endpoint is None,
        f.llm.model is None,
        f.llm.api_key is None,
        f.llm.thinking is None,
        f.llm.args is None,
        f.embedding.endpoint is None,
        f.embedding.model is None,
        f.embedding.dimensions is None,
        f.embedding.api_key is None,
        f.mcp.transport is None,
        f.mcp.bind is None,
        f.mcp.token is None,
    ensures
        s.data_root@ == default_root(env),
        s.llm.endpoint@ == DEFAULT_LLM_ENDPOINT@,
        s.llm.model@ == DEFAULT_LLM_MODEL@,
        s.llm.api_key@ == Seq::<char>::empty(),
        s.llm.args@ == Json::Object(Seq::empty()),
        !s.llm.disable_thinking,
        s.embedding.endpoint@ == DEFAULT_EMBEDDING_ENDPOINT@,
        s.embedding.model@ == DEFAULT_EMBEDDING_MODEL@,
        s.embedding.dimensions == DEFAULT_EMBEDDING_DIMENSIONS,
        s.embedding.api_key is None,
        s.mcp.transport@ == DEFAULT_MCP_TRANSPORT@,
        s.mcp.bind@ == DEFAULT_MCP_BIND@,
        s.mcp.token is None,
{
}

// ---------------------------------------------------------------------------
// The command line
// ---------------------------------------------------------------------------

/// The settings of the server; what the command line says comes first.
pub fn with_flags(
    s: McpSettings,
    transport: Option<String>,
    bind: Option<String>,
    token: Option<String>,
) -> (r: McpSettings)
    ensures
        r.transport@ == first_or(opt_view(transport), Some(s.transport), Seq::empty()),
        r.bind@ == first_or(opt_view(bind), Some(s.bind), Seq::empty()),
        opt_view(r.token) == first_of(opt_view(token), s.token),
{
    McpSettings {
        transport: either_or(transport, Some(s.transport), ""),
        bind: either_or(bind, Some(s.bind), ""),
        token: either(token, s.token),
    }
}

/// How the server is reached.
#[derive(Debug, Clone, Copy, PartialEq, Eq, Structural)]
pub enum Transport {
    Stdio,
    StreamableHttp,
}

/// The transport with that name.
pub open spec fn transport_named(name: Seq<char>) -> Option<Transport> {
    if name == "stdio"@ {
        Some(Transport::Stdio)
    } else if name == "streamable-http"@ {
        Some(Transport::StreamableHttp)
    } else {
        None
    }
}

/// The transport with that name, if there is one.
pub fn transport_of(name: &str) -> (r: Option<Transport>)
    ensures
        r == transport_named(name@),
{
    if same(name, "stdio") {
        Some(Transport::Stdio)
    } else if same(name, "streamable-http") {
        Some(Transport::StreamableHttp)
    } else {
        None
    }
}

// ---------------------------------------------------------------------------
// The active settings
// ---------------------------------------------------------------------------

/// Installs settings; those that are installed already stay.
pub fn init(slot: &mut Option<Settings>, settings: Settings)
    ensures
        *final(slot) == (match *old(slot) {
            Some(s) => Some(s),
            None => Some(settings),
        }),
{
    if slot.is_none() {
        *slot = Some(settings);
    }
}

} // verus!
