//! Where settings come from.

use vstd::prelude::*;

use crate::config::databases_below;
use crate::json::{parsed_json, Json};
use crate::number::{dec, dec_value, digit, parse_unsigned};
use crate::settings::{
    config_path_of, default_root, env_value, is_merged, joined_path, transport_named, turns_off,
    var_of, Env, FileConfig, Settings, Transport,
};
use crate::text::{ascii_lower, blank, opt_view, trim_of};

verus! {

// ---------------------------------------------------------------------------
// Variables
// ---------------------------------------------------------------------------

/// The variable `key` is set to `value`, which is not blank: the first of that name
/// holds it.
pub open spec fn sets(env: Env, key: Seq<char>, value: Seq<char>) -> bool {
    exists|i: int|
        0 <= i < env.vars@.len() && (#[trigger] env.vars@[i]).0@ == key && env.vars@[i].1@ == value
            && !blank(value) && forall|j: int| 0 <= j < i ==> (#[trigger] env.vars@[j]).0@ != key
}

/// The variable `key` says nothing: there is none of that name, or the first of
/// them is blank.
pub open spec fn leaves(env: Env, key: Seq<char>) -> bool {
    forall|i: int|
        0 <= i < env.vars@.len() && (#[trigger] env.vars@[i]).0@ == key && (forall|j: int|
            0 <= j < i ==> (#[trigger] env.vars@[j]).0@ != key) ==> blank(env.vars@[i].1@)
}

proof fn first_is_read(vars: Seq<(String, String)>, key: Seq<char>, i: int)
    requires
        0 <= i < vars.len(),
        vars[i].0@ == key,
        forall|j: int| 0 <= j < i ==> (#[trigger] vars[j]).0@ != key,
    ensures
        var_of(vars, key) == Some(vars[i].1@),
    decreases vars.len(),
{
    if i > 0 {
        assert(vars[0].0@ != key);
        let rest = vars.skip(1);
        assert forall|j: int| 0 <= j < i - 1 implies (#[trigger] rest[j]).0@ != key by {
            assert(rest[j] == vars[j + 1]);
        }
        first_is_read(rest, key, i - 1);
    }
}

proof fn found_is_first(vars: Seq<(String, String)>, key: Seq<char>)
    ensures
        var_of(vars, key) is Some ==> exists|i: int|
            0 <= i < vars.len() && (#[trigger] vars[i]).0@ == key && var_of(vars, key) == Some(
                vars[i].1@,
            ) && forall|j: int| 0 <= j < i ==> (#[trigger] vars[j]).0@ != key,
    decreases vars.len(),
{
    if vars.len() > 0 {
        if vars[0].0@ == key {
            assert(vars[0].0@ == key && var_of(vars, key) == Some(vars[0].1@));
        } else {
            let rest = vars.skip(1);
            found_is_first(rest, key);
            if var_of(rest, key) is Some {
                let i = choose|i: int|
                    0 <= i < rest.len() && (#[trigger] rest[i]).0@ == key && var_of(rest, key)
                        == Some(rest[i].1@) && forall|j: int|
                        0 <= j < i ==> (#[trigger] rest[j]).0@ != key;
                assert(vars[i + 1] == rest[i]);
                assert forall|j: int| 0 <= j < i + 1 implies (#[trigger] vars[j]).0@ != key by {
                    if j > 0 {
                        assert(rest[j - 1] == vars[j]);
                    }
                }
            }
        }
    }
}

/// What a variable is set to is read, and one that says nothing gives nothing.
pub proof fn variables_are_read(env: Env, key: Seq<char>, value: Seq<char>)
    ensures
        sets(env, key, value) ==> env_value(env, key) == Some(value),
        leaves(env, key) ==> env_value(env, key) is None,
{
    if sets(env, key, value) {
        let i = choose|i: int|
            0 <= i < env.vars@.len() && (#[trigger] env.vars@[i]).0@ == key && env.vars@[i].1@
                == value && !blank(value) && forall|j: int|
                0 <= j < i ==> (#[trigger] env.vars@[j]).0@ != key;
        first_is_read(env.vars@, key, i);
    }
    if leaves(env, key) {
        found_is_first(env.vars@, key);
    }
}

// ---------------------------------------------------------------------------
// Settings
// ---------------------------------------------------------------------------

/// What the environment says comes first, whatever the file says.
pub proof fn environment_comes_first(s: Settings, f: FileConfig, env: Env, v: Seq<char>)
    requires
        is_merged(s, f, env),
    ensures
        sets(env, "DATA_ROOT"@, v) ==> s.data_root@ == v,
        sets(env, "LLM_ENDPOINT"@, v) ==> s.llm.endpoint@ == v,
        sets(env, "LLM_MODEL"@, v) ==> s.llm.model@ == v,
        sets(env, "LLM_API_KEY"@, v) ==> s.llm.api_key@ == v,
        sets(env, "EMBEDDING_ENDPOINT"@, v) ==> s.embedding.endpoint@ == v,
        sets(env, "EMBEDDING_MODEL"@, v) ==> s.embedding.model@ == v,
        sets(env, "MCP_TRANSPORT"@, v) ==> s.mcp.transport@ == v,
        sets(env, "MCP_BIND"@, v) ==> s.mcp.bind@ == v,
        sets(env, "EMBEDDING_API_KEY"@, v) ==> opt_view(s.embedding.api_key) == Some(v),
        sets(env, "MCP_TOKEN"@, v) ==> opt_view(s.mcp.token) == Some(v),
        sets(env, "LLM_ARGS"@, v) ==> parsed_json(v) == Some(s.llm.args@),
        sets(env, "LLM_THINKING"@, v) ==> s.llm.disable_thinking == turns_off(v),
        sets(env, "EMBEDDING_DIMENSIONS"@, v) ==> parse_unsigned(v) == Some(
            s.embedding.dimensions as nat,
        ),
{
    variables_are_read(env, "DATA_ROOT"@, v);
    variables_are_read(env, "LLM_ENDPOINT"@, v);
    variables_are_read(env, "LLM_MODEL"@, v);
    variables_are_read(env, "LLM_API_KEY"@, v);
    variables_are_read(env, "EMBEDDING_ENDPOINT"@, v);
    variables_are_read(env, "EMBEDDING_MODEL"@, v);
    variables_are_read(env, "MCP_TRANSPORT"@, v);
    variables_are_read(env, "MCP_BIND"@, v);
    variables_are_read(env, "EMBEDDING_API_KEY"@, v);
    variables_are_read(env, "MCP_TOKEN"@, v);
    variables_are_read(env, "LLM_ARGS"@, v);
    variables_are_read(env, "LLM_THINKING"@, v);
    variables_are_read(env, "EMBEDDING_DIMENSIONS"@, v);
}

/// Where the environment says nothing, what the file says is taken.
pub proof fn file_comes_second(s: Settings, f: FileConfig, env: Env)
    requires
        is_merged(s, f, env),
    ensures
        leaves(env, "DATA_ROOT"@) ==> (f.data_root matches Some(v) ==> s.data_root@ == v@),
        leaves(env, "LLM_ENDPOINT"@) ==> (f.llm.endpoint matches Some(v) ==> s.llm.endpoint@ == v@),
        leaves(env, "LLM_MODEL"@) ==> (f.llm.model matches Some(v) ==> s.llm.model@ == v@),
        leaves(env, "LLM_API_KEY"@) ==> (f.llm.api_key matches Some(v) ==> s.llm.api_key@ == v@),
        leaves(env, "EMBEDDING_ENDPOINT"@) ==> (f.embedding.endpoint matches Some(v) ==> s.embedding.endpoint@ == v@),
        leaves(env, "EMBEDDING_MODEL"@) ==> (f.embedding.model matches Some(v) ==> s.embedding.model@ == v@),
        leaves(env, "MCP_TRANSPORT"@) ==> (f.mcp.transport matches Some(v) ==> s.mcp.transport@ == v@),
        leaves(env, "MCP_BIND"@) ==> (f.mcp.bind matches Some(v) ==> s.mcp.bind@ == v@),
        leaves(env, "EMBEDDING_API_KEY"@) ==> opt_view(s.embedding.api_key) == opt_view(f.embedding.api_key),
        leaves(env, "MCP_TOKEN"@) ==> opt_view(s.mcp.token) == opt_view(f.mcp.token),
        leaves(env, "LLM_ARGS"@) ==> (f.llm.args matches Some(d) ==> s.llm.args@ == d@),
        leaves(env, "LLM_THINKING"@) ==> (f.llm.thinking matches Some(v) ==> s.llm.disable_thinking
            == turns_off(v@)),
        leaves(env, "EMBEDDING_DIMENSIONS"@) ==> (f.embedding.dimensions matches Some(n)
            ==> s.embedding.dimensions == n),
        s.embedding.headers == f.embedding.headers,
{
    variables_are_read(env, "DATA_ROOT"@, Seq::empty());
    variables_are_read(env, "LLM_ENDPOINT"@, Seq::empty());
    variables_are_read(env, "LLM_MODEL"@, Seq::empty());
    variables_are_read(env, "LLM_API_KEY"@, Seq::empty());
    variables_are_read(env, "EMBEDDING_ENDPOINT"@, Seq::empty());
    variables_are_read(env, "EMBEDDING_MODEL"@, Seq::empty());
    variables_are_read(env, "MCP_TRANSPORT"@, Seq::empty());
    variables_are_read(env, "MCP_BIND"@, Seq::empty());
    variables_are_read(env, "EMBEDDING_API_KEY"@, Seq::empty());
    variables_are_read(env, "MCP_TOKEN"@, Seq::empty());
    variables_are_read(env, "LLM_ARGS"@, Seq::empty());
    variables_are_read(env, "LLM_THINKING"@, Seq::empty());
    variables_are_read(env, "EMBEDDING_DIMENSIONS"@, Seq::empty());
}

/// Where neither says anything, the built-in values are taken.
pub proof fn defaults_come_last(s: Settings, f: FileConfig, env: Env)
    requires
        is_merged(s, f, env),
    ensures
        leaves(env, "DATA_ROOT"@) && f.data_root is None ==> s.data_root@ == default_root(env),
        leaves(env, "LLM_ENDPOINT"@) && f.llm.endpoint is None ==> s.llm.endpoint@ == "https://api.minimaxi.com/v1"@,
        leaves(env, "LLM_MODEL"@) && f.llm.model is None ==> s.llm.model@ == "MiniMax-M2.7-highspeed"@,
        leaves(env, "LLM_API_KEY"@) && f.llm.api_key is None ==> s.llm.api_key@ == Seq::<char>::empty(),
        leaves(env, "EMBEDDING_ENDPOINT"@) && f.embedding.endpoint is None ==> s.embedding.endpoint@ == "http://localhost:11434/api/embed"@,
        leaves(env, "EMBEDDING_MODEL"@) && f.embedding.model is None ==> s.embedding.model@ == "qwen3-embedding:0.6b"@,
        leaves(env, "MCP_TRANSPORT"@) && f.mcp.transport is None ==> s.mcp.transport@ == "stdio"@,
        leaves(env, "MCP_BIND"@) && f.mcp.bind is None ==> s.mcp.bind@ == "127.0.0.1:8080"@,
        leaves(env, "LLM_ARGS"@) && f.llm.args is None ==> s.llm.args@ == Json::Object(
            Seq::empty(),
        ),
        leaves(env, "LLM_THINKING"@) && f.llm.thinking is None ==> !s.llm.disable_thinking,
        leaves(env, "EMBEDDING_DIMENSIONS"@) && f.embedding.dimensions is None
            ==> s.embedding.dimensions == 1024,
{
    variables_are_read(env, "DATA_ROOT"@, Seq::empty());
    variables_are_read(env, "LLM_ENDPOINT"@, Seq::empty());
    variables_are_read(env, "LLM_MODEL"@, Seq::empty());
    variables_are_read(env, "LLM_API_KEY"@, Seq::empty());
    variables_are_read(env, "EMBEDDING_ENDPOINT"@, Seq::empty());
    variables_are_read(env, "EMBEDDING_MODEL"@, Seq::empty());
    variables_are_read(env, "MCP_TRANSPORT"@, Seq::empty());
    variables_are_read(env, "MCP_BIND"@, Seq::empty());
    variables_are_read(env, "EMBEDDING_API_KEY"@, Seq::empty());
    variables_are_read(env, "MCP_TOKEN"@, Seq::empty());
    variables_are_read(env, "LLM_ARGS"@, Seq::empty());
    variables_are_read(env, "LLM_THINKING"@, Seq::empty());
    variables_are_read(env, "EMBEDDING_DIMENSIONS"@, Seq::empty());
}

/// Five words turn thinking off, in upper or lower case and with white space around
/// them, and nothing else does.
pub proof fn five_words_turn_thinking_off(raw: Seq<char>)
    ensures
        turns_off(raw) <==> ({
            let word = ascii_lower(trim_of(raw));
            word == "disabled"@ || word == "off"@ || word == "false"@ || word == "none"@ || word
                == "0"@
        }),
{
}

/// Lower case changes the letters from `A` to `Z` to those from `a` to `z`, and
/// nothing else.
pub proof fn lower_case_changes_letters(s: Seq<char>, i: int)
    requires
        0 <= i < s.len(),
    ensures
        ascii_lower(s).len() == s.len(),
        65 <= s[i] as u32 <= 90 ==> ascii_lower(s)[i] as u32 == s[i] as u32 + 32,
        !(65 <= s[i] as u32 <= 90) ==> ascii_lower(s)[i] == s[i],
{
    assert(ascii_lower(s)[i] == crate::text::ascii_lower_char(s[i]));
}

/// The server is reached in two ways, by two names.
pub proof fn transports_have_names(name: Seq<char>)
    ensures
        transport_named("stdio"@) == Some(Transport::Stdio),
        transport_named("streamable-http"@) == Some(Transport::StreamableHttp),
        transport_named(name) is Some ==> name == "stdio"@ || name == "streamable-http"@,
{
    reveal_strlit("stdio");
    reveal_strlit("streamable-http");
    assert("stdio"@.len() != "streamable-http"@.len());
}

// ---------------------------------------------------------------------------
// Paths
// ---------------------------------------------------------------------------

/// A path below another follows it behind one slash; one that starts at the root
/// stands alone.
pub proof fn paths_are_joined(base: Seq<char>, below: Seq<char>)
    requires
        base.len() > 0,
        below.len() > 0,
    ensures
        below[0] == '/' ==> joined_path(base, below) == below,
        below[0] != '/' && base.last() != '/' ==> joined_path(base, below) == base + "/"@ + below,
        below[0] != '/' && base.last() == '/' ==> joined_path(base, below) == base + below,
{
}

/// The databases are kept in two directories below the data root.
pub proof fn databases_have_their_place(root: Seq<char>)
    requires
        root.len() > 0,
        root.last() != '/',
    ensures
        databases_below(root) == root + "/system/databases"@,
{
    reveal_strlit("system");
    reveal_strlit("databases");
    reveal_strlit("/system/databases");
    reveal_strlit("/");
    let first = root + "/"@ + "system"@;
    assert(first.last() == 'm');
    assert(first + "/"@ + "databases"@ =~= root + "/system/databases"@);
}

/// The configuration file is where the command line says, else where the
/// environment says, else in the data root that the environment says, else below
/// the home directory.
pub proof fn configuration_has_its_place(
    explicit: Option<Seq<char>>,
    env: Env,
    v: Seq<char>,
    home: int,
)
    ensures
        explicit matches Some(p) ==> config_path_of(explicit, env) == p,
        explicit is None && sets(env, "REFLECT_MEM_CONFIG"@, v) ==> config_path_of(explicit, env)
            == v,
        explicit is None && leaves(env, "REFLECT_MEM_CONFIG"@) && sets(env, "DATA_ROOT"@, v)
            && v.last() != '/' ==> config_path_of(explicit, env) == v + "/config.toml"@,
        explicit is None && leaves(env, "REFLECT_MEM_CONFIG"@) && leaves(env, "DATA_ROOT"@) && 0
            <= home < env.vars@.len() && env.vars@[home].0@ == "HOME"@ && (forall|j: int|
            0 <= j < home ==> (#[trigger] env.vars@[j]).0@ != "HOME"@) && env.vars@[home].1@.len()
            > 0 && env.vars@[home].1@.last() != '/' ==> config_path_of(explicit, env)
            == env.vars@[home].1@ + "/.agents/reflect-mem/config.toml"@,
{
    reveal_strlit("config.toml");
    reveal_strlit("/config.toml");
    reveal_strlit("/");
    reveal_strlit(".agents/reflect-mem");
    reveal_strlit("/.agents/reflect-mem/config.toml");
    variables_are_read(env, "REFLECT_MEM_CONFIG"@, v);
    variables_are_read(env, "DATA_ROOT"@, v);
    if sets(env, "DATA_ROOT"@, v) {
        assert(v.len() > 0);
        assert(v + "/"@ + "config.toml"@ =~= v + "/config.toml"@);
    }
    if 0 <= home < env.vars@.len() && env.vars@[home].0@ == "HOME"@ && (forall|j: int|
        0 <= j < home ==> (#[trigger] env.vars@[j]).0@ != "HOME"@) && env.vars@[home].1@.len() > 0
        && env.vars@[home].1@.last() != '/' {
        let h = env.vars@[home].1@;
        first_is_read(env.vars@, "HOME"@, home);
        assert(".agents/reflect-mem"@[0] == '.');
        let root = h + "/"@ + ".agents/reflect-mem"@;
        assert(default_root(env) == root);
        assert(root.last() == 'm');
        assert(root + "/"@ + "config.toml"@ =~= h + "/.agents/reflect-mem/config.toml"@);
    }
}

// ---------------------------------------------------------------------------
// Numbers
// ---------------------------------------------------------------------------

/// A number is read back from its spelling, which has no zero in front.
pub proof fn numbers_read_back(n: nat)
    ensures
        dec_value(dec(n)) == Some(n),
        parse_unsigned(dec(n)) == Some(n),
        dec(n).len() > 0,
        n > 0 ==> dec(n)[0] != '0',
    decreases n,
{
    if n < 10 {
        let one = seq![digit(n as int)];
        assert(one.drop_last() =~= Seq::<char>::empty());
        assert(dec_value(one.drop_last()) == Some(0nat));
        assert(one.last() == digit(n as int));
    } else {
        numbers_read_back(n / 10);
        let high = dec(n / 10);
        let low = digit((n % 10) as int);
        assert(high.push(low).drop_last() =~= high);
        assert(high.push(low).last() == low);
        assert(high.push(low)[0] == high[0]);
        assert(n == (n / 10) * 10 + n % 10);
    }
    digits_are_no_signs(n);
}

proof fn digits_are_no_signs(n: nat)
    ensures
        dec(n).len() > 0,
        dec(n)[0] != '+',
    decreases n,
{
    if n >= 10 {
        digits_are_no_signs(n / 10);
    }
}

/// Without a home directory, memory is kept below the current one.
pub proof fn homeless_memory_is_kept_here(env: Env)
    requires
        forall|j: int| 0 <= j < env.vars@.len() ==> (#[trigger] env.vars@[j]).0@ != "HOME"@,
    ensures
        default_root(env) == "./.agents/reflect-mem"@,
{
    reveal_strlit(".");
    reveal_strlit("/");
    reveal_strlit(".agents/reflect-mem");
    reveal_strlit("./.agents/reflect-mem");
    found_is_first(env.vars@, "HOME"@);
    assert("."@ + "/"@ + ".agents/reflect-mem"@ =~= "./.agents/reflect-mem"@);
}

} // verus!
