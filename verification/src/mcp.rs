//! The tools of the memory server: what their parameters ask for, what they
//! reply, and who may call them.

use vstd::prelude::*;
use vstd::string::*;
use vstd::utf8::*;

use crate::forget::{is_given_key, resolve_target, ForgetError, ForgetReport, ForgetTarget};
use crate::number::{count_text, dec};
use crate::pattern::{starts_of, strip_prefix};
use crate::recall::{search_type_of, RecallOptions, SearchType, UnknownSearchType};
use crate::remember::RememberReport;
use crate::text::{ascii_upper, copy_opt, opt_view, owned, trim, trim_of};
use crate::uid::{parsed_uuid, Uuid};

verus! {

/// The parameters of `recall`.
#[derive(Debug)]
pub struct RecallParams {
    /// The question.
    pub query: String,
    /// `SUMMARIES` or `GRAPH_COMPLETION`; the first where nothing is said.
    pub search_type: Option<String>,
    /// How many memory items to retrieve.
    pub top_k: Option<usize>,
    /// How far the graph is walked.
    pub hops: Option<u32>,
}

/// The parameters of `forget`.
#[derive(Debug)]
pub struct ForgetParams {
    /// One data item, by its identifier; needs its dataset.
    pub data_id: Option<String>,
    /// Everything in a dataset.
    pub dataset: Option<String>,
    /// The dataset by its identifier.
    pub dataset_id: Option<String>,
    /// All memory.
    pub everything: bool,
}

/// The parameters of `remember`.
#[derive(Debug)]
pub struct RememberParams {
    /// The text to keep.
    pub data: String,
    /// The dataset; `main_dataset` where nothing is said.
    pub dataset_name: Option<String>,
    /// What the model is told besides.
    pub custom_prompt: Option<String>,
}

// ---------------------------------------------------------------------------
// Requests
// ---------------------------------------------------------------------------

/// How many items are retrieved: five where nothing is said, and from one to
/// fifty in any case.
pub open spec fn retrieved(top_k: Option<usize>) -> int {
    let asked = match top_k {
        Some(k) => k as int,
        None => 5,
    };
    if asked < 1 {
        1
    } else if asked > 50 {
        50
    } else {
        asked
    }
}

/// How far the graph is walked: two steps where nothing is said, and six at
/// most.
pub open spec fn walked(hops: Option<u32>) -> int {
    let asked = match hops {
        Some(h) => h as int,
        None => 2,
    };
    if asked > 6 {
        6
    } else {
        asked
    }
}

/// The search type that is asked for.
pub open spec fn asked_type(raw: Option<Seq<char>>) -> Option<SearchType> {
    match raw {
        Some(t) => search_type_of(t),
        None => Some(SearchType::Summaries),
    }
}

/// How a question is to be answered.
pub fn recall_options(p: &RecallParams) -> (r: Result<RecallOptions, UnknownSearchType>)
    ensures
        match r {
            Ok(o) => asked_type(opt_view(p.search_type)) == Some(o.search_type) && o.top_k
                == retrieved(p.top_k) && o.max_hops == walked(p.hops) && o.system_prompt is None,
            Err(e) => asked_type(opt_view(p.search_type)) is None && (p.search_type matches Some(raw)
                && e.given@ == ascii_upper(trim_of(raw@))),
        },
{
    let search_type = match &p.search_type {
        None => SearchType::Summaries,
        Some(raw) => match SearchType::parse(raw.as_str()) {
            Ok(t) => t,
            Err(e) => return Err(e),
        },
    };
    let asked: usize = match p.top_k {
        Some(k) => k,
        None => 5,
    };
    let top_k: usize = if asked < 1 {
        1
    } else if asked > 50 {
        50
    } else {
        asked
    };
    let far: u32 = match p.hops {
        Some(h) => h,
        None => 2,
    };
    let max_hops: u32 = if far > 6 {
        6
    } else {
        far
    };
    Ok(RecallOptions { search_type, top_k, max_hops, system_prompt: None })
}

/// Why a request to forget is refused.
#[derive(Debug)]
pub enum RequestError {
    /// A parameter is no identifier.
    NotUuid { what: String, given: String },
    /// The parameters name nothing to forget.
    Target(ForgetError),
}

/// Reads an identifier.
pub fn parse_uuid(raw: &str, what: &str) -> (r: Result<Uuid, RequestError>)
    ensures
        match r {
            Ok(u) => parsed_uuid(raw@) == Some(u.value as int),
            Err(RequestError::NotUuid { what: w, given }) => parsed_uuid(raw@) is None && w@ == what@
                && given@ == raw@,
            Err(_) => false,
        },
{
    match Uuid::parse_str(raw) {
        Some(u) => Ok(u),
        None => Err(RequestError::NotUuid { what: owned(what), given: owned(raw) }),
    }
}

/// The identifier in a parameter that may be absent.
pub open spec fn given_id(raw: Option<Seq<char>>) -> Option<Uuid> {
    match raw {
        Some(s) => Some(Uuid { value: parsed_uuid(s)->0 as u128 }),
        None => None,
    }
}

/// A parameter that is there and is no identifier.
pub open spec fn bad_id(raw: Option<Seq<char>>) -> bool {
    raw matches Some(s) && parsed_uuid(s) is None
}

/// What a request asks to forget.
pub fn forget_target(p: &ForgetParams) -> (r: Result<ForgetTarget, RequestError>)
    ensures
        ({
            let data_id = opt_view(p.data_id);
            let dataset_id = opt_view(p.dataset_id);
            let name = opt_view(p.dataset);
            let keyless = name is None && dataset_id is None;
            let readable = !bad_id(data_id) && !bad_id(dataset_id);
            match r {
                Ok(ForgetTarget::Everything) => readable && p.everything,
                Ok(ForgetTarget::DataItem { dataset, data_id: id }) => readable && !p.everything
                    && given_id(data_id) == Some(id) && is_given_key(
                    dataset,
                    name,
                    given_id(dataset_id),
                ),
                Ok(ForgetTarget::Dataset { dataset }) => readable && !p.everything && data_id is None
                    && is_given_key(dataset, name, given_id(dataset_id)),
                Err(RequestError::NotUuid { what, given }) => if bad_id(data_id) {
                    what@ == "data_id"@ && Some(given@) == data_id
                } else {
                    bad_id(dataset_id) && what@ == "dataset_id"@ && Some(given@) == dataset_id
                },
                Err(RequestError::Target(ForgetError::NoDataset)) => readable && !p.everything
                    && data_id is Some && keyless,
                Err(RequestError::Target(ForgetError::NoTarget)) => readable && !p.everything
                    && data_id is None && keyless,
                Err(RequestError::Target(ForgetError::Relational(_))) => false,
            }
        }),
{
    let data_id = match &p.data_id {
        Some(raw) => match parse_uuid(raw.as_str(), "data_id") {
            Ok(u) => Some(u),
            Err(e) => return Err(e),
        },
        None => None,
    };
    let dataset_id = match &p.dataset_id {
        Some(raw) => match parse_uuid(raw.as_str(), "dataset_id") {
            Ok(u) => Some(u),
            Err(e) => return Err(e),
        },
        None => None,
    };
    match resolve_target(data_id, copy_opt(&p.dataset), dataset_id, p.everything) {
        Ok(t) => Ok(t),
        Err(e) => Err(RequestError::Target(e)),
    }
}

/// The dataset that a text goes to.
pub fn target_dataset(p: &RememberParams) -> (r: String)
    ensures
        r@ == (match opt_view(p.dataset_name) {
            Some(name) => name,
            None => "main_dataset"@,
        }),
{
    match &p.dataset_name {
        Some(name) => owned(name.as_str()),
        None => owned("main_dataset"),
    }
}

// ---------------------------------------------------------------------------
// Replies
// ---------------------------------------------------------------------------

/// What is replied to a request to forget.
pub open spec fn forget_reply_of(r: ForgetReport) -> Seq<char> {
    "Forgot "@ + dec(r.data_items as nat) + " data item(s): removed "@ + dec(
        r.nodes_deleted as nat,
    ) + " nodes ("@ + dec(r.nodes_detached as nat) + " shared kept), "@ + dec(
        r.edges_deleted as nat,
    ) + " edges, "@ + dec(r.vectors_deleted as nat) + " vectors, "@ + dec(
        r.datasets_deleted as nat,
    ) + " datasets."@
}

/// What is replied to a request to forget.
pub fn forget_reply(report: &ForgetReport) -> (r: String)
    ensures
        r@ == forget_reply_of(*report),
{
    let mut out = owned("Forgot ");
    out.append(count_text(report.data_items).as_str());
    out.append(" data item(s): removed ");
    out.append(count_text(report.nodes_deleted).as_str());
    out.append(" nodes (");
    out.append(count_text(report.nodes_detached).as_str());
    out.append(" shared kept), ");
    out.append(count_text(report.edges_deleted).as_str());
    out.append(" edges, ");
    out.append(count_text(report.vectors_deleted).as_str());
    out.append(" vectors, ");
    out.append(count_text(report.datasets_deleted).as_str());
    out.append(" datasets.");
    out
}

/// What is replied to a request to remember.
pub open spec fn remember_reply_of(r: RememberReport) -> Seq<char> {
    if r.skipped_existing {
        "Already stored (dataset="@ + r.dataset@ + ", data_id="@ + r.data_id@
            + "); nothing to do."@
    } else {
        "Stored in dataset '"@ + r.dataset@ + "': "@ + dec(r.chunks as nat) + " chunk(s), +"@ + dec(
            r.graph_nodes as nat,
        ) + " graph nodes, +"@ + dec(r.graph_edges as nat) + " edges, "@ + dec(r.vectors as nat)
            + " vectors. data_id="@ + r.data_id@
    }
}

/// What is replied to a request to remember.
pub fn remember_reply(report: &RememberReport) -> (r: String)
    ensures
        r@ == remember_reply_of(*report),
{
    if report.skipped_existing {
        let mut out = owned("Already stored (dataset=");
        out.append(report.dataset.as_str());
        out.append(", data_id=");
        out.append(report.data_id.as_str());
        out.append("); nothing to do.");
        out
    } else {
        let mut out = owned("Stored in dataset '");
        out.append(report.dataset.as_str());
        out.append("': ");
        out.append(count_text(report.chunks).as_str());
        out.append(" chunk(s), +");
        out.append(count_text(report.graph_nodes).as_str());
        out.append(" graph nodes, +");
        out.append(count_text(report.graph_edges).as_str());
        out.append(" edges, ");
        out.append(count_text(report.vectors).as_str());
        out.append(" vectors. data_id=");
        out.append(report.data_id.as_str());
        out
    }
}

// ---------------------------------------------------------------------------
// Callers
// ---------------------------------------------------------------------------

/// The token that a header presents, if it presents one.
pub open spec fn presented(header: Option<Seq<char>>) -> Option<Seq<char>> {
    match header {
        Some(v) => if starts_of(v, "Bearer "@) {
            Some(trim_of(v.skip("Bearer "@.len() as int)))
        } else {
            None
        },
        None => None,
    }
}

/// Whether a token is the expected one. Every byte is looked at, whatever the
/// others were.
pub fn token_matches(given: &str, expected: &str) -> (r: bool)
    ensures
        r == (given@ == expected@),
{
    let a = given.as_bytes();
    let b = expected.as_bytes();
    proof {
        encode_utf8_decode_utf8(given@);
        encode_utf8_decode_utf8(expected@);
    }
    if a.len() != b.len() {
        return false;
    }
    let mut diff: u8 = 0;
    let mut i: usize = 0;
    while i < a.len()
        invariant
            i <= a@.len(),
            a@.len() == b@.len(),
            diff == 0 <==> (forall|k: int| 0 <= k < i ==> #[trigger] a@[k] == b@[k]),
        decreases a@.len() - i,
    {
        let x: u8 = a[i];
        let y: u8 = b[i];
        assert((diff | (x ^ y)) == 0 <==> (diff == 0 && x == y)) by (bit_vector);
        diff = diff | (x ^ y);
        i += 1;
    }
    proof {
        if diff == 0 {
            assert(a@ =~= b@);
        } else if given@ == expected@ {
            assert(a@ == b@);
        }
    }
    diff == 0
}

/// Whether a request with that header may pass.
pub fn authorized(header: Option<&str>, expected: &str) -> (r: bool)
    ensures
        r == (presented(
            match header {
                Some(v) => Some(v@),
                None => None,
            },
        ) == Some(expected@)),
{
    match header {
        Some(v) => match strip_prefix(v, "Bearer ") {
            Some(rest) => token_matches(trim(rest.as_str()).as_str(), expected),
            None => false,
        },
        None => false,
    }
}

} // verus!
