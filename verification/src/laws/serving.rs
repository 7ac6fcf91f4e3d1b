//! What requests ask for, and what is replied.

use vstd::prelude::*;

use crate::forget::ForgetReport;
use crate::mcp::{asked_type, forget_reply_of, presented, remember_reply_of, retrieved, walked};
use crate::number::dec;
use crate::pattern::starts_of;
use crate::recall::{search_type_of, SearchType};
use crate::remember::RememberReport;
use crate::text::{ascii_upper, ascii_upper_char, trim_of};

verus! {

/// A question asks for as many items as it says, within one to fifty; five where it
/// says nothing. The graph is walked as far as it says, up to six steps; two where
/// it says nothing.
pub proof fn limits_are_kept(top_k: Option<usize>, hops: Option<u32>)
    ensures
        1 <= retrieved(top_k) <= 50,
        top_k matches Some(k) ==> (1 <= k <= 50 ==> retrieved(top_k) == k),
        top_k matches Some(k) ==> (k == 0 ==> retrieved(top_k) == 1),
        top_k matches Some(k) ==> (k > 50 ==> retrieved(top_k) == 50),
        top_k is None ==> retrieved(top_k) == 5,
        0 <= walked(hops) <= 6,
        hops matches Some(h) ==> (h <= 6 ==> walked(hops) == h),
        hops matches Some(h) ==> (h > 6 ==> walked(hops) == 6),
        hops is None ==> walked(hops) == 2,
{
}

/// Summaries are asked for where nothing is said. Either search type goes by two
/// names, in upper or lower case and with white space around them; nothing else
/// names one.
pub proof fn search_types_have_two_names(raw: Seq<char>)
    ensures
        asked_type(None) == Some(SearchType::Summaries),
        asked_type(Some(raw)) == search_type_of(raw),
        search_type_of(raw) == Some(SearchType::Summaries) <==> ascii_upper(trim_of(raw))
            == "SUMMARIES"@ || ascii_upper(trim_of(raw)) == "SUMMARY"@,
        search_type_of(raw) == Some(SearchType::GraphCompletion) <==> ascii_upper(trim_of(raw))
            == "GRAPH_COMPLETION"@ || ascii_upper(trim_of(raw)) == "GRAPH"@,
{
    reveal_strlit("SUMMARIES");
    reveal_strlit("SUMMARY");
    reveal_strlit("GRAPH_COMPLETION");
    reveal_strlit("GRAPH");
    assert("SUMMARIES"@.len() != "GRAPH_COMPLETION"@.len());
    assert("SUMMARIES"@.len() != "GRAPH"@.len());
    assert("SUMMARY"@.len() != "GRAPH_COMPLETION"@.len());
    assert("SUMMARY"@.len() != "GRAPH"@.len());
}

/// Case is all that upper case changes: the letters from `a` to `z` become those
/// from `A` to `Z`, and everything else stays.
pub proof fn upper_case_changes_letters(s: Seq<char>, i: int)
    requires
        0 <= i < s.len(),
    ensures
        ascii_upper(s).len() == s.len(),
        97 <= s[i] as u32 <= 122 ==> ascii_upper(s)[i] as u32 == s[i] as u32 - 32,
        !(97 <= s[i] as u32 <= 122) ==> ascii_upper(s)[i] == s[i],
{
    assert(ascii_upper(s)[i] == ascii_upper_char(s[i]));
}

/// The reply to a request to forget counts what went.
pub proof fn forget_reply_counts(r: ForgetReport)
    ensures
        forget_reply_of(r) == "Forgot "@ + dec(r.data_items as nat) + " data item(s): removed "@
            + dec(r.nodes_deleted as nat) + " nodes ("@ + dec(r.nodes_detached as nat)
            + " shared kept), "@ + dec(r.edges_deleted as nat) + " edges, "@ + dec(
            r.vectors_deleted as nat,
        ) + " vectors, "@ + dec(r.datasets_deleted as nat) + " datasets."@,
{
}

/// The reply to a request to remember tells where the text is, and what it added or
/// that it was there already.
pub proof fn remember_reply_tells(r: RememberReport)
    ensures
        r.skipped_existing ==> remember_reply_of(r) == "Already stored (dataset="@ + r.dataset@
            + ", data_id="@ + r.data_id@ + "); nothing to do."@,
        !r.skipped_existing ==> remember_reply_of(r) == "Stored in dataset '"@ + r.dataset@
            + "': "@ + dec(r.chunks as nat) + " chunk(s), +"@ + dec(r.graph_nodes as nat)
            + " graph nodes, +"@ + dec(r.graph_edges as nat) + " edges, "@ + dec(
            r.vectors as nat,
        ) + " vectors. data_id="@ + r.data_id@,
{
}

/// A caller presents what stands behind `Bearer` and a space, without white space
/// around it. Any other header, and none at all, presents nothing.
pub proof fn bearer_tokens_are_presented(token: Seq<char>, header: Seq<char>)
    ensures
        presented(Some("Bearer "@ + token)) == Some(trim_of(token)),
        header.len() < 7 || header.take(7) != "Bearer "@ ==> presented(Some(header)) is None,
        presented(None) is None,
{
    reveal_strlit("Bearer ");
    let all = "Bearer "@ + token;
    assert(all.subrange(0, 7) =~= "Bearer "@);
    assert(starts_of(all, "Bearer "@));
    assert(all.skip(7) =~= token);
    if starts_of(header, "Bearer "@) {
        assert(header.take(7) =~= header.subrange(0, 7));
    }
}

} // verus!
