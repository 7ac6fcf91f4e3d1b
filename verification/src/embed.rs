//! Embeddings: what is sent to the service and what is made of its reply.

use vstd::prelude::*;
use vstd::string::*;

use crate::json::{
    doc_view_parts, doc_views, field_views, put, unambiguous, unambiguous_object, Doc, Fields, Json,
};
use crate::pattern::{replace_str, replace_str_of};
use crate::settings::EmbeddingSettings;
use crate::storage::graph::pair_views;
use crate::text::{blank, copy_opt, is_blank, opt_view, owned, views};

verus! {

/// The address with the name by which a container knows its host replaced,
/// unless this runs in one.
pub open spec fn host_endpoint(raw: Seq<char>, in_docker: bool) -> Seq<char> {
    if in_docker {
        raw
    } else {
        replace_str_of(raw, "host.docker.internal"@, "localhost"@)
    }
}

/// The address with the name by which a container knows its host replaced,
/// unless this runs in one.
pub fn rewrite_endpoint_for_host(raw: &str, in_docker: bool) -> (r: String)
    ensures
        r@ == host_endpoint(raw@, in_docker),
{
    proof {
        reveal_strlit("host.docker.internal");
    }
    if in_docker {
        owned(raw)
    } else {
        replace_str(raw, "host.docker.internal", "localhost")
    }
}

// ---------------------------------------------------------------------------
// Replies
// ---------------------------------------------------------------------------

/// One vector of a reply, and the position of the text that it belongs to.
#[derive(Debug)]
pub struct EmbedData<T> {
    pub embedding: Vec<T>,
    pub index: Option<usize>,
}

/// A reply: vectors in order, or vectors with positions.
#[derive(Debug)]
pub struct EmbedResponse<T> {
    pub embeddings: Option<Vec<Vec<T>>>,
    pub data: Option<Vec<EmbedData<T>>>,
}

/// Every vector comes with a position.
pub open spec fn all_placed<T>(data: Seq<EmbedData<T>>) -> bool {
    forall|i: int| 0 <= i < data.len() ==> (#[trigger] data[i]).index is Some
}

/// Positions do not descend.
pub open spec fn in_order<T>(data: Seq<EmbedData<T>>) -> bool {
    forall|i: int, j: int|
        #![trigger data[i], data[j]]
        0 <= i < j < data.len() ==> data[i].index->0 <= data[j].index->0
}

/// The vectors with `x` put behind those whose position is not greater.
pub open spec fn placed<T>(sorted: Seq<EmbedData<T>>, x: EmbedData<T>) -> Seq<EmbedData<T>>
    decreases sorted.len(),
{
    if sorted.len() == 0 || sorted.last().index->0 <= x.index->0 {
        sorted.push(x)
    } else {
        placed(sorted.drop_last(), x).push(sorted.last())
    }
}

/// The vectors by position; those with the same one as they came.
pub open spec fn by_index<T>(data: Seq<EmbedData<T>>) -> Seq<EmbedData<T>>
    decreases data.len(),
{
    if data.len() == 0 {
        data
    } else {
        placed(by_index(data.drop_last()), data.last())
    }
}

/// The vectors of a reply, in the order of the texts.
pub open spec fn vectors_of<T>(r: EmbedResponse<T>) -> Seq<Seq<T>> {
    match r.embeddings {
        Some(list) => list@.map_values(|v: Vec<T>| v@),
        None => {
            let data = match r.data {
                Some(d) => d@,
                None => Seq::empty(),
            };
            let ordered = if all_placed(data) {
                by_index(data)
            } else {
                data
            };
            ordered.map_values(|d: EmbedData<T>| d.embedding@)
        },
    }
}

proof fn placing_keeps_order<T>(sorted: Seq<EmbedData<T>>, x: EmbedData<T>)
    requires
        in_order(sorted),
    ensures
        in_order(placed(sorted, x)),
        placed(sorted, x).to_multiset() == sorted.to_multiset().insert(x),
        placed(sorted, x).len() == sorted.len() + 1,
        forall|i: int|
            0 <= i < placed(sorted, x).len() ==> (#[trigger] placed(sorted, x)[i]).index->0
                <= x.index->0 || (sorted.len() > 0 && placed(sorted, x)[i].index->0
                <= sorted.last().index->0),
    decreases sorted.len(),
{
    broadcast use vstd::seq_lib::group_to_multiset_ensures;

    if sorted.len() == 0 || sorted.last().index->0 <= x.index->0 {
        let after = sorted.push(x);
        assert forall|i: int, j: int|
            #![trigger after[i], after[j]]
            0 <= i < j < after.len() implies after[i].index->0 <= after[j].index->0 by {
            assert(after[i] == sorted[i]);
            if j == sorted.len() {
                assert(sorted[i].index->0 <= sorted[sorted.len() - 1].index->0);
            } else {
                assert(after[j] == sorted[j]);
            }
        }
    } else {
        let head = sorted.drop_last();
        assert forall|i: int, j: int|
            #![trigger head[i], head[j]]
            0 <= i < j < head.len() implies head[i].index->0 <= head[j].index->0 by {
            assert(head[i] == sorted[i] && head[j] == sorted[j]);
        }
        placing_keeps_order(head, x);
        let mid = placed(head, x);
        let after = mid.push(sorted.last());
        assert(after == placed(sorted, x));
        assert(head.push(sorted.last()) =~= sorted);
        assert(head.push(sorted.last()).to_multiset() =~= head.to_multiset().insert(sorted.last()));
        assert(after.to_multiset() =~= mid.to_multiset().insert(sorted.last()));
        assert(sorted.to_multiset().insert(x) =~= head.to_multiset().insert(x).insert(
            sorted.last(),
        ));
        if head.len() > 0 {
            assert(head[head.len() - 1] == sorted[sorted.len() - 2]);
            assert(sorted[sorted.len() - 2].index->0 <= sorted[sorted.len() - 1].index->0);
        }
        assert forall|i: int, j: int|
            #![trigger after[i], after[j]]
            0 <= i < j < after.len() implies after[i].index->0 <= after[j].index->0 by {
            assert(after[i] == mid[i]);
            if j < mid.len() {
                assert(after[j] == mid[j]);
            }
        }
        assert forall|i: int| 0 <= i < after.len() implies (#[trigger] after[i]).index->0
            <= x.index->0 || after[i].index->0 <= sorted.last().index->0 by {
            if i < mid.len() {
                assert(after[i] == mid[i]);
            }
        }
    }
}

/// Ordering by position loses no vector and invents none, and positions do not
/// descend.
pub proof fn ordering_is_sound<T>(data: Seq<EmbedData<T>>)
    ensures
        in_order(by_index(data)),
        by_index(data).to_multiset() == data.to_multiset(),
        by_index(data).len() == data.len(),
    decreases data.len(),
{
    broadcast use vstd::seq_lib::group_to_multiset_ensures;

    if data.len() > 0 {
        let head = data.drop_last();
        ordering_is_sound(head);
        placing_keeps_order(by_index(head), data.last());
        assert(head.push(data.last()) =~= data);
        assert(head.push(data.last()).to_multiset() =~= head.to_multiset().insert(data.last()));
    }
}

proof fn placed_at<T>(sorted: Seq<EmbedData<T>>, x: EmbedData<T>, pos: int)
    requires
        0 <= pos <= sorted.len(),
        forall|k: int| pos <= k < sorted.len() ==> (#[trigger] sorted[k]).index->0 > x.index->0,
        pos > 0 ==> sorted[pos - 1].index->0 <= x.index->0,
    ensures
        placed(sorted, x) == sorted.insert(pos, x),
    decreases sorted.len(),
{
    if pos == sorted.len() {
        assert(sorted.insert(pos, x) =~= sorted.push(x));
    } else {
        assert(sorted[sorted.len() - 1].index->0 > x.index->0);
        let head = sorted.drop_last();
        assert forall|k: int| pos <= k < head.len() implies (#[trigger] head[k]).index->0
            > x.index->0 by {
            assert(head[k] == sorted[k]);
        }
        placed_at(head, x, pos);
        assert(head.insert(pos, x).push(sorted.last()) =~= sorted.insert(pos, x));
    }
}

/// The vectors by position.
fn sort_by_index<T>(data: Vec<EmbedData<T>>) -> (r: Vec<EmbedData<T>>)
    requires
        all_placed(data@),
    ensures
        r@ == by_index(data@),
{
    let ghost all = data@;
    let mut sorted: Vec<EmbedData<T>> = Vec::new();
    assert(sorted@ =~= by_index(all.take(0)));
    for x in it: data
        invariant
            all == it.seq(),
            all_placed(all),
            sorted@ == by_index(all.take(it.index() as int)),
            forall|k: int| 0 <= k < sorted@.len() ==> (#[trigger] sorted@[k]).index is Some,
    {
        let ghost i = it.index() as int;
        assert(all[i] == x);
        assert(all.take(i + 1).drop_last() =~= all.take(i));
        let key: usize = match x.index {
            Some(k) => k,
            None => 0,
        };
        let mut pos: usize = sorted.len();
        let mut settled = false;
        while pos > 0 && !settled
            invariant
                pos <= sorted@.len(),
                x.index == Some(key),
                forall|k: int| 0 <= k < sorted@.len() ==> (#[trigger] sorted@[k]).index is Some,
                forall|k: int|
                    pos <= k < sorted@.len() ==> (#[trigger] sorted@[k]).index->0 > key,
                settled ==> pos > 0 && sorted@[pos - 1].index->0 <= key,
            decreases pos + (if settled { 0int } else { 1int }),
        {
            let before: usize = match sorted[pos - 1].index {
                Some(k) => k,
                None => 0,
            };
            if before <= key {
                settled = true;
            } else {
                pos = pos - 1;
            }
        }
        proof {
            placed_at(sorted@, x, pos as int);
        }
        let ghost had = sorted@;
        sorted.insert(pos, x);
        assert forall|k: int| 0 <= k < sorted@.len() implies (#[trigger] sorted@[k]).index
            is Some by {
            let source = if k < pos { had[k] } else if k == pos { x } else { had[k - 1] };
            assert(sorted@[k] == source);
        }
    }
    assert(all.take(all.len() as int) =~= all);
    sorted
}

/// Whether every vector comes with a position.
fn are_placed<T>(data: &Vec<EmbedData<T>>) -> (r: bool)
    ensures
        r == all_placed(data@),
{
    let mut i: usize = 0;
    while i < data.len()
        invariant
            i <= data@.len(),
            forall|k: int| 0 <= k < i ==> (#[trigger] data@[k]).index is Some,
        decreases data@.len() - i,
    {
        if data[i].index.is_none() {
            return false;
        }
        i += 1;
    }
    true
}

/// The views of vectors.
pub open spec fn vector_views<T>(list: Seq<Vec<T>>) -> Seq<Seq<T>> {
    list.map_values(|v: Vec<T>| v@)
}

impl<T> EmbedResponse<T> {
    /// One vector for each text, in the order of the texts.
    pub fn into_vectors(self) -> (r: Vec<Vec<T>>)
        ensures
            vector_views(r@) == vectors_of(self),
    {
        match self.embeddings {
            Some(list) => list,
            None => {
                let data = match self.data {
                    Some(d) => d,
                    None => Vec::new(),
                };
                let ordered = if are_placed(&data) {
                    sort_by_index(data)
                } else {
                    data
                };
                let ghost all = ordered@;
                let mut out: Vec<Vec<T>> = Vec::new();
                for d in it: ordered
                    invariant
                        all == it.seq(),
                        out@.len() == it.index(),
                        forall|k: int| 0 <= k < out@.len() ==> (#[trigger] out@[k])@
                            == all[k].embedding@,
                {
                    out.push(d.embedding);
                }
                assert(vector_views(out@) =~= all.map_values(|d: EmbedData<T>| d.embedding@));
                out
            },
        }
    }
}

/// Why vectors cannot be used.
#[derive(Debug, Clone, Copy, PartialEq, Eq, Structural)]
pub enum EmbedError {
    /// There is not one vector for each text.
    Count { asked: usize, got: usize },
    /// A vector has another width than the stored ones.
    Dimensions { got: usize, expected: usize },
}

/// Checks that there is one vector of the expected width for each text.
pub fn check_vectors<T>(vectors: Vec<Vec<T>>, texts: usize, dimensions: usize) -> (r: Result<
    Vec<Vec<T>>,
    EmbedError,
>)
    ensures
        match r {
            Ok(v) => v == vectors && vectors@.len() == texts && forall|i: int|
                0 <= i < vectors@.len() ==> (#[trigger] vectors@[i])@.len() == dimensions,
            Err(EmbedError::Count { asked, got }) => asked == texts && got == vectors@.len() && got
                != texts,
            Err(EmbedError::Dimensions { got, expected }) => vectors@.len() == texts && expected
                == dimensions && got != dimensions && exists|i: int|
                0 <= i < vectors@.len() && (#[trigger] vectors@[i])@.len() == got && forall|j: int|
                    0 <= j < i ==> (#[trigger] vectors@[j])@.len() == dimensions,
        },
{
    if vectors.len() != texts {
        return Err(EmbedError::Count { asked: texts, got: vectors.len() });
    }
    let mut i: usize = 0;
    while i < vectors.len()
        invariant
            i <= vectors@.len(),
            vectors@.len() == texts,
            forall|j: int| 0 <= j < i ==> (#[trigger] vectors@[j])@.len() == dimensions,
        decreases vectors@.len() - i,
    {
        if vectors[i].len() != dimensions {
            return Err(EmbedError::Dimensions { got: vectors[i].len(), expected: dimensions });
        }
        i += 1;
    }
    Ok(vectors)
}

/// The vectors of a reply, checked against what was asked for.
pub fn read_vectors<T>(reply: EmbedResponse<T>, texts: usize, dimensions: usize) -> (r: Result<
    Vec<Vec<T>>,
    EmbedError,
>)
    ensures
        ({
            let given = vectors_of(reply);
            match r {
                Ok(v) => vector_views(v@) == given && given.len() == texts && forall|i: int|
                    0 <= i < given.len() ==> (#[trigger] given[i]).len() == dimensions,
                Err(EmbedError::Count { asked, got }) => asked == texts && got == given.len() && got
                    != texts,
                Err(EmbedError::Dimensions { got, expected }) => given.len() == texts && expected
                    == dimensions && got != dimensions && exists|i: int|
                    0 <= i < given.len() && (#[trigger] given[i]).len() == got && forall|j: int|
                        0 <= j < i ==> (#[trigger] given[j]).len() == dimensions,
            }
        }),
{
    let ghost given = vectors_of(reply);
    let vectors = reply.into_vectors();
    let ghost list = vectors@;
    assert(forall|i: int| 0 <= i < list.len() ==> given[i] == (#[trigger] list[i])@);
    assert(forall|i: int| 0 <= i < list.len() ==> (#[trigger] given[i]) == list[i]@);
    let r = check_vectors(vectors, texts, dimensions);
    proof {
        if let Err(EmbedError::Dimensions { got, expected }) = r {
            let i = choose|i: int|
                0 <= i < list.len() && (#[trigger] list[i])@.len() == got && forall|j: int|
                    0 <= j < i ==> (#[trigger] list[j])@.len() == dimensions;
            assert(given[i].len() == got);
        }
    }
    r
}

// ---------------------------------------------------------------------------
// Requests
// ---------------------------------------------------------------------------

/// How embeddings are obtained.
#[derive(Debug)]
pub struct EmbeddingClient {
    endpoint: String,
    model: String,
    dimensions: usize,
    api_key: Option<String>,
    headers: Vec<(String, String)>,
}

/// What an [`EmbeddingClient`] holds.
pub struct Service {
    pub endpoint: Seq<char>,
    pub model: Seq<char>,
    pub dimensions: nat,
    pub api_key: Option<Seq<char>>,
    pub headers: Seq<(Seq<char>, Seq<char>)>,
}

/// A key, unless it is blank.
pub open spec fn usable_key(key: Option<Seq<char>>) -> Option<Seq<char>> {
    match key {
        Some(k) => if blank(k) {
            None
        } else {
            Some(k)
        },
        None => None,
    }
}

/// What is sent to the service.
pub open spec fn embed_request(model: Seq<char>, texts: Seq<Seq<char>>) -> Json {
    Json::Object(
        seq![
            ("model"@, Json::Text(model)),
            ("input"@, Json::List(texts.map_values(|t: Seq<char>| Json::Text(t)))),
        ],
    )
}

proof fn request_is_unambiguous(model: Seq<char>, texts: Seq<Seq<char>>)
    ensures
        unambiguous(embed_request(model, texts)),
{
    reveal_strlit("model");
    reveal_strlit("input");
    let input = Json::List(texts.map_values(|t: Seq<char>| Json::Text(t)));
    assert(unambiguous(input)) by {
        assert forall|i: int| 0 <= i < input->List_0.len() implies unambiguous(
            #[trigger] input->List_0[i],
        ) by {
            assert(input->List_0[i] == Json::Text(texts[i]));
        }
    }
    let fields = seq![("model"@, Json::Text(model)), ("input"@, input)];
    assert("model"@[0] != "input"@[0]);
    unambiguous_object(fields);
}

/// A copy of headers.
fn copy_headers(headers: &Vec<(String, String)>) -> (r: Vec<(String, String)>)
    ensures
        pair_views(r@) == pair_views(headers@),
{
    let mut out: Vec<(String, String)> = Vec::new();
    let mut i: usize = 0;
    while i < headers.len()
        invariant
            i <= headers@.len(),
            out@.len() == i,
            forall|k: int|
                0 <= k < i ==> (#[trigger] out@[k]).0@ == headers@[k].0@ && out@[k].1@
                    == headers@[k].1@,
        decreases headers@.len() - i,
    {
        out.push((owned(headers[i].0.as_str()), owned(headers[i].1.as_str())));
        i += 1;
    }
    assert(pair_views(out@) =~= pair_views(headers@));
    out
}

impl EmbeddingClient {
    pub closed spec fn view(&self) -> Service {
        Service {
            endpoint: self.endpoint@,
            model: self.model@,
            dimensions: self.dimensions as nat,
            api_key: opt_view(self.api_key),
            headers: pair_views(self.headers@),
        }
    }

    /// The service that settings name.
    pub fn from_settings(s: &EmbeddingSettings, in_docker: bool) -> (r: EmbeddingClient)
        ensures
            r@ == (Service {
                endpoint: host_endpoint(s.endpoint@, in_docker),
                model: s.model@,
                dimensions: s.dimensions as nat,
                api_key: usable_key(opt_view(s.api_key)),
                headers: pair_views(s.headers@),
            }),
    {
        EmbeddingClient::with_auth(
            rewrite_endpoint_for_host(s.endpoint.as_str(), in_docker),
            owned(s.model.as_str()),
            s.dimensions,
            copy_opt(&s.api_key),
            copy_headers(&s.headers),
        )
    }

    /// A service that asks for no key.
    pub fn new(endpoint: String, model: String, dimensions: usize) -> (r: EmbeddingClient)
        ensures
            r@ == (Service {
                endpoint: endpoint@,
                model: model@,
                dimensions: dimensions as nat,
                api_key: None,
                headers: Seq::empty(),
            }),
    {
        let none: Vec<(String, String)> = Vec::new();
        assert(pair_views(none@) =~= Seq::empty());
        EmbeddingClient::with_auth(endpoint, model, dimensions, None, none)
    }

    /// A service; a blank key counts as none.
    pub fn with_auth(
        endpoint: String,
        model: String,
        dimensions: usize,
        api_key: Option<String>,
        headers: Vec<(String, String)>,
    ) -> (r: EmbeddingClient)
        ensures
            r@ == (Service {
                endpoint: endpoint@,
                model: model@,
                dimensions: dimensions as nat,
                api_key: usable_key(opt_view(api_key)),
                headers: pair_views(headers@),
            }),
    {
        let key = match api_key {
            Some(k) => if is_blank(k.as_str()) {
                None
            } else {
                Some(k)
            },
            None => None,
        };
        EmbeddingClient { endpoint, model, dimensions, api_key: key, headers }
    }

    pub fn model(&self) -> (r: &str)
        ensures
            r@ == self@.model,
    {
        self.model.as_str()
    }

    pub fn dimensions(&self) -> (r: usize)
        ensures
            r == self@.dimensions,
    {
        self.dimensions
    }

    pub fn endpoint(&self) -> (r: &str)
        ensures
            r@ == self@.endpoint,
    {
        self.endpoint.as_str()
    }

    pub fn api_key(&self) -> (r: Option<String>)
        ensures
            opt_view(r) == self@.api_key,
    {
        copy_opt(&self.api_key)
    }

    pub fn headers(&self) -> (r: Vec<(String, String)>)
        ensures
            pair_views(r@) == self@.headers,
    {
        copy_headers(&self.headers)
    }

    /// What is sent to the service for some texts.
    pub fn request(&self, texts: &[String]) -> (r: Doc)
        ensures
            r@ == embed_request(self@.model, views(texts@)),
            unambiguous(r@),
    {
        broadcast use doc_view_parts;

        proof {
            request_is_unambiguous(self@.model, views(texts@));
        }

        let mut items: Vec<Doc> = Vec::new();
        let mut i: usize = 0;
        while i < texts.len()
            invariant
                i <= texts@.len(),
                items@.len() == i,
                forall|k: int| 0 <= k < i ==> (#[trigger] items@[k])@ == Json::Text(texts@[k]@),
            decreases texts@.len() - i,
        {
            items.push(Doc::Text(owned(texts[i].as_str())));
            i += 1;
        }
        assert(doc_views(items@) =~= views(texts@).map_values(|t: Seq<char>| Json::Text(t)));
        let mut fields: Fields = Vec::new();
        put(&mut fields, "model", Doc::Text(owned(self.model.as_str())));
        put(&mut fields, "input", Doc::List(items));
        assert(field_views(fields@) =~= seq![
            ("model"@, Json::Text(self@.model)),
            ("input"@, Json::List(views(texts@).map_values(|t: Seq<char>| Json::Text(t)))),
        ]);
        Doc::Object(fields)
    }
}

} // verus!
