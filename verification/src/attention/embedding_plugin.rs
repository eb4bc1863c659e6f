//! What is said to an embedding plugin, and what is read from its answers.
//!
//! A plugin is an executable that reads one JSON request and writes one JSON response.

use vstd::prelude::*;

use crate::failure::{failure_with, Failure};
use crate::json;
use crate::json::{array_json, empty_object, Json, JsonView};
use crate::text;

verus! {

/// Configuration for an embedding backend executable.
#[derive(Debug, Clone)]
pub struct EmbeddingBackendConfig {
    pub backend_id: String,
    pub exec_path: String,
    pub args: Vec<String>,
    pub default_space_id: String,
    pub enabled: bool,
    /// Environment variables to pass to the plugin subprocess.
    pub env: Vec<(String, String)>,
}

/// Response to a request for the capabilities of a backend.
#[derive(Debug, Clone)]
pub struct DescribeResponse {
    pub backend: BackendInfo,
    pub spaces: Vec<SpaceInfo>,
}

#[derive(Debug, Clone)]
pub struct BackendInfo {
    pub backend_id: String,
    pub backend_version: String,
    pub provider: String,
}

#[derive(Debug, Clone)]
pub struct SpaceInfo {
    pub space_id: String,
    pub model_id: String,
    pub dimensions: usize,
    pub distance: String,
}

/// Response to a request for embeddings.
#[derive(Debug, Clone)]
pub struct EmbedResponse {
    pub space_id: String,
    pub model_id: String,
    pub generated_by: Option<GeneratedBy>,
    pub vectors: Vec<VectorResult>,
}

#[derive(Debug, Clone)]
pub struct GeneratedBy {
    pub kind: String,
    pub backend_id: String,
    pub backend_version: String,
}

#[derive(Debug, Clone)]
pub struct VectorResult {
    pub input_id: String,
    /// Each component as the bits of a single-precision number.
    pub vector: Vec<u32>,
}

/// Client for communicating with an embedding plugin executable.
#[derive(Debug, Clone)]
pub struct EmbeddingPluginClient {
    config: EmbeddingBackendConfig,
}

/// A copy of a vector.
pub fn copy_vector(vector: &Vec<u32>) -> (copy: Vec<u32>)
    ensures
        copy@ == vector@,
{
    let mut copy: Vec<u32> = Vec::new();
    let mut i: usize = 0;
    while i < vector.len()
        invariant
            i <= vector.len(),
            copy@ == vector@.take(i as int),
        decreases vector.len() - i,
    {
        copy.push(vector[i]);
        i = i + 1;
    }
    assert(vector@.take(vector@.len() as int) == vector@);
    copy
}

/// The contents of a list of vectors.
pub open spec fn vectors(list: Seq<Vec<u32>>) -> Seq<Seq<u32>> {
    list.map_values(|v: Vec<u32>| v@)
}

/// The name of the `i`th text in a request.
pub open spec fn input_id(i: int) -> Seq<char> {
    "input_"@ + text::decimal(i as nat)
}

fn input_id_text(i: usize) -> (id: String)
    ensures
        id@ == input_id(i as int),
{
    let mut id = "input_".to_owned();
    id.append(text::decimal_text(i as u128).as_str());
    id
}

/// The texts of a request, each under its name.
pub open spec fn embed_inputs(texts: Seq<Seq<char>>) -> Seq<JsonView>
    decreases texts.len(),
{
    if texts.len() == 0 {
        Seq::empty()
    } else {
        embed_inputs(texts.drop_last()).push(
            json::object_view().with_text("input_id"@, input_id(texts.len() - 1)).with_text(
                "text"@,
                texts.last(),
            ),
        )
    }
}

/// The request for the embeddings of `texts` in a space.
pub open spec fn embed_request(space_id: Seq<char>, texts: Seq<Seq<char>>) -> JsonView {
    json::object_view().with_text("op"@, "embed"@).with_text("space_id"@, space_id).with(
        "inputs"@,
        JsonView::Array(embed_inputs(texts)),
    )
}

/// The vector of the first result with the given name.
pub open spec fn vector_for(results: Seq<VectorResult>, id: Seq<char>) -> Option<Seq<u32>>
    decreases results.len(),
{
    if results.len() == 0 {
        None
    } else if results[0].input_id@ == id {
        Some(results[0].vector@)
    } else {
        vector_for(results.skip(1), id)
    }
}

/// The vectors of the first `n` texts of a request, in the order of the texts; or the complaint
/// that one is missing.
pub open spec fn vectors_in_order(results: Seq<VectorResult>, n: nat) -> Result<
    Seq<Seq<u32>>,
    Seq<char>,
>
    decreases n,
{
    if n == 0 {
        Ok(Seq::empty())
    } else {
        match vectors_in_order(results, (n - 1) as nat) {
            Err(message) => Err(message),
            Ok(before) => match vector_for(results, input_id(n - 1)) {
                Some(vector) => Ok(before.push(vector)),
                None => Err("missing vector for input: "@ + input_id(n - 1)),
            },
        }
    }
}

pub open spec fn vectors_result(result: Result<Vec<Vec<u32>>, Failure>) -> Result<
    Seq<Seq<u32>>,
    Seq<char>,
> {
    match result {
        Ok(list) => Ok(vectors(list@)),
        Err(f) => Err(f@),
    }
}

impl EmbedResponse {
    fn find_vector(&self, id: &str) -> (found: Option<Vec<u32>>)
        ensures
            found is Some <==> vector_for(self.vectors@, id@) is Some,
            found is Some ==> vector_for(self.vectors@, id@) == Some(found->0@),
    {
        let mut i: usize = 0;
        assert(self.vectors@.skip(0) == self.vectors@);
        while i < self.vectors.len()
            invariant
                i <= self.vectors.len(),
                vector_for(self.vectors@, id@) == vector_for(self.vectors@.skip(i as int), id@),
            decreases self.vectors.len() - i,
        {
            if text::same_text(self.vectors[i].input_id.as_str(), id) {
                return Some(copy_vector(&self.vectors[i].vector));
            }
            assert(self.vectors@.skip(i as int).skip(1) == self.vectors@.skip(i + 1));
            i = i + 1;
        }
        None
    }

    /// The vectors of the `count` texts of a request, in the order of the texts.
    pub fn vectors_in_order(&self, count: usize) -> (result: Result<Vec<Vec<u32>>, Failure>)
        ensures
            vectors_result(result) == vectors_in_order(self.vectors@, count as nat),
    {
        let mut out: Vec<Vec<u32>> = Vec::new();
        let mut i: usize = 0;
        assert(vectors(out@) == Seq::<Seq<u32>>::empty());
        while i < count
            invariant
                i <= count,
                vectors_in_order(self.vectors@, i as nat) == Ok::<Seq<Seq<u32>>, Seq<char>>(
                    vectors(out@),
                ),
            decreases count - i,
        {
            let id = input_id_text(i);
            match self.find_vector(id.as_str()) {
                Some(vector) => {
                    let ghost before = vectors(out@);
                    out.push(vector);
                    assert(vectors(out@) == before.push(vector@));
                },
                None => {
                    proof {
                        lemma_missing_vector(self.vectors@, i as nat, count as nat);
                    }
                    return Err(failure_with("missing vector for input: ", id.as_str()));
                },
            }
            i = i + 1;
        }
        Ok(out)
    }
}

/// A missing vector is reported however many texts follow.
proof fn lemma_missing_vector(results: Seq<VectorResult>, i: nat, n: nat)
    requires
        i < n,
        vectors_in_order(results, i) is Ok,
        vector_for(results, input_id(i as int)) is None,
    ensures
        vectors_in_order(results, n) == Err::<Seq<Seq<u32>>, Seq<char>>(
            "missing vector for input: "@ + input_id(i as int),
        ),
    decreases n,
{
    if n > i + 1 {
        lemma_missing_vector(results, i, (n - 1) as nat);
    }
}

impl EmbeddingPluginClient {
    pub closed spec fn backend(&self) -> EmbeddingBackendConfig {
        self.config
    }

    /// Create a new client with the given configuration.
    pub fn new(config: EmbeddingBackendConfig) -> (client: Self)
        ensures
            client.backend() == config,
    {
        EmbeddingPluginClient { config }
    }

    /// The configured backend.
    pub fn config(&self) -> (config: &EmbeddingBackendConfig)
        ensures
            *config == self.backend(),
    {
        &self.config
    }

    /// Get the configured space_id for this client.
    pub fn space_id(&self) -> (space_id: &str)
        ensures
            space_id@ == self.backend().default_space_id@,
    {
        self.config.default_space_id.as_str()
    }

    /// Get the backend_id for this client.
    pub fn backend_id(&self) -> (backend_id: &str)
        ensures
            backend_id@ == self.backend().backend_id@,
    {
        self.config.backend_id.as_str()
    }

    /// The request for the embeddings of `texts` in the configured space.
    pub fn embed_request(&self, texts: &Vec<String>) -> (request: Json)
        ensures
            request@ == embed_request(self.backend().default_space_id@, text::texts(texts@)),
    {
        let ghost all = text::texts(texts@);
        let mut inputs: Vec<Json> = Vec::new();
        let mut i: usize = 0;
        assert(json::trees(inputs@) == Seq::<JsonView>::empty());
        assert(embed_inputs(all.take(0)) == Seq::<JsonView>::empty());
        while i < texts.len()
            invariant
                i <= texts.len(),
                all == text::texts(texts@),
                json::trees(inputs@) == embed_inputs(all.take(i as int)),
            decreases texts.len() - i,
        {
            let input = empty_object().with_text("input_id", input_id_text(i).as_str()).with_text(
                "text",
                texts[i].as_str(),
            );
            let ghost before = json::trees(inputs@);
            inputs.push(input);
            assert(json::trees(inputs@) == before.push(input@));
            assert(all.take(i + 1).drop_last() == all.take(i as int));
            assert(all.take(i + 1).last() == texts@[i as int]@);
            i = i + 1;
        }
        assert(all.take(all.len() as int) == all);
        empty_object().with_text("op", "embed").with_text("space_id", self.space_id()).with(
            "inputs",
            array_json(inputs),
        )
    }
}

/// The request for the capabilities of a backend.
pub fn describe_request() -> (request: Json)
    ensures
        request@ == json::object_view().with_text("op"@, "describe"@),
{
    empty_object().with_text("op", "describe")
}

/// The failure of a plugin that ended with an unsuccessful status.
pub fn exit_failure(status: &str, stderr: &str) -> (f: Failure)
    ensures
        f@ == "embedding plugin exited with status "@ + status@ + ": "@ + text::trimmed(stderr@),
{
    let mut message = "embedding plugin exited with status ".to_owned();
    message.append(status);
    message.append(": ");
    message.append(text::trim(stderr));
    Failure { message }
}

/// The failure that a plugin reports in its response.
pub fn plugin_failure(code: &str, reason: &str) -> (f: Failure)
    ensures
        f@ == "embedding plugin error ("@ + code@ + "): "@ + reason@,
{
    let mut message = "embedding plugin error (".to_owned();
    message.append(code);
    message.append("): ");
    message.append(reason);
    Failure { message }
}

// ---------------------------------------------------------------------------
// Laws
// ---------------------------------------------------------------------------

/// Every text is sent to the plugin, in its place and under its own id.
pub proof fn law_every_text_is_sent(space_id: Seq<char>, texts: Seq<Seq<char>>, i: int)
    requires
        0 <= i < texts.len(),
    ensures
        embed_request(space_id, texts).text_member("op"@) == Some("embed"@),
        embed_request(space_id, texts).text_member("space_id"@) == Some(space_id),
        embed_request(space_id, texts).member("inputs"@) matches Some(inputs) && (inputs.items()
            matches Some(items) && items.len() == texts.len() && items[i].text_member("text"@)
            == Some(texts[i]) && items[i].text_member("input_id"@) == Some(
            "input_"@ + text::decimal(i as nat),
        )),
{
    reveal_strlit("op");
    reveal_strlit("space_id");
    reveal_strlit("inputs");
    reveal_strlit("input_id");
    reveal_strlit("text");
    assert("op"@.len() == 2);
    assert("space_id"@.len() == 8);
    assert("inputs"@.len() == 6);
    assert("input_id"@.len() == 8);
    assert("text"@.len() == 4);
    json::lemma_members();
    lemma_input(texts, i);
}

proof fn lemma_input(texts: Seq<Seq<char>>, i: int)
    requires
        0 <= i < texts.len(),
    ensures
        embed_inputs(texts).len() == texts.len(),
        embed_inputs(texts)[i] == json::object_view().with_text(
            "input_id"@,
            input_id(i),
        ).with_text("text"@, texts[i]),
    decreases texts.len(),
{
    let rest = texts.drop_last();
    if i < rest.len() {
        lemma_input(rest, i);
        assert(rest[i] == texts[i]);
    } else if rest.len() > 0 {
        lemma_input(rest, 0);
    } else {
        assert(embed_inputs(rest).len() == 0);
    }
}

/// Two inputs never have the same id.
pub proof fn law_input_ids_differ(i: nat, j: nat)
    requires
        i != j,
    ensures
        input_id(i as int) != input_id(j as int),
{
    let n = "input_"@.len() as int;
    assert(input_id(i as int).skip(n) =~= text::decimal(i));
    assert(input_id(j as int).skip(n) =~= text::decimal(j));
    if text::decimal(i) == text::decimal(j) {
        text::law_numbers_are_written_differently(i, j);
    }
}

/// The vector of an input is the first that the plugin has given for it.
pub proof fn law_first_vector_is_taken(results: Seq<VectorResult>, id: Seq<char>)
    ensures
        vector_for(results, id) is Some <==> exists|i: int|
            0 <= i < results.len() && (#[trigger] results[i]).input_id@ == id,
        vector_for(results, id) matches Some(vector) ==> exists|i: int|
            0 <= i < results.len() && (#[trigger] results[i]).input_id@ == id && results[i].vector@
                == vector && forall|j: int| 0 <= j < i ==> (#[trigger] results[j]).input_id@ != id,
    decreases results.len(),
{
    if results.len() > 0 {
        let rest = results.skip(1);
        law_first_vector_is_taken(rest, id);
        assert(forall|i: int| 0 <= i < rest.len() ==> #[trigger] rest[i] == results[i + 1]);
        assert(forall|i: int| 1 <= i < results.len() ==> #[trigger] results[i] == rest[i - 1]);
        if results[0].input_id@ != id {
            if let Some(vector) = vector_for(rest, id) {
                let i = choose|i: int|
                    0 <= i < rest.len() && (#[trigger] rest[i]).input_id@ == id && rest[i].vector@
                        == vector && forall|j: int|
                        0 <= j < i ==> (#[trigger] rest[j]).input_id@ != id;
                assert(results[i + 1].input_id@ == id);
                assert forall|j: int| 0 <= j < i + 1 implies (#[trigger] results[j]).input_id@
                    != id by {
                    if j > 0 {
                        assert(rest[j - 1].input_id@ != id);
                    }
                }
            }
        }
    }
}

/// Each text gets its vector, in the order of the texts, in whatever order the plugin has answered; if
/// one is missing, there are none.
pub proof fn law_vectors_come_in_the_order_of_the_texts(results: Seq<VectorResult>, n: nat)
    ensures
        vectors_in_order(results, n) matches Ok(list) ==> list.len() == n && forall|i: int|
            0 <= i < n ==> vector_for(results, input_id(i)) == Some(#[trigger] list[i]),
        vectors_in_order(results, n) is Ok <==> forall|i: int|
            0 <= i < n ==> (#[trigger] vector_for(results, input_id(i))) is Some,
    decreases n,
{
    if n > 0 {
        law_vectors_come_in_the_order_of_the_texts(results, (n - 1) as nat);
    }
}

} // verus!
