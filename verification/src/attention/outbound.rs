//! Which embeddings go out with a message: those that the sender supplied, and those that the
//! daemon generates.

use vstd::prelude::*;

use crate::attention::embedding_plugin::{
    copy_vector, EmbeddingBackendConfig, EmbeddingPluginClient,
};
use crate::attention::layer;
use crate::attention::layer::{copy_backend, AttentionConfig, EmbeddingView, MessageEmbedding};
use crate::attention::receptor;
use crate::failure::{failure, Failure};
use crate::sorted_map::SortedMap;
use crate::text;

verus! {

pub const OPENAI_TEXT_EMBEDDING_3_SMALL_SPACE_ID: &'static str = "openai:text-embedding-3-small:1536:v1";

pub const OPENAI_TEXT_EMBEDDING_3_LARGE_SPACE_ID: &'static str = "openai:text-embedding-3-large:3072:v1";

/// What a sender asks for.
#[derive(Debug, Clone)]
pub struct OutboundEmbeddingRequest {
    pub embeddings: Vec<MessageEmbedding>,
    pub generate_for_spaces: Vec<String>,
    pub generated_embeddings_override_supplied: bool,
}

/// The spaces for which the daemon can generate embeddings.
pub open spec fn supported_space(space_id: Seq<char>) -> bool {
    space_id == OPENAI_TEXT_EMBEDDING_3_SMALL_SPACE_ID@ || space_id
        == OPENAI_TEXT_EMBEDDING_3_LARGE_SPACE_ID@
}

/// Whether the daemon can generate embeddings for a space.
pub fn is_supported_generated_space(space_id: &str) -> (b: bool)
    ensures
        b == supported_space(space_id@),
{
    text::same_text(space_id, OPENAI_TEXT_EMBEDDING_3_SMALL_SPACE_ID) || text::same_text(
        space_id,
        OPENAI_TEXT_EMBEDDING_3_LARGE_SPACE_ID,
    )
}

/// What is wrong with a requested space.
pub open spec fn space_problem(raw: Seq<char>) -> Option<Seq<char>> {
    let space_id = text::trimmed(raw);
    if space_id.len() == 0 {
        Some("generate_for_spaces entries must not be empty"@)
    } else if !supported_space(space_id) {
        Some(
            "unsupported generated embedding space: "@ + space_id + "; supported spaces are "@
                + OPENAI_TEXT_EMBEDDING_3_SMALL_SPACE_ID@ + " and "@
                + OPENAI_TEXT_EMBEDDING_3_LARGE_SPACE_ID@,
        )
    } else {
        None
    }
}

/// The first thing wrong with the requested spaces.
pub open spec fn spaces_problem(spaces: Seq<Seq<char>>) -> Option<Seq<char>>
    decreases spaces.len(),
{
    if spaces.len() == 0 {
        None
    } else if space_problem(spaces[0]) is Some {
        space_problem(spaces[0])
    } else {
        spaces_problem(spaces.skip(1))
    }
}

/// Checks the spaces for which embeddings are to be generated.
pub fn validate_generated_spaces(requested_spaces: &Vec<String>) -> (result: Result<(), Failure>)
    ensures
        receptor::problem(result) == spaces_problem(text::texts(requested_spaces@)),
{
    let ghost all = text::texts(requested_spaces@);
    let mut i: usize = 0;
    assert(all.skip(0) == all);
    while i < requested_spaces.len()
        invariant
            i <= requested_spaces.len(),
            all == text::texts(requested_spaces@),
            spaces_problem(all) == spaces_problem(all.skip(i as int)),
        decreases requested_spaces.len() - i,
    {
        assert(all[i as int] == requested_spaces@[i as int]@);
        let space_id = text::trim(requested_spaces[i].as_str());
        if space_id.is_empty() {
            return Err(failure("generate_for_spaces entries must not be empty"));
        }
        if !is_supported_generated_space(space_id) {
            let mut message = "unsupported generated embedding space: ".to_owned();
            message.append(space_id);
            message.append("; supported spaces are ");
            message.append(OPENAI_TEXT_EMBEDDING_3_SMALL_SPACE_ID);
            message.append(" and ");
            message.append(OPENAI_TEXT_EMBEDDING_3_LARGE_SPACE_ID);
            return Err(Failure { message });
        }
        assert(all.skip(i as int).skip(1) == all.skip(i + 1));
        i = i + 1;
    }
    Ok(())
}

// ---------------------------------------------------------------------------
// Backends that generate embeddings
// ---------------------------------------------------------------------------

/// The backend generates embeddings: it is enabled, its space is supported and its executable is
/// there.
pub open spec fn generates(backend: EmbeddingBackendConfig, available: bool) -> bool {
    backend.enabled && supported_space(backend.default_space_id@) && available
}

/// The place of the last of the first `n` backends that generates embeddings in a space.
pub open spec fn last_generator(
    backends: Seq<EmbeddingBackendConfig>,
    available: Seq<bool>,
    space_id: Seq<char>,
    n: int,
) -> Option<int>
    decreases n,
{
    if n <= 0 {
        None
    } else if generates(backends[n - 1], available[n - 1]) && backends[n - 1].default_space_id@
        == space_id {
        Some(n - 1)
    } else {
        last_generator(backends, available, space_id, n - 1)
    }
}

/// The clients of the backends that generate embeddings, by their spaces. `available` says of each
/// configured backend whether its executable is there. Of several in one space the last counts.
pub fn configured_generated_embedding_clients(
    config: &AttentionConfig,
    available: &Vec<bool>,
) -> (clients: SortedMap<EmbeddingPluginClient>)
    requires
        available@.len() == config.embedding_backends@.len(),
    ensures
        clients.wf(),
        forall|space_id: Seq<char>|
            clients@.dom().contains(space_id) <==> last_generator(
                config.embedding_backends@,
                available@,
                space_id,
                config.embedding_backends@.len() as int,
            ) is Some,
        forall|space_id: Seq<char>| #[trigger]
            clients@.dom().contains(space_id) ==> layer::same_backend(
                clients@[space_id].backend(),
                config.embedding_backends@[last_generator(
                    config.embedding_backends@,
                    available@,
                    space_id,
                    config.embedding_backends@.len() as int,
                )->0],
            ),
{
    let ghost backends = config.embedding_backends@;
    let mut clients: SortedMap<EmbeddingPluginClient> = SortedMap::new();
    let mut i: usize = 0;
    while i < config.embedding_backends.len()
        invariant
            i <= config.embedding_backends.len(),
            available@.len() == config.embedding_backends@.len(),
            backends == config.embedding_backends@,
            clients.wf(),
            forall|space_id: Seq<char>|
                clients@.dom().contains(space_id) <==> last_generator(
                    backends,
                    available@,
                    space_id,
                    i as int,
                ) is Some,
            forall|space_id: Seq<char>| #[trigger]
                clients@.dom().contains(space_id) ==> layer::same_backend(
                    clients@[space_id].backend(),
                    backends[last_generator(backends, available@, space_id, i as int)->0],
                ),
        decreases config.embedding_backends.len() - i,
    {
        let backend = &config.embedding_backends[i];
        if backend.enabled && is_supported_generated_space(backend.default_space_id.as_str())
            && available[i] {
            clients.insert(
                backend.default_space_id.clone(),
                EmbeddingPluginClient::new(copy_backend(backend)),
            );
        }
        i = i + 1;
    }
    clients
}

// ---------------------------------------------------------------------------
// Composition
// ---------------------------------------------------------------------------

/// The sender supplied an embedding in the space.
pub open spec fn supplies(supplied: Seq<EmbeddingView>, space_id: Seq<char>) -> bool {
    exists|i: int| 0 <= i < supplied.len() && (#[trigger] supplied[i]).space_id == space_id
}

/// An embedding is generated in the space: the sender asks for it and does not supply it instead,
/// and a backend generates it.
pub open spec fn to_generate(
    request: OutboundEmbeddingRequest,
    generators: Set<Seq<char>>,
    space_id: Seq<char>,
) -> bool {
    &&& space_id.len() > 0
    &&& exists|i: int|
        0 <= i < request.generate_for_spaces@.len() && text::trimmed(
            (#[trigger] request.generate_for_spaces@[i])@,
        ) == space_id
    &&& request.generated_embeddings_override_supplied || !supplies(
        layer::embeddings(request.embeddings@),
        space_id,
    )
    &&& generators.contains(space_id)
}

/// The spaces in which embeddings are to be generated, in ascending order.
pub fn spaces_to_generate(
    request: &OutboundEmbeddingRequest,
    clients: &SortedMap<EmbeddingPluginClient>,
) -> (spaces: Vec<String>)
    requires
        clients.wf(),
    ensures
        text::ascending(text::texts(spaces@)),
        forall|space_id: Seq<char>|
            text::texts(spaces@).contains(space_id) <==> to_generate(
                *request,
                clients@.dom(),
                space_id,
            ),
{
    let ghost supplied = layer::embeddings(request.embeddings@);
    let mut spaces: Vec<String> = Vec::new();
    let mut i: usize = 0;
    assert(text::texts(spaces@) == Seq::<Seq<char>>::empty());
    while i < request.generate_for_spaces.len()
        invariant
            i <= request.generate_for_spaces.len(),
            clients.wf(),
            supplied == layer::embeddings(request.embeddings@),
            text::ascending(text::texts(spaces@)),
            forall|space_id: Seq<char>|
                text::texts(spaces@).contains(space_id) <==> {
                    &&& to_generate(*request, clients@.dom(), space_id)
                    &&& exists|k: int|
                        0 <= k < i && text::trimmed((#[trigger] request.generate_for_spaces@[k])@)
                            == space_id
                },
        decreases request.generate_for_spaces.len() - i,
    {
        let ghost before = text::texts(spaces@);
        let space_id = text::trim(request.generate_for_spaces[i].as_str());
        assert(text::trimmed(request.generate_for_spaces@[i as int]@) == space_id@);
        let mut is_supplied = false;
        let mut k: usize = 0;
        while k < request.embeddings.len()
            invariant
                k <= request.embeddings.len(),
                supplied == layer::embeddings(request.embeddings@),
                is_supplied == exists|j: int|
                    0 <= j < k && (#[trigger] supplied[j]).space_id == space_id@,
            decreases request.embeddings.len() - k,
        {
            assert(supplied[k as int] == request.embeddings@[k as int]@);
            if text::same_text(request.embeddings[k].space_id.as_str(), space_id) {
                is_supplied = true;
            }
            k = k + 1;
        }
        if !space_id.is_empty() && (request.generated_embeddings_override_supplied || !is_supplied)
            && clients.contains_key(space_id) {
            text::insert_ascending(&mut spaces, space_id.to_owned());
        }
        assert forall|s: Seq<char>|
            text::texts(spaces@).contains(s) <==> {
                &&& to_generate(*request, clients@.dom(), s)
                &&& exists|k: int|
                    0 <= k < i + 1 && text::trimmed((#[trigger] request.generate_for_spaces@[k])@)
                        == s
            } by {
            if text::texts(spaces@).contains(s) && !before.contains(s) {
                assert(text::trimmed(request.generate_for_spaces@[i as int]@) == s);
            }
            if before.contains(s) {
                let k = choose|k: int|
                    0 <= k < i && text::trimmed((#[trigger] request.generate_for_spaces@[k])@) == s;
                assert(text::trimmed(request.generate_for_spaces@[k]@) == s);
            }
        }
        i = i + 1;
    }
    assert forall|s: Seq<char>| to_generate(*request, clients@.dom(), s) implies exists|k: int|
        0 <= k < i && text::trimmed((#[trigger] request.generate_for_spaces@[k])@) == s by {
        let k = choose|k: int|
            0 <= k < request.generate_for_spaces@.len() && text::trimmed(
                (#[trigger] request.generate_for_spaces@[k])@,
            ) == s;
        assert(text::trimmed(request.generate_for_spaces@[k]@) == s);
    }
    spaces
}

/// A table of embeddings by their spaces, with those of `list` put in one after another.
pub open spec fn with_embeddings(
    table: Map<Seq<char>, EmbeddingView>,
    list: Seq<EmbeddingView>,
) -> Map<Seq<char>, EmbeddingView>
    decreases list.len(),
{
    if list.len() == 0 {
        table
    } else {
        with_embeddings(table, list.drop_last()).insert(list.last().space_id, list.last())
    }
}

/// The embeddings that go out, by their spaces. In a space that has both a supplied and a generated
/// embedding, the supplied one is taken, unless the request says otherwise.
pub open spec fn merged(
    supplied: Seq<EmbeddingView>,
    generated: Seq<EmbeddingView>,
    override_supplied: bool,
) -> Map<Seq<char>, EmbeddingView> {
    if override_supplied {
        with_embeddings(with_embeddings(Map::empty(), supplied), generated)
    } else {
        with_embeddings(with_embeddings(Map::empty(), generated), supplied)
    }
}

/// The spaces of a list of embeddings.
pub open spec fn spaces_of(list: Seq<EmbeddingView>) -> Seq<Seq<char>> {
    list.map_values(|e: EmbeddingView| e.space_id)
}

/// `list` holds the embeddings of a table in ascending order of their spaces.
pub open spec fn lists(list: Seq<EmbeddingView>, table: Map<Seq<char>, EmbeddingView>) -> bool {
    &&& text::ascending(spaces_of(list))
    &&& forall|space_id: Seq<char>|
        spaces_of(list).contains(space_id) <==> table.dom().contains(space_id)
    &&& forall|i: int| 0 <= i < list.len() ==> (#[trigger] list[i]) == table[list[i].space_id]
}

fn copy_embedding(e: &MessageEmbedding) -> (copy: MessageEmbedding)
    ensures
        copy@ == e@,
{
    MessageEmbedding { space_id: e.space_id.clone(), vector: copy_vector(&e.vector) }
}

spec fn contents(table: SortedMap<MessageEmbedding>) -> Map<Seq<char>, EmbeddingView> {
    table@.map_values(|e: MessageEmbedding| e@)
}

fn put_all(table: &mut SortedMap<MessageEmbedding>, list: &Vec<MessageEmbedding>)
    requires
        old(table).wf(),
        forall|k: Seq<char>| #[trigger]
            old(table)@.dom().contains(k) ==> old(table)@[k].space_id@ == k,
    ensures
        final(table).wf(),
        contents(*final(table)) == with_embeddings(
            contents(*old(table)),
            layer::embeddings(list@),
        ),
        forall|k: Seq<char>| #[trigger]
            final(table)@.dom().contains(k) ==> final(table)@[k].space_id@ == k,
{
    let ghost first = contents(*table);
    let ghost all = layer::embeddings(list@);
    let mut i: usize = 0;
    assert(all.take(0) == Seq::<EmbeddingView>::empty());
    while i < list.len()
        invariant
            i <= list.len(),
            table.wf(),
            first == contents(*old(table)),
            all == layer::embeddings(list@),
            contents(*table) == with_embeddings(first, all.take(i as int)),
            forall|k: Seq<char>| #[trigger]
                table@.dom().contains(k) ==> table@[k].space_id@ == k,
        decreases list.len() - i,
    {
        let ghost before = *table;
        let copy = copy_embedding(&list[i]);
        let ghost e = copy@;
        table.insert(copy.space_id.clone(), copy);
        assert(contents(*table) =~= contents(before).insert(e.space_id, e));
        assert(all.take(i + 1).drop_last() == all.take(i as int));
        assert(all.take(i + 1).last() == e);
        i = i + 1;
    }
    assert(all.take(all.len() as int) == all);
}

/// Puts supplied and generated embeddings together, one for each space.
pub fn merge_outbound_embeddings(
    supplied_embeddings: &Vec<MessageEmbedding>,
    generated_embeddings: &Vec<MessageEmbedding>,
    generated_embeddings_override_supplied: bool,
) -> (out: Vec<MessageEmbedding>)
    ensures
        lists(
            layer::embeddings(out@),
            merged(
                layer::embeddings(supplied_embeddings@),
                layer::embeddings(generated_embeddings@),
                generated_embeddings_override_supplied,
            ),
        ),
{
    let mut table: SortedMap<MessageEmbedding> = SortedMap::new();
    assert(contents(table) =~= Map::<Seq<char>, EmbeddingView>::empty());
    if generated_embeddings_override_supplied {
        put_all(&mut table, supplied_embeddings);
        put_all(&mut table, generated_embeddings);
    } else {
        put_all(&mut table, generated_embeddings);
        put_all(&mut table, supplied_embeddings);
    }
    let ghost map = contents(table);
    let ghost keys = table.keys();
    proof {
        table.lemma_keys();
    }
    let ghost values = table@;
    let out = table.into_values();
    proof {
        let list = layer::embeddings(out@);
        assert forall|i: int| 0 <= i < list.len() implies (#[trigger] list[i]).space_id == keys[i]
            && list[i] == map[keys[i]] by {
            assert(out@[i] == values[keys[i]]);
            assert(keys.contains(keys[i]));
            assert(values.dom().contains(keys[i]));
        }
        assert(spaces_of(list) == keys);
    }
    out
}

/// The embeddings that go out with a message, once those that the daemon generates are there.
pub fn compose_outbound_embeddings(
    request: &OutboundEmbeddingRequest,
    generated: &Vec<MessageEmbedding>,
) -> (out: Vec<MessageEmbedding>)
    ensures
        lists(
            layer::embeddings(out@),
            merged(
                layer::embeddings(request.embeddings@),
                layer::embeddings(generated@),
                request.generated_embeddings_override_supplied,
            ),
        ),
{
    merge_outbound_embeddings(
        &request.embeddings,
        generated,
        request.generated_embeddings_override_supplied,
    )
}

// ---------------------------------------------------------------------------
// Laws
// ---------------------------------------------------------------------------

proof fn lemma_with_embeddings(
    table: Map<Seq<char>, EmbeddingView>,
    list: Seq<EmbeddingView>,
    space_id: Seq<char>,
)
    ensures
        with_embeddings(table, list).dom().contains(space_id) <==> table.dom().contains(space_id)
            || supplies(list, space_id),
        !supplies(list, space_id) ==> with_embeddings(table, list)[space_id] == table[space_id],
        supplies(list, space_id) ==> exists|i: int|
            0 <= i < list.len() && (#[trigger] list[i]).space_id == space_id && with_embeddings(
                table,
                list,
            )[space_id] == list[i] && forall|j: int|
                i < j < list.len() ==> (#[trigger] list[j]).space_id != space_id,
    decreases list.len(),
{
    if list.len() > 0 {
        let rest = list.drop_last();
        lemma_with_embeddings(table, rest, space_id);
        if list.last().space_id == space_id {
            assert(list[list.len() - 1].space_id == space_id);
        } else {
            if supplies(list, space_id) {
                let i = choose|i: int|
                    0 <= i < list.len() && (#[trigger] list[i]).space_id == space_id;
                assert(rest[i].space_id == space_id);
            }
            if supplies(rest, space_id) {
                let i = choose|i: int|
                    0 <= i < rest.len() && (#[trigger] rest[i]).space_id == space_id
                        && with_embeddings(table, rest)[space_id] == rest[i] && forall|j: int|
                        i < j < rest.len() ==> (#[trigger] rest[j]).space_id != space_id;
                assert(list[i].space_id == space_id);
                assert forall|j: int| i < j < list.len() implies (#[trigger] list[j]).space_id
                    != space_id by {
                    if j < rest.len() {
                        assert(rest[j] == list[j]);
                    }
                }
            }
        }
    }
}

/// Supplied embeddings win by default: in a space for which the sender supplied an embedding, the
/// last one supplied goes out as it is.
pub proof fn law_supplied_embeddings_win(
    supplied: Seq<EmbeddingView>,
    generated: Seq<EmbeddingView>,
    space_id: Seq<char>,
)
    requires
        supplies(supplied, space_id),
    ensures
        exists|i: int|
            0 <= i < supplied.len() && (#[trigger] supplied[i]).space_id == space_id && merged(
                supplied,
                generated,
                false,
            )[space_id] == supplied[i] && forall|j: int|
                i < j < supplied.len() ==> (#[trigger] supplied[j]).space_id != space_id,
{
    lemma_with_embeddings(
        with_embeddings(Map::empty(), generated),
        supplied,
        space_id,
    );
}

/// Generated embeddings win where the request says so: in a space for which one was generated, the
/// last one generated goes out as it is.
pub proof fn law_generated_embeddings_can_win(
    supplied: Seq<EmbeddingView>,
    generated: Seq<EmbeddingView>,
    space_id: Seq<char>,
)
    requires
        supplies(generated, space_id),
    ensures
        exists|i: int|
            0 <= i < generated.len() && (#[trigger] generated[i]).space_id == space_id && merged(
                supplied,
                generated,
                true,
            )[space_id] == generated[i] && forall|j: int|
                i < j < generated.len() ==> (#[trigger] generated[j]).space_id != space_id,
{
    lemma_with_embeddings(
        with_embeddings(Map::empty(), supplied),
        generated,
        space_id,
    );
}

/// An embedding goes out in a space exactly if one was supplied or generated there.
pub proof fn law_merge_keeps_all_spaces(
    supplied: Seq<EmbeddingView>,
    generated: Seq<EmbeddingView>,
    override_supplied: bool,
    space_id: Seq<char>,
)
    ensures
        merged(supplied, generated, override_supplied).dom().contains(space_id) <==> supplies(
            supplied,
            space_id,
        ) || supplies(generated, space_id),
{
    let (first, second) = if override_supplied {
        (supplied, generated)
    } else {
        (generated, supplied)
    };
    lemma_with_embeddings(Map::empty(), first, space_id);
    lemma_with_embeddings(with_embeddings(Map::empty(), first), second, space_id);
}

/// A request for embeddings is refused exactly if one of its spaces is not one of the two that the
/// daemon can generate embeddings for.
pub proof fn law_spaces_are_accepted(spaces: Seq<Seq<char>>)
    ensures
        spaces_problem(spaces) is None <==> forall|i: int|
            0 <= i < spaces.len() ==> (text::trimmed(#[trigger] spaces[i])
                == "openai:text-embedding-3-small:1536:v1"@ || text::trimmed(spaces[i])
                == "openai:text-embedding-3-large:3072:v1"@),
    decreases spaces.len(),
{
    reveal_strlit("openai:text-embedding-3-small:1536:v1");
    reveal_strlit("openai:text-embedding-3-large:3072:v1");
    assert("openai:text-embedding-3-small:1536:v1"@.len() > 0);
    assert("openai:text-embedding-3-large:3072:v1"@.len() > 0);
    if spaces.len() > 0 {
        let rest = spaces.skip(1);
        law_spaces_are_accepted(rest);
        assert(forall|i: int| 0 <= i < rest.len() ==> #[trigger] rest[i] == spaces[i + 1]);
        assert(forall|i: int| 1 <= i < spaces.len() ==> #[trigger] spaces[i] == rest[i - 1]);
        assert(space_problem(spaces[0]) is None <==> supported_space(text::trimmed(spaces[0])));
    }
}

/// A space has a generator exactly if some backend for it is enabled and there; the last of them is
/// taken.
pub proof fn law_last_generator_is_taken(
    backends: Seq<EmbeddingBackendConfig>,
    available: Seq<bool>,
    space_id: Seq<char>,
    n: int,
)
    requires
        0 <= n <= backends.len(),
        backends.len() == available.len(),
    ensures
        last_generator(backends, available, space_id, n) is Some <==> supported_space(space_id)
            && exists|i: int|
            0 <= i < n && (#[trigger] backends[i]).enabled && available[i]
                && backends[i].default_space_id@ == space_id,
        last_generator(backends, available, space_id, n) matches Some(k) ==> 0 <= k < n
            && backends[k].enabled && available[k] && backends[k].default_space_id@ == space_id
            && forall|i: int|
            k < i < n ==> !((#[trigger] backends[i]).enabled && available[i]
                && backends[i].default_space_id@ == space_id),
    decreases n,
{
    if n > 0 {
        law_last_generator_is_taken(backends, available, space_id, n - 1);
        assert(backends[n - 1].enabled || !backends[n - 1].enabled);
    }
}

/// An embedding is generated for a space that was asked for and has a generator, unless the sender has
/// supplied one and wants to keep it.
pub proof fn law_wanted_embeddings_are_generated(
    request: OutboundEmbeddingRequest,
    generators: Set<Seq<char>>,
    i: int,
)
    requires
        0 <= i < request.generate_for_spaces@.len(),
    ensures
        ({
            let space_id = text::trimmed(request.generate_for_spaces@[i]@);
            let kept = !request.generated_embeddings_override_supplied && exists|k: int|
                0 <= k < request.embeddings@.len() && (#[trigger] request.embeddings@[k])@.space_id
                    == space_id;
            space_id.len() > 0 && generators.contains(space_id) ==> (to_generate(
                request,
                generators,
                space_id,
            ) <==> !kept)
        }),
        forall|space_id: Seq<char>| #[trigger]
            to_generate(request, generators, space_id) ==> generators.contains(space_id) && exists|
                k: int,
            |
                0 <= k < request.generate_for_spaces@.len() && text::trimmed(
                    (#[trigger] request.generate_for_spaces@[k])@,
                ) == space_id,
{
    let list = layer::embeddings(request.embeddings@);
    let space_id = text::trimmed(request.generate_for_spaces@[i]@);
    assert(forall|k: int|
        0 <= k < list.len() ==> #[trigger] list[k] == request.embeddings@[k]@);
    assert(forall|k: int|
        0 <= k < list.len() ==> (#[trigger] request.embeddings@[k])@ == list[k]);
    if supplies(list, space_id) {
        let k = choose|k: int| 0 <= k < list.len() && (#[trigger] list[k]).space_id == space_id;
        assert(request.embeddings@[k]@.space_id == space_id);
    }
}

/// The embeddings of a message are sent in the order of their spaces, one for each.
pub proof fn law_each_space_is_sent_once(
    list: Seq<EmbeddingView>,
    table: Map<Seq<char>, EmbeddingView>,
    space_id: Seq<char>,
)
    requires
        lists(list, table),
    ensures
        text::ascending(spaces_of(list)),
        forall|i: int, j: int|
            0 <= i < j < list.len() ==> (#[trigger] list[i]).space_id != (
            #[trigger] list[j]).space_id,
        table.dom().contains(space_id) ==> list.contains(table[space_id]),
        forall|i: int|
            0 <= i < list.len() ==> table.dom().contains((#[trigger] list[i]).space_id)
                && table[list[i].space_id] == list[i],
{
    let spaces = spaces_of(list);
    text::lemma_ascending_distinct(spaces);
    assert forall|i: int, j: int| 0 <= i < j < list.len() implies (#[trigger] list[i]).space_id != (
    #[trigger] list[j]).space_id by {
        assert(spaces[i] == list[i].space_id && spaces[j] == list[j].space_id);
    }
    assert forall|i: int| 0 <= i < list.len() implies table.dom().contains(
        (#[trigger] list[i]).space_id,
    ) && table[list[i].space_id] == list[i] by {
        assert(spaces[i] == list[i].space_id);
        assert(spaces.contains(spaces[i]));
    }
    if table.dom().contains(space_id) {
        assert(spaces.contains(space_id));
        let i = choose|i: int| 0 <= i < spaces.len() && spaces[i] == space_id;
        assert(list[i].space_id == space_id);
        assert(list.contains(list[i]));
    }
}

} // verus!
