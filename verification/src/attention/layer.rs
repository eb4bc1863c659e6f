//! The attention layer: from the receptors of a server to the decision on a message.
//!
//! Embeddings and similarity scores are computed outside. The layer says which ones it needs, and
//! decides once it has them.

use vstd::prelude::*;

use crate::attention::embedding_plugin;
use crate::attention::embedding_plugin::{
    copy_vector, EmbeddingBackendConfig, EmbeddingPluginClient,
};
use crate::attention::receptor;
use crate::attention::receptor::{
    ComputedReceptor, DefinitionView, ReceptorClass, ReceptorDefinition, ReceptorView,
};
use crate::attention::similarity;
use crate::lists;
use crate::text;

verus! {

/// Configuration for the attention layer.
#[derive(Debug, Clone)]
pub struct AttentionConfig {
    /// Paths to receptor pack files or directories.
    pub local_pack_paths: Vec<String>,
    /// Configured embedding backends.
    pub embedding_backends: Vec<EmbeddingBackendConfig>,
    /// The threshold of receptors that name none: the bits of a single-precision number.
    pub threshold: u32,
}

impl Default for AttentionConfig {
    fn default() -> (config: Self)
        ensures
            config.local_pack_paths@.len() == 0,
            config.embedding_backends@.len() == 0,
            config.threshold == similarity::DEFAULT_THRESHOLD,
    {
        AttentionConfig {
            local_pack_paths: Vec::new(),
            embedding_backends: Vec::new(),
            threshold: similarity::DEFAULT_THRESHOLD,
        }
    }
}

/// A vector that stands for a message in an embedding space.
#[derive(Debug, Clone)]
pub struct MessageEmbedding {
    pub space_id: String,
    /// Each component as the bits of a single-precision number.
    pub vector: Vec<u32>,
}

pub struct EmbeddingView {
    pub space_id: Seq<char>,
    pub vector: Seq<u32>,
}

impl View for MessageEmbedding {
    type V = EmbeddingView;

    open spec fn view(&self) -> EmbeddingView {
        EmbeddingView { space_id: self.space_id@, vector: self.vector@ }
    }
}

pub open spec fn embeddings(list: Seq<MessageEmbedding>) -> Seq<EmbeddingView> {
    list.map_values(|e: MessageEmbedding| e@)
}

/// How a message fared with one receptor.
#[derive(Debug, Clone)]
pub struct ReceptorMatch {
    pub receptor_id: String,
    pub class: ReceptorClass,
    /// The bits of a single-precision number.
    pub score: u32,
    /// The bits of a single-precision number.
    pub threshold: u32,
    pub above_threshold: bool,
}

pub struct MatchView {
    pub receptor_id: Seq<char>,
    pub class: ReceptorClass,
    pub score: u32,
    pub threshold: u32,
    pub above_threshold: bool,
}

impl View for ReceptorMatch {
    type V = MatchView;

    open spec fn view(&self) -> MatchView {
        MatchView {
            receptor_id: self.receptor_id@,
            class: self.class,
            score: self.score,
            threshold: self.threshold,
            above_threshold: self.above_threshold,
        }
    }
}

pub open spec fn match_views(list: Seq<ReceptorMatch>) -> Seq<MatchView> {
    list.map_values(|m: ReceptorMatch| m@)
}

/// Why a message is delivered or not.
#[derive(Debug, Clone, Copy, PartialEq, Eq, Structural)]
pub enum AttentionDisposition {
    Deliver,
    /// A veto receptor matched.
    Vetoed,
    /// Veto receptors are configured and cannot be evaluated.
    VetoEnforcementUnavailable,
    /// No receptor could accept the message. The layer never decides so: where no receptor can accept
    /// a message, it is accepted by the fallback.
    NoActiveReceptor,
    /// No receptor matched.
    Filtered,
    /// The message could not be compared with the receptors.
    EvaluationUnavailable,
}

/// The result of evaluating a message against all receptors.
#[derive(Debug, Clone)]
pub struct AttentionResult {
    /// Whether the message should be delivered.
    pub deliver: bool,
    pub disposition: AttentionDisposition,
    /// All receptor matches (even those below threshold).
    pub matches: Vec<ReceptorMatch>,
    /// The space_id used for comparison, if any.
    pub space_id: Option<String>,
    /// Whether this was a fallback decision.
    pub fallback: bool,
    /// Whether a veto receptor could not be compared with the message.
    pub veto_not_evaluated: bool,
}

pub struct ResultView {
    pub deliver: bool,
    pub disposition: AttentionDisposition,
    pub matches: Seq<MatchView>,
    pub space_id: Option<Seq<char>>,
    pub fallback: bool,
    pub veto_not_evaluated: bool,
}

impl View for AttentionResult {
    type V = ResultView;

    open spec fn view(&self) -> ResultView {
        ResultView {
            deliver: self.deliver,
            disposition: self.disposition,
            matches: match_views(self.matches@),
            space_id: text::opt_text(self.space_id),
            fallback: self.fallback,
            veto_not_evaluated: self.veto_not_evaluated,
        }
    }
}

/// The attention layer handles receptor-based message filtering.
#[derive(Debug, Clone)]
pub struct AttentionLayer {
    /// Receptors ready for matching.
    pub receptors: Vec<ComputedReceptor>,
    /// Embedding plugin client, if available.
    pub plugin: Option<EmbeddingPluginClient>,
    /// The active space_id.
    pub space_id: Option<String>,
    /// Whether the layer is in degraded mode.
    pub degraded: bool,
}

pub struct LayerView {
    pub receptors: Seq<ReceptorView>,
    pub has_plugin: bool,
    pub space_id: Option<Seq<char>>,
    pub degraded: bool,
}

impl View for AttentionLayer {
    type V = LayerView;

    open spec fn view(&self) -> LayerView {
        LayerView {
            receptors: receptor::receptor_views(self.receptors@),
            has_plugin: self.plugin is Some,
            space_id: text::opt_text(self.space_id),
            degraded: self.degraded,
        }
    }
}

// ---------------------------------------------------------------------------
// Backends
// ---------------------------------------------------------------------------

/// The place of the first enabled backend.
pub open spec fn first_enabled(backends: Seq<EmbeddingBackendConfig>) -> Option<int>
    decreases backends.len(),
{
    if backends.len() == 0 {
        None
    } else if backends[0].enabled {
        Some(0)
    } else {
        match first_enabled(backends.skip(1)) {
            Some(i) => Some(i + 1),
            None => None,
        }
    }
}

/// The first enabled backend.
pub fn first_enabled_backend(backends: &Vec<EmbeddingBackendConfig>) -> (found: Option<usize>)
    ensures
        found is Some <==> first_enabled(backends@) is Some,
        found matches Some(i) ==> first_enabled(backends@) == Some(i as int) && i < backends.len()
            && backends@[i as int].enabled,
{
    let mut i: usize = 0;
    assert(backends@.skip(0) == backends@);
    while i < backends.len()
        invariant
            i <= backends.len(),
            first_enabled(backends@) is Some <==> first_enabled(backends@.skip(i as int)) is Some,
            first_enabled(backends@.skip(i as int)) matches Some(k) ==> first_enabled(backends@)
                == Some(k + i),
        decreases backends.len() - i,
    {
        if backends[i].enabled {
            return Some(i);
        }
        assert(backends@.skip(i as int).skip(1) == backends@.skip(i + 1));
        i = i + 1;
    }
    None
}

/// The place of the first enabled backend that embeds in the given space.
pub open spec fn serving(backends: Seq<EmbeddingBackendConfig>, space_id: Seq<char>) -> Option<int>
    decreases backends.len(),
{
    if backends.len() == 0 {
        None
    } else if backends[0].enabled && backends[0].default_space_id@ == space_id {
        Some(0)
    } else {
        match serving(backends.skip(1), space_id) {
            Some(i) => Some(i + 1),
            None => None,
        }
    }
}

/// The first enabled backend that embeds in the given space.
pub fn serving_backend(backends: &Vec<EmbeddingBackendConfig>, space_id: &str) -> (found: Option<
    usize,
>)
    ensures
        found is Some <==> serving(backends@, space_id@) is Some,
        found matches Some(i) ==> serving(backends@, space_id@) == Some(i as int) && i
            < backends.len() && backends@[i as int].enabled
            && backends@[i as int].default_space_id@ == space_id@,
{
    let mut i: usize = 0;
    assert(backends@.skip(0) == backends@);
    while i < backends.len()
        invariant
            i <= backends.len(),
            serving(backends@, space_id@) is Some <==> serving(
                backends@.skip(i as int),
                space_id@,
            ) is Some,
            serving(backends@.skip(i as int), space_id@) matches Some(k) ==> serving(
                backends@,
                space_id@,
            ) == Some(k + i),
        decreases backends.len() - i,
    {
        if backends[i].enabled && text::same_text(
            backends[i].default_space_id.as_str(),
            space_id,
        ) {
            return Some(i);
        }
        assert(backends@.skip(i as int).skip(1) == backends@.skip(i + 1));
        i = i + 1;
    }
    None
}

/// The spaces in which an enabled backend embeds.
pub open spec fn served_spaces(backends: Seq<EmbeddingBackendConfig>) -> Set<Seq<char>> {
    Set::new(|space_id: Seq<char>| serving(backends, space_id) is Some)
}

/// Two backends with the same settings.
pub open spec fn same_backend(a: EmbeddingBackendConfig, b: EmbeddingBackendConfig) -> bool {
    &&& a.backend_id == b.backend_id
    &&& a.exec_path == b.exec_path
    &&& a.args@ == b.args@
    &&& a.default_space_id == b.default_space_id
    &&& a.enabled == b.enabled
    &&& a.env@ == b.env@
}

/// A copy of a backend configuration.
pub fn copy_backend(backend: &EmbeddingBackendConfig) -> (copy: EmbeddingBackendConfig)
    ensures
        same_backend(copy, *backend),
{
    EmbeddingBackendConfig {
        backend_id: backend.backend_id.clone(),
        exec_path: backend.exec_path.clone(),
        args: text::copy_list(&backend.args),
        default_space_id: backend.default_space_id.clone(),
        enabled: backend.enabled,
        env: text::copy_pairs(&backend.env),
    }
}

// ---------------------------------------------------------------------------
// Making a layer
// ---------------------------------------------------------------------------

/// The query of a receptor that has to be embedded, without the white space around it.
pub open spec fn query_of(d: DefinitionView) -> Option<Seq<char>> {
    if d.class == ReceptorClass::Wildcard || text::trimmed(d.query).len() == 0 {
        None
    } else {
        Some(text::trimmed(d.query))
    }
}

/// The space in which a receptor is compared: its own or, where it names none, that of the layer.
pub open spec fn space_of(d: DefinitionView, layer_space: Seq<char>) -> Seq<char> {
    match d.space_id {
        Some(own) => own,
        None => layer_space,
    }
}

/// A query that has to be embedded, and the space in which it is.
#[derive(Debug, Clone)]
pub struct ReceptorQuery {
    pub query: String,
    pub space_id: String,
}

pub struct QueryView {
    pub query: Seq<char>,
    pub space_id: Seq<char>,
}

impl View for ReceptorQuery {
    type V = QueryView;

    open spec fn view(&self) -> QueryView {
        QueryView { query: self.query@, space_id: self.space_id@ }
    }
}

pub open spec fn query_views(list: Seq<ReceptorQuery>) -> Seq<QueryView> {
    list.map_values(|q: ReceptorQuery| q@)
}

/// The queries that have to be embedded, in the order of the receptors. `layer_space` is the space
/// of the layer; without one, nothing is embedded.
pub open spec fn queries_of(defs: Seq<DefinitionView>, layer_space: Option<Seq<char>>) -> Seq<
    QueryView,
>
    decreases defs.len(),
{
    if defs.len() == 0 || layer_space is None {
        Seq::empty()
    } else {
        let before = queries_of(defs.drop_last(), layer_space);
        match query_of(defs.last()) {
            Some(query) => before.push(
                QueryView { query, space_id: space_of(defs.last(), layer_space->0) },
            ),
            None => before,
        }
    }
}

/// The queries that have to be embedded before a layer can be made, each with the space in which it
/// is to be embedded, in the order of the receptors. `layer_space` is the space of the first enabled
/// backend, if its executable is there.
pub fn receptor_queries(
    definitions: &Vec<ReceptorDefinition>,
    layer_space: &Option<String>,
) -> (queries: Vec<ReceptorQuery>)
    ensures
        query_views(queries@) == queries_of(
            receptor::definitions(definitions@),
            text::opt_text(*layer_space),
        ),
{
    let ghost defs = receptor::definitions(definitions@);
    let ghost space = text::opt_text(*layer_space);
    let mut queries: Vec<ReceptorQuery> = Vec::new();
    let default_space = match layer_space {
        Some(default_space) => default_space.as_str(),
        None => {
            assert(query_views(queries@) == Seq::<QueryView>::empty());
            return queries;
        },
    };
    let mut i: usize = 0;
    assert(query_views(queries@) == queries_of(defs.take(0), space));
    while i < definitions.len()
        invariant
            i <= definitions.len(),
            defs == receptor::definitions(definitions@),
            space == Some(default_space@),
            query_views(queries@) == queries_of(defs.take(i as int), space),
        decreases definitions.len() - i,
    {
        let query = text::trim(definitions[i].query.as_str());
        assert(defs.take(i + 1).drop_last() == defs.take(i as int));
        assert(defs.take(i + 1).last() == definitions@[i as int]@);
        if definitions[i].class != ReceptorClass::Wildcard && !query.is_empty() {
            let ghost before = query_views(queries@);
            let space_id = match &definitions[i].space_id {
                Some(own) => own.clone(),
                None => default_space.to_owned(),
            };
            let asked = ReceptorQuery { query: query.to_owned(), space_id };
            queries.push(asked);
            assert(query_views(queries@) == before.push(asked@));
        }
        i = i + 1;
    }
    assert(defs.take(defs.len() as int) == defs);
    queries
}

/// The threshold of a receptor.
pub open spec fn threshold_of(d: DefinitionView, default_threshold: u32) -> u32 {
    match d.threshold {
        Some(t) => t,
        None => default_threshold,
    }
}

/// The receptor that is compared with nothing.
pub open spec fn bare_receptor(d: DefinitionView, default_threshold: u32) -> ReceptorView {
    ReceptorView {
        receptor_id: d.receptor_id,
        class: d.class,
        threshold: threshold_of(d, default_threshold),
        vector: None,
        space_id: None,
    }
}

/// The receptor whose query has been embedded.
pub open spec fn embedded_receptor(
    d: DefinitionView,
    default_threshold: u32,
    vector: Seq<u32>,
    layer_space: Seq<char>,
) -> ReceptorView {
    ReceptorView {
        receptor_id: d.receptor_id,
        class: d.class,
        threshold: threshold_of(d, default_threshold),
        vector: Some(vector),
        space_id: Some(space_of(d, layer_space)),
    }
}

/// What a definition leaves behind whose query is not embedded: a veto stays, without a vector.
pub open spec fn left_over(
    made: Seq<ReceptorView>,
    d: DefinitionView,
    default_threshold: u32,
) -> Seq<ReceptorView> {
    if d.class == ReceptorClass::Veto {
        made.push(bare_receptor(d, default_threshold))
    } else {
        made
    }
}

/// The receptors that definitions give, made with the embeddings of their queries in order, as far
/// as these go and lie in spaces that a backend serves. From the first query on that is not
/// embedded, only the vetoes are kept. The second part says how many embeddings were used; the
/// third, whether they sufficed. Without a space of the layer nothing is embedded.
pub open spec fn computed(
    defs: Seq<DefinitionView>,
    layer_space: Option<Seq<char>>,
    default_threshold: u32,
    served: Set<Seq<char>>,
    vectors: Seq<Seq<u32>>,
) -> (Seq<ReceptorView>, int, bool)
    decreases defs.len(),
{
    if defs.len() == 0 {
        (Seq::empty(), 0, true)
    } else {
        let (made, used, complete) = computed(
            defs.drop_last(),
            layer_space,
            default_threshold,
            served,
            vectors,
        );
        let d = defs.last();
        if layer_space is None || (complete && d.class == ReceptorClass::Wildcard) {
            (made.push(bare_receptor(d, default_threshold)), used, complete)
        } else if !complete {
            (left_over(made, d, default_threshold), used, false)
        } else if query_of(d) is None && d.class != ReceptorClass::Veto {
            (made, used, true)
        } else if query_of(d) is Some && used < vectors.len() && served.contains(
            space_of(d, layer_space->0),
        ) {
            (
                made.push(embedded_receptor(d, default_threshold, vectors[used], layer_space->0)),
                used + 1,
                true,
            )
        } else {
            (left_over(made, d, default_threshold), used, false)
        }
    }
}

/// What is known when a layer is made.
pub struct LayerInputs {
    /// The space of the first enabled backend; nothing where none is enabled.
    pub backend_space: Option<Seq<char>>,
    /// Whether the executable of that backend is there.
    pub backend_available: bool,
    /// The spaces in which an enabled backend embeds.
    pub served: Set<Seq<char>>,
    /// Whether receptor packs are configured.
    pub packs_configured: bool,
    pub threshold: u32,
    /// The loaded receptor definitions; nothing where loading failed.
    pub definitions: Option<Seq<DefinitionView>>,
    /// The embeddings of the queries, in order, up to the first that failed.
    pub vectors: Seq<Seq<u32>>,
}

/// The layer that is made.
pub open spec fn layer_of(inputs: LayerInputs) -> LayerView {
    let has_plugin = inputs.backend_space is Some && inputs.backend_available;
    let space_id = if has_plugin {
        inputs.backend_space
    } else {
        None
    };
    let backend_missing = match inputs.backend_space {
        Some(_) => !inputs.backend_available,
        None => inputs.packs_configured,
    };
    if !inputs.packs_configured {
        LayerView { receptors: Seq::empty(), has_plugin, space_id, degraded: backend_missing }
    } else {
        match inputs.definitions {
            None => LayerView { receptors: Seq::empty(), has_plugin, space_id, degraded: true },
            Some(defs) => {
                let (made, _, complete) = computed(
                    defs,
                    space_id,
                    inputs.threshold,
                    inputs.served,
                    inputs.vectors,
                );
                LayerView {
                    receptors: made,
                    has_plugin,
                    space_id,
                    degraded: backend_missing || !complete,
                }
            },
        }
    }
}

/// The space of the first enabled backend.
pub open spec fn backend_space(backends: Seq<EmbeddingBackendConfig>) -> Option<Seq<char>> {
    match first_enabled(backends) {
        Some(i) => Some(backends[i].default_space_id@),
        None => None,
    }
}

pub open spec fn opt_definitions(list: Option<Vec<ReceptorDefinition>>) -> Option<
    Seq<DefinitionView>,
> {
    match list {
        Some(defs) => Some(receptor::definitions(defs@)),
        None => None,
    }
}

// ---------------------------------------------------------------------------
// Evaluating a message
// ---------------------------------------------------------------------------

pub open spec fn has_class(receptors: Seq<ReceptorView>, class: ReceptorClass) -> bool {
    exists|i: int| 0 <= i < receptors.len() && (#[trigger] receptors[i]).class == class
}

/// The place of the first wildcard receptor.
pub open spec fn first_wildcard(receptors: Seq<ReceptorView>) -> Option<int>
    decreases receptors.len(),
{
    if receptors.len() == 0 {
        None
    } else if receptors[0].class == ReceptorClass::Wildcard {
        Some(0)
    } else {
        match first_wildcard(receptors.skip(1)) {
            Some(i) => Some(i + 1),
            None => None,
        }
    }
}

proof fn lemma_first_wildcard(receptors: Seq<ReceptorView>)
    ensures
        first_wildcard(receptors) is Some <==> has_class(receptors, ReceptorClass::Wildcard),
        first_wildcard(receptors) matches Some(i) ==> 0 <= i < receptors.len()
            && receptors[i].class == ReceptorClass::Wildcard && forall|j: int|
            0 <= j < i ==> (#[trigger] receptors[j]).class != ReceptorClass::Wildcard,
    decreases receptors.len(),
{
    if receptors.len() > 0 && receptors[0].class != ReceptorClass::Wildcard {
        let rest = receptors.skip(1);
        lemma_first_wildcard(rest);
        if has_class(receptors, ReceptorClass::Wildcard) {
            let i = choose|i: int|
                0 <= i < receptors.len() && (#[trigger] receptors[i]).class
                    == ReceptorClass::Wildcard;
            assert(rest[i - 1].class == ReceptorClass::Wildcard);
        }
        if let Some(k) = first_wildcard(rest) {
            assert(rest[k].class == ReceptorClass::Wildcard);
            assert(receptors[k + 1].class == ReceptorClass::Wildcard);
            assert forall|j: int| 0 <= j < k + 1 implies (#[trigger] receptors[j]).class
                != ReceptorClass::Wildcard by {
                if j > 0 {
                    assert(receptors[j] == rest[j - 1]);
                }
            }
        }
    }
}

/// Where the vector comes from with which a message is compared with a receptor.
#[derive(Debug, Clone, Copy, PartialEq, Eq, Structural)]
pub enum VectorSource {
    /// No vector is needed: the receptor is compared with nothing, or the decision on every message
    /// is the same.
    NotNeeded,
    /// From the embedding at this place among those that the sender supplied.
    Supplied(usize),
    /// From the embedding plugin.
    Plugin,
    /// There is none.
    Unavailable,
}

/// The place of the first supplied embedding in the given space.
pub open spec fn embedding_in(supplied: Seq<EmbeddingView>, space_id: Seq<char>) -> Option<int>
    decreases supplied.len(),
{
    if supplied.len() == 0 {
        None
    } else if supplied[0].space_id == space_id {
        Some(0)
    } else {
        match embedding_in(supplied.skip(1), space_id) {
            Some(i) => Some(i + 1),
            None => None,
        }
    }
}

proof fn lemma_embedding_in(supplied: Seq<EmbeddingView>, space_id: Seq<char>)
    ensures
        embedding_in(supplied, space_id) matches Some(k) ==> 0 <= k < supplied.len()
            && supplied[k].space_id == space_id,
    decreases supplied.len(),
{
    if supplied.len() > 0 {
        lemma_embedding_in(supplied.skip(1), space_id);
    }
}

/// The decision on every message is the same.
pub open spec fn decides_alone(layer: LayerView) -> bool {
    ||| layer.receptors.len() == 0
    ||| layer.degraded
    ||| (has_class(layer.receptors, ReceptorClass::Wildcard) && !has_class(
        layer.receptors,
        ReceptorClass::Veto,
    ))
}

/// Where the vector comes from with which a message is compared with a receptor: from the first
/// supplied embedding in the space of the receptor or, in the space of the layer, from the plugin.
pub open spec fn source_for(
    layer: LayerView,
    r: ReceptorView,
    supplied: Seq<EmbeddingView>,
) -> VectorSource {
    if decides_alone(layer) || r.vector is None {
        VectorSource::NotNeeded
    } else if r.space_id is Some && embedding_in(supplied, r.space_id->0) is Some {
        VectorSource::Supplied(embedding_in(supplied, r.space_id->0)->0 as usize)
    } else if r.space_id is Some && layer.has_plugin && layer.space_id == r.space_id {
        VectorSource::Plugin
    } else {
        VectorSource::Unavailable
    }
}

/// Where the vectors come from with which a message is compared with the receptors, in their order.
pub open spec fn sources_of(layer: LayerView, supplied: Seq<EmbeddingView>) -> Seq<VectorSource> {
    layer.receptors.map_values(|r: ReceptorView| source_for(layer, r, supplied))
}

/// What has been found out about a message.
#[derive(Debug, Clone)]
pub struct Evidence {
    /// The similarity of the message to each receptor, in the order of the receptors, as the bits of
    /// a single-precision number; nothing where they could not be compared.
    pub scores: Vec<Option<u32>>,
    /// Whether the embedding plugin was needed and gave no vector.
    pub backend_failed: bool,
}

pub struct EvidenceView {
    pub scores: Seq<Option<u32>>,
    pub backend_failed: bool,
}

impl View for Evidence {
    type V = EvidenceView;

    open spec fn view(&self) -> EvidenceView {
        EvidenceView { scores: self.scores@, backend_failed: self.backend_failed }
    }
}

/// The similarity of the message to the receptor number `i`, where they could be compared.
pub open spec fn score_at(
    receptors: Seq<ReceptorView>,
    scores: Seq<Option<u32>>,
    i: int,
) -> Option<u32> {
    if receptors[i].vector is Some && i < scores.len() {
        scores[i]
    } else {
        None
    }
}

/// How a message with the given score fares with a receptor.
pub open spec fn match_of(r: ReceptorView, score: u32) -> MatchView {
    MatchView {
        receptor_id: r.receptor_id,
        class: r.class,
        score,
        threshold: r.threshold,
        above_threshold: similarity::at_least(score, r.threshold),
    }
}

/// How a message fares with the receptors that it was compared with, in their order; with the veto
/// receptors only, or with all.
pub open spec fn matches_of(
    receptors: Seq<ReceptorView>,
    scores: Seq<Option<u32>>,
    veto_only: bool,
) -> Seq<MatchView>
    decreases receptors.len(),
{
    if receptors.len() == 0 {
        Seq::empty()
    } else {
        let before = matches_of(receptors.drop_last(), scores, veto_only);
        let r = receptors.last();
        match score_at(receptors, scores, receptors.len() - 1) {
            Some(score) => if !veto_only || r.class == ReceptorClass::Veto {
                before.push(match_of(r, score))
            } else {
                before
            },
            None => before,
        }
    }
}

/// The space of the first receptor that the message was compared with.
pub open spec fn compared_space(
    receptors: Seq<ReceptorView>,
    scores: Seq<Option<u32>>,
) -> Option<Seq<char>>
    decreases receptors.len(),
{
    if receptors.len() == 0 {
        None
    } else {
        match compared_space(receptors.drop_last(), scores) {
            Some(space_id) => Some(space_id),
            None => if score_at(receptors, scores, receptors.len() - 1) is Some {
                receptors.last().space_id
            } else {
                None
            },
        }
    }
}

pub open spec fn opt_vector(vector: Option<Vec<u32>>) -> Option<Seq<u32>> {
    match vector {
        Some(vector) => Some(vector@),
        None => None,
    }
}

/// The vector that a source gives; `generated` is what the plugin gave.
pub open spec fn message_vector(
    source: VectorSource,
    supplied: Seq<EmbeddingView>,
    generated: Option<Seq<u32>>,
) -> Option<Seq<u32>> {
    match source {
        VectorSource::Supplied(k) => Some(supplied[k as int].vector),
        VectorSource::Plugin => generated,
        _ => None,
    }
}

/// `similarity` may give `score` for two vectors.
pub open spec fn gives<F: Fn(&Vec<u32>, &Vec<u32>) -> u32>(
    similarity: F,
    a: Seq<u32>,
    b: Seq<u32>,
    score: u32,
) -> bool {
    exists|x: &Vec<u32>, y: &Vec<u32>|
        x@ == a && y@ == b && #[trigger] call_ensures(similarity, (x, y), score)
}

/// The plugin is needed to compare the message with some receptor.
pub open spec fn plugin_needed(layer: LayerView, supplied: Seq<EmbeddingView>) -> bool {
    exists|i: int|
        0 <= i < layer.receptors.len() && source_for(
            layer,
            #[trigger] layer.receptors[i],
            supplied,
        ) == VectorSource::Plugin
}

/// The evidence is what comparing the message with the receptors gives: each with the vector from
/// its source, none where the source gives no vector.
pub open spec fn gathered<F: Fn(&Vec<u32>, &Vec<u32>) -> u32>(
    layer: LayerView,
    supplied: Seq<EmbeddingView>,
    generated: Option<Seq<u32>>,
    similarity: F,
    evidence: EvidenceView,
) -> bool {
    &&& evidence.scores.len() == layer.receptors.len()
    &&& evidence.backend_failed == (generated is None && plugin_needed(layer, supplied))
    &&& forall|i: int|
        0 <= i < layer.receptors.len() ==> match message_vector(
            source_for(layer, layer.receptors[i], supplied),
            supplied,
            generated,
        ) {
            Some(vector) => (#[trigger] evidence.scores[i]) is Some && gives(
                similarity,
                vector,
                layer.receptors[i].vector->0,
                evidence.scores[i]->0,
            ),
            None => evidence.scores[i] is None,
        }
}

/// `m` put into a ranking, behind all that it does not exceed.
pub open spec fn ranked_with(ranking: Seq<MatchView>, m: MatchView) -> Seq<MatchView>
    decreases ranking.len(),
{
    if ranking.len() == 0 || !similarity::exceeds(m.score, ranking.last().score) {
        ranking.push(m)
    } else {
        ranked_with(ranking.drop_last(), m).push(ranking.last())
    }
}

/// The matches with the highest score first; those of equal score keep their order.
pub open spec fn ranked(matches: Seq<MatchView>) -> Seq<MatchView>
    decreases matches.len(),
{
    if matches.len() == 0 {
        Seq::empty()
    } else {
        ranked_with(ranked(matches.drop_last()), matches.last())
    }
}

pub open spec fn any_above(matches: Seq<MatchView>) -> bool {
    exists|i: int| 0 <= i < matches.len() && (#[trigger] matches[i]).above_threshold
}

/// A veto receptor was not compared with the message.
pub open spec fn veto_missed(receptors: Seq<ReceptorView>, scores: Seq<Option<u32>>) -> bool {
    exists|i: int|
        0 <= i < receptors.len() && (#[trigger] receptors[i]).class == ReceptorClass::Veto
            && score_at(receptors, scores, i) is None
}

/// A veto receptor in the space of the layer was not compared with the message because the plugin
/// gave no vector.
pub open spec fn veto_failed(layer: LayerView, evidence: EvidenceView) -> bool {
    evidence.backend_failed && exists|i: int|
        0 <= i < layer.receptors.len() && (#[trigger] layer.receptors[i]).class
            == ReceptorClass::Veto && layer.receptors[i].space_id == layer.space_id && score_at(
            layer.receptors,
            evidence.scores,
            i,
        ) is None
}

/// The decision where a wildcard receptor accepts the message.
pub open spec fn wildcard_result(r: ReceptorView, veto_not_evaluated: bool) -> ResultView {
    ResultView {
        deliver: true,
        disposition: AttentionDisposition::Deliver,
        matches: seq![
            MatchView {
                receptor_id: r.receptor_id,
                class: r.class,
                score: similarity::FULL_SCORE,
                threshold: r.threshold,
                above_threshold: true,
            },
        ],
        space_id: None,
        fallback: false,
        veto_not_evaluated,
    }
}

/// The decision where nothing speaks against the message and nothing can speak for it.
pub open spec fn fallback_result(
    matches: Seq<MatchView>,
    space_id: Option<Seq<char>>,
    veto_not_evaluated: bool,
) -> ResultView {
    ResultView {
        deliver: true,
        disposition: AttentionDisposition::Deliver,
        matches,
        space_id,
        fallback: true,
        veto_not_evaluated,
    }
}

/// The decision against a message.
pub open spec fn blocked(
    disposition: AttentionDisposition,
    matches: Seq<MatchView>,
    space_id: Option<Seq<char>>,
    veto_not_evaluated: bool,
) -> ResultView {
    ResultView {
        deliver: false,
        disposition,
        matches,
        space_id,
        fallback: false,
        veto_not_evaluated,
    }
}

/// No receptor takes an interest in anything: all are vetoes.
pub open spec fn vetoes_only(receptors: Seq<ReceptorView>) -> bool {
    forall|i: int|
        0 <= i < receptors.len() ==> (#[trigger] receptors[i]).class == ReceptorClass::Veto
}

/// The decision on a message.
pub open spec fn decision(layer: LayerView, evidence: EvidenceView) -> ResultView {
    if layer.receptors.len() == 0 {
        fallback_result(Seq::empty(), None, false)
    } else if layer.degraded {
        if has_class(layer.receptors, ReceptorClass::Veto) {
            blocked(
                AttentionDisposition::VetoEnforcementUnavailable,
                Seq::empty(),
                layer.space_id,
                true,
            )
        } else {
            fallback_result(Seq::empty(), layer.space_id, false)
        }
    } else {
        let vetoes = matches_of(layer.receptors, evidence.scores, true);
        let matches = matches_of(layer.receptors, evidence.scores, false);
        let missed = veto_missed(layer.receptors, evidence.scores);
        let space_id = compared_space(layer.receptors, evidence.scores);
        if any_above(vetoes) {
            blocked(AttentionDisposition::Vetoed, ranked(vetoes), space_id, missed)
        } else if veto_failed(layer, evidence) {
            blocked(
                AttentionDisposition::VetoEnforcementUnavailable,
                Seq::empty(),
                space_id,
                missed,
            )
        } else if first_wildcard(layer.receptors) is Some {
            wildcard_result(layer.receptors[first_wildcard(layer.receptors)->0], missed)
        } else if vetoes_only(layer.receptors) {
            fallback_result(ranked(matches), space_id, missed)
        } else if any_above(matches) {
            ResultView {
                deliver: true,
                disposition: AttentionDisposition::Deliver,
                matches: ranked(matches),
                space_id,
                fallback: false,
                veto_not_evaluated: missed,
            }
        } else if matches.len() == 0 {
            blocked(
                AttentionDisposition::EvaluationUnavailable,
                Seq::empty(),
                space_id,
                missed,
            )
        } else {
            blocked(AttentionDisposition::Filtered, ranked(matches), space_id, missed)
        }
    }
}

impl AttentionLayer {
    /// Create a new attention layer that delivers all messages (no filtering).
    pub fn passthrough() -> (layer: Self)
        ensures
            layer@ == (LayerView {
                receptors: Seq::empty(),
                has_plugin: false,
                space_id: None,
                degraded: false,
            }),
    {
        let layer = AttentionLayer {
            receptors: Vec::new(),
            plugin: None,
            space_id: None,
            degraded: false,
        };
        assert(layer@.receptors == Seq::<ReceptorView>::empty());
        layer
    }

    /// Makes the attention layer of a server. `backend_available` says whether the executable of
    /// the first enabled backend is there; `definitions` holds the loaded receptors, unless
    /// loading them failed; `query_vectors` holds the embeddings of their queries, each made by the
    /// backend of its space, up to the first that failed.
    pub fn new(
        config: &AttentionConfig,
        backend_available: bool,
        definitions: Option<Vec<ReceptorDefinition>>,
        query_vectors: &Vec<Vec<u32>>,
    ) -> (layer: Self)
        ensures
            layer@ == layer_of(
                (LayerInputs {
                    backend_space: backend_space(config.embedding_backends@),
                    backend_available,
                    served: served_spaces(config.embedding_backends@),
                    packs_configured: config.local_pack_paths@.len() > 0,
                    threshold: config.threshold,
                    definitions: opt_definitions(definitions),
                    vectors: embedding_plugin::vectors(query_vectors@),
                }),
            ),
            layer.plugin matches Some(client) ==> same_backend(
                client.backend(),
                config.embedding_backends@[first_enabled(config.embedding_backends@)->0],
            ),
    {
        let packs_configured = config.local_pack_paths.len() > 0;
        let mut layer = AttentionLayer::passthrough();
        match first_enabled_backend(&config.embedding_backends) {
            Some(i) => {
                let backend = &config.embedding_backends[i];
                if backend_available {
                    layer.space_id = Some(backend.default_space_id.clone());
                    layer.plugin = Some(EmbeddingPluginClient::new(copy_backend(backend)));
                } else {
                    layer.degraded = true;
                }
            },
            None => {
                if packs_configured {
                    layer.degraded = true;
                }
            },
        }
        if packs_configured {
            match definitions {
                Some(list) => {
                    let complete = layer.compute_receptors(
                        &list,
                        config.threshold,
                        &config.embedding_backends,
                        query_vectors,
                    );
                    if !complete {
                        layer.degraded = true;
                    }
                },
                None => {
                    layer.degraded = true;
                },
            }
        }
        layer
    }

    /// Makes the receptors of the layer, and says whether the embeddings sufficed.
    fn compute_receptors(
        &mut self,
        definitions: &Vec<ReceptorDefinition>,
        default_threshold: u32,
        backends: &Vec<EmbeddingBackendConfig>,
        query_vectors: &Vec<Vec<u32>>,
    ) -> (complete: bool)
        requires
            old(self)@.receptors.len() == 0,
        ensures
            final(self)@ == (LayerView {
                receptors: computed(
                    receptor::definitions(definitions@),
                    old(self)@.space_id,
                    default_threshold,
                    served_spaces(backends@),
                    embedding_plugin::vectors(query_vectors@),
                ).0,
                ..old(self)@
            }),
            final(self).plugin == old(self).plugin,
            complete == computed(
                receptor::definitions(definitions@),
                old(self)@.space_id,
                default_threshold,
                served_spaces(backends@),
                embedding_plugin::vectors(query_vectors@),
            ).2,
    {
        let ghost defs = receptor::definitions(definitions@);
        let ghost vectors = embedding_plugin::vectors(query_vectors@);
        let ghost served = served_spaces(backends@);
        let ghost space = self@.space_id;
        let mut complete = true;
        let mut used: usize = 0;
        let mut i: usize = 0;
        assert(defs.take(0) == Seq::<DefinitionView>::empty());
        assert(self@.receptors == Seq::<ReceptorView>::empty());
        while i < definitions.len()
            invariant
                i <= definitions.len(),
                defs == receptor::definitions(definitions@),
                vectors == embedding_plugin::vectors(query_vectors@),
                served == served_spaces(backends@),
                space == old(self)@.space_id,
                self.plugin == old(self).plugin,
                self.space_id == old(self).space_id,
                self.degraded == old(self).degraded,
                computed(defs.take(i as int), space, default_threshold, served, vectors) == (
                    self@.receptors,
                    used as int,
                    complete,
                ),
                used <= query_vectors.len(),
            decreases definitions.len() - i,
        {
            let d = &definitions[i];
            let ghost before = self@.receptors;
            assert(defs.take(i + 1).drop_last() == defs.take(i as int));
            assert(defs.take(i + 1).last() == d@);
            let threshold: u32 = match d.threshold {
                Some(t) => t,
                None => default_threshold,
            };
            let embed = match &self.space_id {
                None => None,
                Some(layer_space) => {
                    let space_id = match &d.space_id {
                        Some(own) => own.clone(),
                        None => layer_space.clone(),
                    };
                    let served_here = serving_backend(backends, space_id.as_str()).is_some();
                    assert(served_here == served.contains(space_of(d@, space->0)));
                    if complete && d.class != ReceptorClass::Wildcard && !text::trim(
                        d.query.as_str(),
                    ).is_empty() && used < query_vectors.len() && served_here {
                        Some(space_id)
                    } else {
                        None
                    }
                },
            };
            match embed {
                Some(space_id) => {
                    assert(vectors[used as int] == query_vectors@[used as int]@);
                    self.receptors.push(
                        ComputedReceptor {
                            receptor_id: d.receptor_id.clone(),
                            class: d.class,
                            threshold,
                            vector: Some(copy_vector(&query_vectors[used])),
                            space_id: Some(space_id),
                        },
                    );
                    assert(self@.receptors == before.push(
                        embedded_receptor(d@, default_threshold, vectors[used as int], space->0),
                    ));
                    used = used + 1;
                },
                None => {
                    let without_space = self.space_id.is_none();
                    let skipped = complete && d.class != ReceptorClass::Veto && text::trim(
                        d.query.as_str(),
                    ).is_empty();
                    let wildcard = complete && d.class == ReceptorClass::Wildcard;
                    if without_space || wildcard || d.class == ReceptorClass::Veto {
                        self.receptors.push(
                            ComputedReceptor {
                                receptor_id: d.receptor_id.clone(),
                                class: d.class,
                                threshold,
                                vector: None,
                                space_id: None,
                            },
                        );
                        assert(self@.receptors == before.push(
                            bare_receptor(d@, default_threshold),
                        ));
                    }
                    if !without_space && !wildcard && !skipped {
                        complete = false;
                    }
                },
            }
            i = i + 1;
        }
        assert(defs.take(defs.len() as int) == defs);
        complete
    }

    fn has_class(&self, class: ReceptorClass) -> (b: bool)
        ensures
            b == has_class(self@.receptors, class),
    {
        let mut i: usize = 0;
        while i < self.receptors.len()
            invariant
                i <= self.receptors.len(),
                forall|j: int| 0 <= j < i ==> (#[trigger] self@.receptors[j]).class != class,
            decreases self.receptors.len() - i,
        {
            assert(self@.receptors[i as int] == self.receptors@[i as int]@);
            if self.receptors[i].class == class {
                return true;
            }
            i = i + 1;
        }
        false
    }

    fn find_wildcard(&self) -> (found: Option<usize>)
        ensures
            found is Some <==> first_wildcard(self@.receptors) is Some,
            found matches Some(i) ==> first_wildcard(self@.receptors) == Some(i as int) && i
                < self.receptors.len(),
    {
        proof {
            lemma_first_wildcard(self@.receptors);
        }
        let mut i: usize = 0;
        while i < self.receptors.len()
            invariant
                i <= self.receptors.len(),
                forall|j: int|
                    0 <= j < i ==> (#[trigger] self@.receptors[j]).class != ReceptorClass::Wildcard,
                first_wildcard(self@.receptors) is Some <==> has_class(
                    self@.receptors,
                    ReceptorClass::Wildcard,
                ),
                first_wildcard(self@.receptors) matches Some(k) ==> 0 <= k < self@.receptors.len()
                    && self@.receptors[k].class == ReceptorClass::Wildcard && forall|j: int|
                    0 <= j < k ==> (#[trigger] self@.receptors[j]).class != ReceptorClass::Wildcard,
            decreases self.receptors.len() - i,
        {
            assert(self@.receptors[i as int] == self.receptors@[i as int]@);
            if self.receptors[i].is_wildcard() {
                assert(has_class(self@.receptors, ReceptorClass::Wildcard));
                return Some(i);
            }
            i = i + 1;
        }
        None
    }

    /// Where the vectors come from with which a message is compared with the receptors, in their
    /// order, given the embeddings that the sender supplied.
    pub fn select_message_vectors(&self, supplied: &Vec<MessageEmbedding>) -> (sources: Vec<
        VectorSource,
    >)
        ensures
            sources@ == sources_of(self@, embeddings(supplied@)),
            sources@.len() == self.receptors@.len(),
            forall|i: int|
                0 <= i < sources@.len() ==> ((#[trigger] sources@[i]) matches VectorSource::Supplied(k)
                    ==> k < supplied.len() && self@.receptors[i].space_id == Some(
                    supplied@[k as int].space_id@,
                )),
    {
        let ghost all = embeddings(supplied@);
        let alone = self.receptors.len() == 0 || self.degraded || (self.has_class(
            ReceptorClass::Wildcard,
        ) && !self.has_class(ReceptorClass::Veto));
        let mut sources: Vec<VectorSource> = Vec::new();
        let mut i: usize = 0;
        while i < self.receptors.len()
            invariant
                i <= self.receptors.len(),
                all == embeddings(supplied@),
                alone == decides_alone(self@),
                sources@ == sources_of(self@, all).take(i as int),
            decreases self.receptors.len() - i,
        {
            let r = &self.receptors[i];
            assert(self@.receptors[i as int] == r@);
            let source = if alone || r.vector.is_none() {
                VectorSource::NotNeeded
            } else {
                match &r.space_id {
                    None => VectorSource::Unavailable,
                    Some(space_id) => match find_embedding(supplied, space_id.as_str()) {
                        Some(k) => VectorSource::Supplied(k),
                        None => {
                            let in_layer = match &self.space_id {
                                Some(own) => text::same_text(own.as_str(), space_id.as_str()),
                                None => false,
                            };
                            if in_layer && self.plugin.is_some() {
                                VectorSource::Plugin
                            } else {
                                VectorSource::Unavailable
                            }
                        },
                    },
                }
            };
            sources.push(source);
            assert(source == source_for(self@, r@, all));
            assert(sources@ == sources_of(self@, all).take(i + 1));
            i = i + 1;
        }
        assert(sources_of(self@, all).take(sources@.len() as int) == sources_of(self@, all));
        proof {
            assert forall|i: int| 0 <= i < sources@.len() implies ((#[trigger] sources@[i])
                matches VectorSource::Supplied(k) ==> k < supplied.len()
                && self@.receptors[i].space_id == Some(supplied@[k as int].space_id@)) by {
                let space_id = self@.receptors[i].space_id->0;
                lemma_embedding_in(all, space_id);
                assert(sources@[i] == source_for(self@, self@.receptors[i], all));
                if let Some(k) = embedding_in(all, space_id) {
                    assert(all[k] == supplied@[k]@);
                    assert(k < supplied.len());
                }
            }
        }
        sources
    }

    /// Whether the plugin is needed to compare a message with some receptor.
    pub fn needs_plugin(&self, supplied: &Vec<MessageEmbedding>) -> (needed: bool)
        ensures
            needed == plugin_needed(self@, embeddings(supplied@)),
    {
        let sources = self.select_message_vectors(supplied);
        let mut i: usize = 0;
        while i < sources.len()
            invariant
                i <= sources.len(),
                sources@ == sources_of(self@, embeddings(supplied@)),
                forall|j: int| 0 <= j < i ==> (#[trigger] sources@[j]) != VectorSource::Plugin,
            decreases sources.len() - i,
        {
            if sources[i] == VectorSource::Plugin {
                assert(source_for(self@, self@.receptors[i as int], embeddings(supplied@))
                    == VectorSource::Plugin);
                return true;
            }
            i = i + 1;
        }
        assert forall|j: int| 0 <= j < self@.receptors.len() implies source_for(
            self@,
            #[trigger] self@.receptors[j],
            embeddings(supplied@),
        ) != VectorSource::Plugin by {
            assert(sources@[j] != VectorSource::Plugin);
        }
        false
    }

    /// Compares a message with the receptors, each in its own space. `generated` is the vector that
    /// the plugin gave for the message, if it was asked and gave one; `similarity` says how similar
    /// a message is to a receptor, from the vectors of the two.
    pub fn gather_evidence<F: Fn(&Vec<u32>, &Vec<u32>) -> u32>(
        &self,
        supplied: &Vec<MessageEmbedding>,
        generated: &Option<Vec<u32>>,
        similarity: F,
    ) -> (evidence: Evidence)
        requires
            forall|a: &Vec<u32>, b: &Vec<u32>| #[trigger] call_requires(similarity, (a, b)),
        ensures
            gathered(
                self@,
                embeddings(supplied@),
                opt_vector(*generated),
                similarity,
                evidence@,
            ),
    {
        let ghost all = embeddings(supplied@);
        let ghost made = opt_vector(*generated);
        let sources = self.select_message_vectors(supplied);
        let mut scores: Vec<Option<u32>> = Vec::new();
        let mut i: usize = 0;
        while i < self.receptors.len()
            invariant
                i <= self.receptors.len(),
                all == embeddings(supplied@),
                made == opt_vector(*generated),
                sources@ == sources_of(self@, all),
                sources@.len() == self.receptors@.len(),
                forall|a: &Vec<u32>, b: &Vec<u32>| #[trigger] call_requires(similarity, (a, b)),
                forall|j: int|
                    0 <= j < sources@.len() ==> ((#[trigger] sources@[j]) matches VectorSource::Supplied(
                        k,
                    ) ==> k < supplied.len()),
                scores@.len() == i,
                forall|j: int|
                    0 <= j < i ==> match message_vector(
                        source_for(self@, self@.receptors[j], all),
                        all,
                        made,
                    ) {
                        Some(vector) => (#[trigger] scores@[j]) is Some && gives(
                            similarity,
                            vector,
                            self@.receptors[j].vector->0,
                            scores@[j]->0,
                        ),
                        None => scores@[j] is None,
                    },
            decreases self.receptors.len() - i,
        {
            let r = &self.receptors[i];
            assert(self@.receptors[i as int] == r@);
            assert(sources@[i as int] == source_for(self@, r@, all));
            let message = match sources[i] {
                VectorSource::Supplied(k) => {
                    assert(all[k as int] == supplied@[k as int]@);
                    Some(&supplied[k].vector)
                },
                VectorSource::Plugin => match generated {
                    Some(vector) => Some(vector),
                    None => None,
                },
                _ => None,
            };
            let score = match (message, &r.vector) {
                (Some(vector), Some(own)) => {
                    let given: u32 = similarity(vector, own);
                    assert(gives(similarity, vector@, own@, given));
                    Some(given)
                },
                _ => None,
            };
            scores.push(score);
            i = i + 1;
        }
        let backend_failed = generated.is_none() && self.needs_plugin(supplied);
        Evidence { scores, backend_failed }
    }

    /// Evaluates a message against all receptors and decides whether to deliver it. `generated` and
    /// `similarity` are as for `gather_evidence`.
    pub fn evaluate<F: Fn(&Vec<u32>, &Vec<u32>) -> u32>(
        &self,
        supplied: &Vec<MessageEmbedding>,
        generated: &Option<Vec<u32>>,
        similarity: F,
    ) -> (result: AttentionResult)
        requires
            forall|a: &Vec<u32>, b: &Vec<u32>| #[trigger] call_requires(similarity, (a, b)),
        ensures
            exists|evidence: EvidenceView|
                #[trigger] gathered(
                    self@,
                    embeddings(supplied@),
                    opt_vector(*generated),
                    similarity,
                    evidence,
                ) && result@ == decision(self@, evidence),
    {
        let evidence = self.gather_evidence(supplied, generated, similarity);
        self.evaluate_with_embeddings(&evidence)
    }

    fn collect_matches(&self, scores: &Vec<Option<u32>>, veto_only: bool) -> (matches: Vec<
        ReceptorMatch,
    >)
        ensures
            match_views(matches@) == matches_of(self@.receptors, scores@, veto_only),
    {
        let ghost all = self@.receptors;
        let mut matches: Vec<ReceptorMatch> = Vec::new();
        let mut i: usize = 0;
        assert(match_views(matches@) == matches_of(all.take(0), scores@, veto_only));
        while i < self.receptors.len()
            invariant
                i <= self.receptors.len(),
                all == self@.receptors,
                match_views(matches@) == matches_of(all.take(i as int), scores@, veto_only),
            decreases self.receptors.len() - i,
        {
            let r = &self.receptors[i];
            assert(all[i as int] == r@);
            assert(all.take(i + 1).drop_last() == all.take(i as int));
            assert(all.take(i + 1).last() == r@);
            if let Some(score) = self.score(scores, i) {
                if !veto_only || r.is_veto() {
                    let ghost before = match_views(matches@);
                    matches.push(
                        ReceptorMatch {
                            receptor_id: r.receptor_id.clone(),
                            class: r.class,
                            score,
                            threshold: r.threshold,
                            above_threshold: similarity::is_at_least(score, r.threshold),
                        },
                    );
                    assert(match_views(matches@) == before.push(match_of(r@, score)));
                }
            }
            i = i + 1;
        }
        assert(all.take(all.len() as int) == all);
        matches
    }

    /// The similarity of the message to a receptor, where they could be compared.
    fn score(&self, scores: &Vec<Option<u32>>, i: usize) -> (score: Option<u32>)
        requires
            i < self.receptors.len(),
        ensures
            score == score_at(self@.receptors, scores@, i as int),
    {
        assert(self@.receptors[i as int] == self.receptors@[i as int]@);
        if self.receptors[i].vector.is_some() && i < scores.len() {
            scores[i]
        } else {
            None
        }
    }

    /// The space of the first receptor that the message was compared with.
    fn compared_space(&self, scores: &Vec<Option<u32>>) -> (space_id: Option<String>)
        ensures
            text::opt_text(space_id) == compared_space(self@.receptors, scores@),
    {
        let ghost all = self@.receptors;
        let mut found: Option<String> = None;
        let mut i: usize = 0;
        assert(compared_space(all.take(0), scores@) is None);
        while i < self.receptors.len()
            invariant
                i <= self.receptors.len(),
                all == self@.receptors,
                text::opt_text(found) == compared_space(all.take(i as int), scores@),
            decreases self.receptors.len() - i,
        {
            assert(all[i as int] == self.receptors@[i as int]@);
            assert(all.take(i + 1).drop_last() == all.take(i as int));
            assert(all.take(i + 1).last() == all[i as int]);
            if found.is_none() && self.score(scores, i).is_some() {
                found = text::copy_opt(&self.receptors[i].space_id);
            }
            i = i + 1;
        }
        assert(all.take(all.len() as int) == all);
        found
    }

    fn misses_veto(&self, scores: &Vec<Option<u32>>) -> (b: bool)
        ensures
            b == veto_missed(self@.receptors, scores@),
    {
        let mut i: usize = 0;
        while i < self.receptors.len()
            invariant
                i <= self.receptors.len(),
                forall|j: int|
                    0 <= j < i && (#[trigger] self@.receptors[j]).class == ReceptorClass::Veto
                        ==> score_at(self@.receptors, scores@, j) is Some,
            decreases self.receptors.len() - i,
        {
            assert(self@.receptors[i as int] == self.receptors@[i as int]@);
            if self.receptors[i].is_veto() && self.score(scores, i).is_none() {
                return true;
            }
            i = i + 1;
        }
        false
    }

    fn fails_veto(&self, evidence: &Evidence) -> (b: bool)
        ensures
            b == veto_failed(self@, evidence@),
    {
        if !evidence.backend_failed {
            return false;
        }
        let mut i: usize = 0;
        while i < self.receptors.len()
            invariant
                i <= self.receptors.len(),
                evidence.backend_failed,
                forall|j: int|
                    0 <= j < i && (#[trigger] self@.receptors[j]).class == ReceptorClass::Veto
                        && self@.receptors[j].space_id == self@.space_id ==> score_at(
                        self@.receptors,
                        evidence@.scores,
                        j,
                    ) is Some,
            decreases self.receptors.len() - i,
        {
            let r = &self.receptors[i];
            assert(self@.receptors[i as int] == r@);
            let in_layer = match (&r.space_id, &self.space_id) {
                (Some(own), Some(space_id)) => text::same_text(own.as_str(), space_id.as_str()),
                (None, None) => true,
                _ => false,
            };
            if r.is_veto() && in_layer && self.score(&evidence.scores, i).is_none() {
                return true;
            }
            i = i + 1;
        }
        false
    }

    fn vetoes_only(&self) -> (b: bool)
        ensures
            b == vetoes_only(self@.receptors),
    {
        let mut i: usize = 0;
        while i < self.receptors.len()
            invariant
                i <= self.receptors.len(),
                forall|j: int|
                    0 <= j < i ==> (#[trigger] self@.receptors[j]).class == ReceptorClass::Veto,
            decreases self.receptors.len() - i,
        {
            assert(self@.receptors[i as int] == self.receptors@[i as int]@);
            if !self.receptors[i].is_veto() {
                return false;
            }
            i = i + 1;
        }
        true
    }

    fn accept_by_wildcard(&self, i: usize, veto_not_evaluated: bool) -> (result: AttentionResult)
        requires
            i < self.receptors.len(),
        ensures
            result@ == wildcard_result(self@.receptors[i as int], veto_not_evaluated),
    {
        let r = &self.receptors[i];
        assert(self@.receptors[i as int] == r@);
        let mut matches: Vec<ReceptorMatch> = Vec::new();
        matches.push(
            ReceptorMatch {
                receptor_id: r.receptor_id.clone(),
                class: r.class,
                score: similarity::FULL_SCORE,
                threshold: r.threshold,
                above_threshold: true,
            },
        );
        let result = AttentionResult {
            deliver: true,
            disposition: AttentionDisposition::Deliver,
            matches,
            space_id: None,
            fallback: false,
            veto_not_evaluated,
        };
        assert(result@.matches == wildcard_result(r@, veto_not_evaluated).matches);
        result
    }

    /// Evaluates a message against all receptors and decides whether to deliver it, from what has
    /// been found out about it.
    pub fn evaluate_with_embeddings(&self, evidence: &Evidence) -> (result: AttentionResult)
        ensures
            result@ == decision(self@, evidence@),
    {
        if self.receptors.len() == 0 {
            return accept_by_fallback(Vec::new(), None, false);
        }
        if self.degraded {
            if self.has_class(ReceptorClass::Veto) {
                return block(
                    AttentionDisposition::VetoEnforcementUnavailable,
                    Vec::new(),
                    text::copy_opt(&self.space_id),
                    true,
                );
            }
            return accept_by_fallback(Vec::new(), text::copy_opt(&self.space_id), false);
        }
        let vetoes = self.collect_matches(&evidence.scores, true);
        let missed = self.misses_veto(&evidence.scores);
        let space_id = self.compared_space(&evidence.scores);
        if any_match(&vetoes) {
            return block(AttentionDisposition::Vetoed, rank_matches(&vetoes), space_id, missed);
        }
        if self.fails_veto(evidence) {
            return block(
                AttentionDisposition::VetoEnforcementUnavailable,
                Vec::new(),
                space_id,
                missed,
            );
        }
        if let Some(i) = self.find_wildcard() {
            return self.accept_by_wildcard(i, missed);
        }
        let matches = self.collect_matches(&evidence.scores, false);
        let matched = any_match(&matches);
        let ranking = rank_matches(&matches);
        if self.vetoes_only() {
            accept_by_fallback(ranking, space_id, missed)
        } else if matched {
            AttentionResult {
                deliver: true,
                disposition: AttentionDisposition::Deliver,
                matches: ranking,
                space_id,
                fallback: false,
                veto_not_evaluated: missed,
            }
        } else if matches.len() == 0 {
            assert(match_views(matches@).len() == 0);
            block(AttentionDisposition::EvaluationUnavailable, Vec::new(), space_id, missed)
        } else {
            assert(match_views(matches@).len() > 0);
            block(AttentionDisposition::Filtered, ranking, space_id, missed)
        }
    }
}

/// The first supplied embedding in a space.
fn find_embedding(supplied: &Vec<MessageEmbedding>, space_id: &str) -> (found: Option<usize>)
    ensures
        found is Some <==> embedding_in(embeddings(supplied@), space_id@) is Some,
        found matches Some(k) ==> embedding_in(embeddings(supplied@), space_id@) == Some(k as int),
{
    let ghost all = embeddings(supplied@);
    let mut i: usize = 0;
    assert(all.skip(0) == all);
    while i < supplied.len()
        invariant
            i <= supplied.len(),
            all == embeddings(supplied@),
            embedding_in(all, space_id@) is Some <==> embedding_in(
                all.skip(i as int),
                space_id@,
            ) is Some,
            embedding_in(all.skip(i as int), space_id@) matches Some(k) ==> embedding_in(
                all,
                space_id@,
            ) == Some(k + i),
        decreases supplied.len() - i,
    {
        assert(all[i as int] == supplied@[i as int]@);
        if text::same_text(supplied[i].space_id.as_str(), space_id) {
            return Some(i);
        }
        assert(all.skip(i as int).skip(1) == all.skip(i + 1));
        i = i + 1;
    }
    None
}

fn accept_by_fallback(
    matches: Vec<ReceptorMatch>,
    space_id: Option<String>,
    veto_not_evaluated: bool,
) -> (result: AttentionResult)
    ensures
        result@ == fallback_result(
            match_views(matches@),
            text::opt_text(space_id),
            veto_not_evaluated,
        ),
        matches@.len() == 0 ==> result@ == fallback_result(
            Seq::empty(),
            text::opt_text(space_id),
            veto_not_evaluated,
        ),
{
    assert(matches@.len() == 0 ==> match_views(matches@) == Seq::<MatchView>::empty());
    AttentionResult {
        deliver: true,
        disposition: AttentionDisposition::Deliver,
        matches,
        space_id,
        fallback: true,
        veto_not_evaluated,
    }
}

fn block(
    disposition: AttentionDisposition,
    matches: Vec<ReceptorMatch>,
    space_id: Option<String>,
    veto_not_evaluated: bool,
) -> (result: AttentionResult)
    ensures
        result@ == blocked(
            disposition,
            match_views(matches@),
            text::opt_text(space_id),
            veto_not_evaluated,
        ),
        matches@.len() == 0 ==> result@ == blocked(
            disposition,
            Seq::empty(),
            text::opt_text(space_id),
            veto_not_evaluated,
        ),
{
    assert(matches@.len() == 0 ==> match_views(matches@) == Seq::<MatchView>::empty());
    AttentionResult { deliver: false, disposition, matches, space_id, fallback: false, veto_not_evaluated }
}

fn any_match(matches: &Vec<ReceptorMatch>) -> (b: bool)
    ensures
        b == any_above(match_views(matches@)),
{
    let ghost views = match_views(matches@);
    let mut i: usize = 0;
    while i < matches.len()
        invariant
            i <= matches.len(),
            views == match_views(matches@),
            forall|j: int| 0 <= j < i ==> !(#[trigger] views[j]).above_threshold,
        decreases matches.len() - i,
    {
        assert(views[i as int] == matches@[i as int]@);
        if matches[i].above_threshold {
            return true;
        }
        i = i + 1;
    }
    false
}

fn copy_match(m: &ReceptorMatch) -> (copy: ReceptorMatch)
    ensures
        copy == *m,
{
    ReceptorMatch {
        receptor_id: m.receptor_id.clone(),
        class: m.class,
        score: m.score,
        threshold: m.threshold,
        above_threshold: m.above_threshold,
    }
}

/// Sorts matches by score, the highest first.
fn rank_matches(matches: &Vec<ReceptorMatch>) -> (ranking: Vec<ReceptorMatch>)
    ensures
        match_views(ranking@) == ranked(match_views(matches@)),
{
    let ghost all = match_views(matches@);
    let mut ranking: Vec<ReceptorMatch> = Vec::new();
    let mut i: usize = 0;
    assert(match_views(ranking@) == ranked(all.take(0)));
    while i < matches.len()
        invariant
            i <= matches.len(),
            all == match_views(matches@),
            match_views(ranking@) == ranked(all.take(i as int)),
        decreases matches.len() - i,
    {
        let ghost before = match_views(ranking@);
        let ghost m = matches@[i as int]@;
        let mut place: usize = ranking.len();
        assert(before.take(place as int) == before);
        assert(before.skip(place as int) == Seq::<MatchView>::empty());
        assert(ranked_with(before, m) == ranked_with(before, m) + Seq::<MatchView>::empty());
        while place > 0 && similarity::is_greater(matches[i].score, ranking[place - 1].score)
            invariant
                i < matches.len(),
                place <= ranking.len(),
                before == match_views(ranking@),
                m == matches@[i as int]@,
                ranked_with(before, m) == ranked_with(before.take(place as int), m) + before.skip(
                    place as int,
                ),
            decreases place,
        {
            let ghost head = before.take(place as int);
            assert(before[place - 1] == ranking@[place - 1]@);
            assert(head.last() == before[place - 1]);
            assert(head.drop_last() == before.take(place - 1));
            assert(ranked_with(head, m) == ranked_with(before.take(place - 1), m).push(
                before[place - 1],
            ));
            assert(ranked_with(before.take(place - 1), m).push(before[place - 1]) + before.skip(
                place as int,
            ) == ranked_with(before.take(place - 1), m) + before.skip(place - 1));
            place = place - 1;
        }
        proof {
            let head = before.take(place as int);
            if place > 0 {
                assert(before[place - 1] == ranking@[place - 1]@);
                assert(head.last() == before[place - 1]);
            }
            assert(ranked_with(head, m) == head.push(m));
        }
        ranking.insert(place, copy_match(&matches[i]));
        assert(match_views(ranking@) == before.insert(place as int, m));
        assert(before.insert(place as int, m) == before.take(place as int).push(m) + before.skip(
            place as int,
        ));
        assert(all.take(i + 1).drop_last() == all.take(i as int));
        assert(all.take(i + 1).last() == m);
        i = i + 1;
    }
    assert(all.take(all.len() as int) == all);
    ranking
}

// ---------------------------------------------------------------------------
// What is told about a layer and about a decision
// ---------------------------------------------------------------------------

/// The number of receptors of a class.
pub open spec fn class_count(receptors: Seq<ReceptorView>, class: ReceptorClass) -> nat {
    receptors.filter(|r: ReceptorView| r.class == class).len()
}

/// How the layer decides, in one word.
pub open spec fn delivery_mode(layer: LayerView) -> Seq<char> {
    if layer.receptors.len() == 0 {
        "no_active_receptors"@
    } else if layer.degraded && has_class(layer.receptors, ReceptorClass::Veto) {
        "veto_enforcement_unavailable"@
    } else if layer.degraded {
        "degraded"@
    } else if has_class(layer.receptors, ReceptorClass::Wildcard) {
        "wildcard"@
    } else if vetoes_only(layer.receptors) {
        "veto_only"@
    } else {
        "selective"@
    }
}

impl AttentionLayer {
    /// Get the number of configured receptors.
    pub fn receptor_count(&self) -> (count: usize)
        ensures
            count == self@.receptors.len(),
    {
        self.receptors.len()
    }

    fn class_count(&self, class: ReceptorClass) -> (count: usize)
        ensures
            count == class_count(self@.receptors, class),
            count <= self@.receptors.len(),
    {
        let ghost all = self@.receptors;
        let ghost of_class = |r: ReceptorView| r.class == class;
        let mut count: usize = 0;
        let mut i: usize = 0;
        assert(all.take(0).filter(of_class).len() == 0) by {
            assert(all.take(0) == Seq::<ReceptorView>::empty());
            reveal(Seq::filter);
        }
        while i < self.receptors.len()
            invariant
                i <= self.receptors.len(),
                count <= i,
                all == self@.receptors,
                of_class == (|r: ReceptorView| r.class == class),
                count == all.take(i as int).filter(of_class).len(),
            decreases self.receptors.len() - i,
        {
            assert(all[i as int] == self.receptors@[i as int]@);
            proof {
                assert(all.take(i + 1).drop_last() == all.take(i as int));
                assert(all.take(i + 1).last() == all[i as int]);
                reveal(Seq::filter);
            }
            if self.receptors[i].class == class {
                count = count + 1;
            }
            i = i + 1;
        }
        assert(all.take(all.len() as int) == all);
        count
    }

    /// The number of receptors whose matches are never delivered.
    pub fn veto_receptor_count(&self) -> (count: usize)
        ensures
            count == class_count(self@.receptors, ReceptorClass::Veto),
    {
        self.class_count(ReceptorClass::Veto)
    }

    /// The number of receptors that accept every message that is not vetoed.
    pub fn wildcard_receptor_count(&self) -> (count: usize)
        ensures
            count == class_count(self@.receptors, ReceptorClass::Wildcard),
    {
        self.class_count(ReceptorClass::Wildcard)
    }

    /// The number of receptors that take an interest in what resembles their query.
    pub fn interest_receptor_count(&self) -> (count: usize)
        ensures
            count == self@.receptors.filter(|r: ReceptorView| r.class.interest()).len(),
    {
        let ghost all = self@.receptors;
        let ghost interested = |r: ReceptorView| r.class.interest();
        let mut count: usize = 0;
        let mut i: usize = 0;
        assert(all.take(0).filter(interested).len() == 0) by {
            assert(all.take(0) == Seq::<ReceptorView>::empty());
            reveal(Seq::filter);
        }
        while i < self.receptors.len()
            invariant
                i <= self.receptors.len(),
                count <= i,
                all == self@.receptors,
                interested == (|r: ReceptorView| r.class.interest()),
                count == all.take(i as int).filter(interested).len(),
            decreases self.receptors.len() - i,
        {
            assert(all[i as int] == self.receptors@[i as int]@);
            proof {
                assert(all.take(i + 1).drop_last() == all.take(i as int));
                assert(all.take(i + 1).last() == all[i as int]);
                reveal(Seq::filter);
            }
            let r = &self.receptors[i];
            if !r.is_wildcard() && !r.is_veto() {
                count = count + 1;
            }
            i = i + 1;
        }
        assert(all.take(all.len() as int) == all);
        count
    }

    /// Check if the attention layer is in degraded mode.
    pub fn is_degraded(&self) -> (b: bool)
        ensures
            b == self@.degraded,
    {
        self.degraded
    }

    /// How the layer decides, in one word.
    pub fn delivery_mode(&self) -> (mode: &'static str)
        ensures
            mode@ == delivery_mode(self@),
    {
        if self.receptors.len() == 0 {
            "no_active_receptors"
        } else if self.degraded && self.has_class(ReceptorClass::Veto) {
            "veto_enforcement_unavailable"
        } else if self.degraded {
            "degraded"
        } else if self.has_class(ReceptorClass::Wildcard) {
            "wildcard"
        } else if self.vetoes_only() {
            "veto_only"
        } else {
            "selective"
        }
    }
}

/// The line that a match has in an annotation.
pub open spec fn annotation_line(m: MatchView) -> Seq<char> {
    "  - "@ + m.receptor_id + " ("@ + similarity::score_notation(m.score) + ")"@
}

/// The lines of the matches above their threshold, in order.
pub open spec fn annotation_lines(matches: Seq<MatchView>) -> Seq<Seq<char>>
    decreases matches.len(),
{
    if matches.len() == 0 {
        Seq::empty()
    } else if matches.last().above_threshold {
        annotation_lines(matches.drop_last()).push(annotation_line(matches.last()))
    } else {
        annotation_lines(matches.drop_last())
    }
}

/// What a delivered message says of the receptors that it matched; nothing if it matched none.
pub open spec fn annotation(matches: Seq<MatchView>) -> Option<Seq<char>> {
    if annotation_lines(matches).len() == 0 {
        None
    } else {
        Some(text::joined(seq!["ReceptorMatches:"@] + annotation_lines(matches), "\n"@))
    }
}

/// Format receptor matches for inclusion in a delivered message.
pub fn format_attention_annotation(result: &AttentionResult) -> (formatted: Option<String>)
    ensures
        text::opt_text(formatted) == annotation(result@.matches),
{
    let ghost all = result@.matches;
    let mut lines: Vec<String> = Vec::new();
    lines.push("ReceptorMatches:".to_owned());
    let mut i: usize = 0;
    assert(annotation_lines(all.take(0)) == Seq::<Seq<char>>::empty());
    assert(text::texts(lines@) == seq!["ReceptorMatches:"@] + annotation_lines(all.take(0)));
    while i < result.matches.len()
        invariant
            i <= result.matches.len(),
            all == match_views(result.matches@),
            text::texts(lines@) == seq!["ReceptorMatches:"@] + annotation_lines(
                all.take(i as int),
            ),
        decreases result.matches.len() - i,
    {
        let m = &result.matches[i];
        assert(all[i as int] == m@);
        assert(all.take(i + 1).drop_last() == all.take(i as int));
        assert(all.take(i + 1).last() == m@);
        if m.above_threshold {
            let ghost before = text::texts(lines@);
            let ghost prior = annotation_lines(all.take(i as int));
            let mut line = "  - ".to_owned();
            line.append(m.receptor_id.as_str());
            line.append(" (");
            line.append(similarity::score_text(m.score).as_str());
            line.append(")");
            lines.push(line);
            assert(text::texts(lines@) == before.push(annotation_line(m@)));
            assert((seq!["ReceptorMatches:"@] + prior).push(annotation_line(m@)) == seq![
                "ReceptorMatches:"@,
            ] + prior.push(annotation_line(m@)));
        }
        i = i + 1;
    }
    assert(all.take(all.len() as int) == all);
    if lines.len() == 1 {
        None
    } else {
        Some(text::join(&lines, "\n"))
    }
}

// ---------------------------------------------------------------------------
// Laws
// ---------------------------------------------------------------------------

/// With no receptors configured, every message is delivered.
pub proof fn law_no_receptors_deliver_everything(layer: LayerView, evidence: EvidenceView)
    requires
        layer.receptors.len() == 0,
    ensures
        decision(layer, evidence).deliver,
        decision(layer, evidence).fallback,
{
}

/// No receptor can override a veto: where the sender supplied an embedding in the space of a veto
/// receptor, and it is similar enough to that receptor, the message is not delivered, whatever the
/// other receptors are and whatever spaces they are in.
pub proof fn law_veto_prevails<F: Fn(&Vec<u32>, &Vec<u32>) -> u32>(
    layer: LayerView,
    supplied: Seq<EmbeddingView>,
    generated: Option<Seq<u32>>,
    similarity: F,
    evidence: EvidenceView,
    i: int,
    k: int,
)
    requires
        gathered(layer, supplied, generated, similarity, evidence),
        supplied.len() <= usize::MAX,
        !layer.degraded,
        0 <= i < layer.receptors.len(),
        layer.receptors[i].class == ReceptorClass::Veto,
        layer.receptors[i].vector is Some,
        layer.receptors[i].space_id is Some,
        embedding_in(supplied, layer.receptors[i].space_id->0) == Some(k),
        forall|score: u32|
            gives(similarity, supplied[k].vector, layer.receptors[i].vector->0, score)
                ==> similarity::at_least(score, layer.receptors[i].threshold),
    ensures
        !decision(layer, evidence).deliver,
        decision(layer, evidence).disposition == AttentionDisposition::Vetoed,
{
    let r = layer.receptors[i];
    lemma_embedding_in(supplied, r.space_id->0);
    assert(source_for(layer, r, supplied) == VectorSource::Supplied(k as usize));
    assert(evidence.scores[i] is Some);
    law_scored_veto_prevails(layer, evidence, i);
}

/// The same of a veto receptor in the space of the layer where the sender supplied no embedding in
/// that space, for the vector that the plugin gave.
pub proof fn law_veto_prevails_on_generated_vector<F: Fn(&Vec<u32>, &Vec<u32>) -> u32>(
    layer: LayerView,
    supplied: Seq<EmbeddingView>,
    vector: Seq<u32>,
    similarity: F,
    evidence: EvidenceView,
    i: int,
)
    requires
        gathered(layer, supplied, Some(vector), similarity, evidence),
        !layer.degraded,
        layer.has_plugin,
        0 <= i < layer.receptors.len(),
        layer.receptors[i].class == ReceptorClass::Veto,
        layer.receptors[i].vector is Some,
        layer.receptors[i].space_id is Some,
        layer.receptors[i].space_id == layer.space_id,
        embedding_in(supplied, layer.receptors[i].space_id->0) is None,
        forall|score: u32|
            gives(similarity, vector, layer.receptors[i].vector->0, score)
                ==> similarity::at_least(score, layer.receptors[i].threshold),
    ensures
        !decision(layer, evidence).deliver,
        decision(layer, evidence).disposition == AttentionDisposition::Vetoed,
{
    assert(source_for(layer, layer.receptors[i], supplied) == VectorSource::Plugin);
    assert(evidence.scores[i] is Some);
    law_scored_veto_prevails(layer, evidence, i);
}

/// Where only the plugin could say whether a veto receptor is reached, and it gave no vector, the
/// message is not delivered.
pub proof fn law_failed_plugin_delivers_nothing_past_a_veto<F: Fn(&Vec<u32>, &Vec<u32>) -> u32>(
    layer: LayerView,
    supplied: Seq<EmbeddingView>,
    similarity: F,
    evidence: EvidenceView,
    i: int,
)
    requires
        gathered(layer, supplied, None, similarity, evidence),
        layer.has_plugin,
        0 <= i < layer.receptors.len(),
        layer.receptors[i].class == ReceptorClass::Veto,
        layer.receptors[i].vector is Some,
        layer.receptors[i].space_id is Some,
        layer.receptors[i].space_id == layer.space_id,
        embedding_in(supplied, layer.receptors[i].space_id->0) is None,
    ensures
        !decision(layer, evidence).deliver,
{
    if !layer.degraded {
        assert(source_for(layer, layer.receptors[i], supplied) == VectorSource::Plugin);
        assert(evidence.scores[i] is None);
        assert(veto_failed(layer, evidence));
    }
}

/// Where the message was compared with a veto receptor and reaches its threshold, it is not
/// delivered.
pub proof fn law_scored_veto_prevails(layer: LayerView, evidence: EvidenceView, i: int)
    requires
        !layer.degraded,
        0 <= i < layer.receptors.len(),
        layer.receptors[i].class == ReceptorClass::Veto,
        score_at(layer.receptors, evidence.scores, i) matches Some(score) && similarity::at_least(
            score,
            layer.receptors[i].threshold,
        ),
    ensures
        !decision(layer, evidence).deliver,
        decision(layer, evidence).disposition == AttentionDisposition::Vetoed,
{
    lemma_match_found(layer.receptors, evidence.scores, true, i);
}

/// The match of a receptor that was compared is among the matches.
proof fn lemma_match_found(
    receptors: Seq<ReceptorView>,
    scores: Seq<Option<u32>>,
    veto_only: bool,
    i: int,
)
    requires
        0 <= i < receptors.len(),
        score_at(receptors, scores, i) is Some,
        !veto_only || receptors[i].class == ReceptorClass::Veto,
    ensures
        exists|k: int|
            0 <= k < matches_of(receptors, scores, veto_only).len() && (#[trigger] matches_of(
                receptors,
                scores,
                veto_only,
            )[k]) == match_of(receptors[i], score_at(receptors, scores, i)->0),
    decreases receptors.len(),
{
    let all = matches_of(receptors, scores, veto_only);
    let before = matches_of(receptors.drop_last(), scores, veto_only);
    let found = match_of(receptors[i], score_at(receptors, scores, i)->0);
    if i == receptors.len() - 1 {
        assert(all[all.len() - 1] == found);
    } else {
        assert(receptors.drop_last()[i] == receptors[i]);
        lemma_match_found(receptors.drop_last(), scores, veto_only, i);
        let k = choose|k: int| 0 <= k < before.len() && (#[trigger] before[k]) == found;
        assert(all[k] == before[k]);
    }
}

/// Every match comes from a receptor that was compared.
proof fn lemma_match_origin(
    receptors: Seq<ReceptorView>,
    scores: Seq<Option<u32>>,
    veto_only: bool,
    k: int,
)
    requires
        0 <= k < matches_of(receptors, scores, veto_only).len(),
    ensures
        exists|i: int|
            0 <= i < receptors.len() && score_at(receptors, scores, i) is Some && (!veto_only || (
            #[trigger] receptors[i]).class == ReceptorClass::Veto) && matches_of(
                receptors,
                scores,
                veto_only,
            )[k] == match_of(receptors[i], score_at(receptors, scores, i)->0),
    decreases receptors.len(),
{
    let all = matches_of(receptors, scores, veto_only);
    let rest = receptors.drop_last();
    let before = matches_of(rest, scores, veto_only);
    if k < before.len() {
        lemma_match_origin(rest, scores, veto_only, k);
        let i = choose|i: int|
            0 <= i < rest.len() && score_at(rest, scores, i) is Some && (!veto_only || (
            #[trigger] rest[i]).class == ReceptorClass::Veto) && before[k] == match_of(
                rest[i],
                score_at(rest, scores, i)->0,
            );
        assert(receptors[i] == rest[i]);
    } else {
        assert(receptors[receptors.len() - 1] == receptors.last());
    }
}

/// A wildcard receptor accepts every message that is not vetoed, whatever the other receptors say.
pub proof fn law_wildcard_accepts_what_is_not_vetoed(layer: LayerView, evidence: EvidenceView)
    requires
        has_class(layer.receptors, ReceptorClass::Wildcard),
    ensures
        decision(layer, evidence).deliver || decision(layer, evidence).disposition
            == AttentionDisposition::Vetoed || decision(layer, evidence).disposition
            == AttentionDisposition::VetoEnforcementUnavailable,
        !has_class(layer.receptors, ReceptorClass::Veto) ==> decision(layer, evidence).deliver,
{
    lemma_first_wildcard(layer.receptors);
    let vetoes = matches_of(layer.receptors, evidence.scores, true);
    if any_above(vetoes) {
        let k = choose|k: int| 0 <= k < vetoes.len() && (#[trigger] vetoes[k]).above_threshold;
        lemma_match_origin(layer.receptors, evidence.scores, true, k);
    }
}

/// A layer of interest receptors delivers a message exactly if it was compared with one of them and
/// reaches its threshold.
pub proof fn law_interest_receptors_decide_by_threshold(layer: LayerView, evidence: EvidenceView)
    requires
        !layer.degraded,
        layer.receptors.len() > 0,
        forall|i: int| 0 <= i < layer.receptors.len() ==> (#[trigger] layer.receptors[i]).class.interest(),
    ensures
        decision(layer, evidence).deliver <==> exists|i: int|
            0 <= i < layer.receptors.len() && (score_at(
                layer.receptors,
                evidence.scores,
                i,
            ) matches Some(score) && similarity::at_least(
                score,
                (#[trigger] layer.receptors[i]).threshold,
            )),
{
    let all = layer.receptors;
    let scores = evidence.scores;
    let vetoes = matches_of(all, scores, true);
    let matches = matches_of(all, scores, false);
    lemma_first_wildcard(all);
    if any_above(vetoes) {
        let k = choose|k: int| 0 <= k < vetoes.len() && (#[trigger] vetoes[k]).above_threshold;
        lemma_match_origin(all, scores, true, k);
    }
    assert(all[0].class.interest());
    if any_above(matches) {
        let k = choose|k: int| 0 <= k < matches.len() && (#[trigger] matches[k]).above_threshold;
        lemma_match_origin(all, scores, false, k);
    }
    if exists|i: int|
        0 <= i < all.len() && (score_at(all, scores, i) matches Some(score) && similarity::at_least(
            score,
            (#[trigger] all[i]).threshold,
        )) {
        let i = choose|i: int|
            0 <= i < all.len() && (score_at(all, scores, i) matches Some(score)
                && similarity::at_least(score, (#[trigger] all[i]).threshold));
        lemma_match_found(all, scores, false, i);
        let k = choose|k: int|
            0 <= k < matches.len() && (#[trigger] matches[k]) == match_of(
                all[i],
                score_at(all, scores, i)->0,
            );
        assert(matches[k].above_threshold);
    }
}

/// Where no vector is needed for any receptor because the decision on every message is the same, it
/// is: the evidence does not change it.
pub proof fn law_some_layers_need_no_evidence(
    layer: LayerView,
    one: EvidenceView,
    other: EvidenceView,
)
    requires
        decides_alone(layer),
    ensures
        decision(layer, one) == decision(layer, other),
{
    lemma_first_wildcard(layer.receptors);
    lemma_no_veto_no_match(layer.receptors, one.scores);
    lemma_no_veto_no_match(layer.receptors, other.scores);
}

proof fn lemma_no_veto_no_match(receptors: Seq<ReceptorView>, scores: Seq<Option<u32>>)
    ensures
        !has_class(receptors, ReceptorClass::Veto) ==> matches_of(receptors, scores, true).len()
            == 0,
{
    if matches_of(receptors, scores, true).len() > 0 {
        lemma_match_origin(receptors, scores, true, 0);
    }
}

/// A message that was compared with a receptor that is no veto, and reaches its threshold, is
/// delivered, unless a veto is reached or the plugin failed to say whether one is.
pub proof fn law_reached_receptor_delivers(layer: LayerView, evidence: EvidenceView, i: int)
    requires
        0 <= i < layer.receptors.len(),
        layer.receptors[i].class.interest(),
        score_at(layer.receptors, evidence.scores, i) matches Some(score) && similarity::at_least(
            score,
            layer.receptors[i].threshold,
        ),
        !layer.degraded,
        !veto_failed(layer, evidence),
        forall|j: int|
            0 <= j < layer.receptors.len() && (#[trigger] layer.receptors[j]).class
                == ReceptorClass::Veto ==> (score_at(layer.receptors, evidence.scores, j) matches Some(
                score,
            ) ==> !similarity::at_least(score, layer.receptors[j].threshold)),
    ensures
        decision(layer, evidence).deliver,
{
    let all = layer.receptors;
    let vetoes = matches_of(all, evidence.scores, true);
    let matches = matches_of(all, evidence.scores, false);
    if any_above(vetoes) {
        let k = choose|k: int| 0 <= k < vetoes.len() && (#[trigger] vetoes[k]).above_threshold;
        lemma_match_origin(all, evidence.scores, true, k);
    }
    lemma_match_found(all, evidence.scores, false, i);
    let k = choose|k: int|
        0 <= k < matches.len() && (#[trigger] matches[k]) == match_of(
            all[i],
            score_at(all, evidence.scores, i)->0,
        );
    assert(matches[k].above_threshold);
}

/// As long as the embeddings suffice, each query has used one.
proof fn lemma_computed_used(
    defs: Seq<DefinitionView>,
    layer_space: Option<Seq<char>>,
    default_threshold: u32,
    served: Set<Seq<char>>,
    vectors: Seq<Seq<u32>>,
)
    ensures
        0 <= computed(defs, layer_space, default_threshold, served, vectors).1 <= vectors.len(),
        computed(defs, layer_space, default_threshold, served, vectors).2 ==> computed(
            defs,
            layer_space,
            default_threshold,
            served,
            vectors,
        ).1 == queries_of(defs, layer_space).len(),
    decreases defs.len(),
{
    if defs.len() > 0 {
        lemma_computed_used(defs.drop_last(), layer_space, default_threshold, served, vectors);
    }
}

/// Every veto among the definitions is among the receptors; where the embeddings sufficed, with a
/// vector, in the space of the definition.
proof fn lemma_computed_keeps_vetoes(
    defs: Seq<DefinitionView>,
    layer_space: Option<Seq<char>>,
    default_threshold: u32,
    served: Set<Seq<char>>,
    vectors: Seq<Seq<u32>>,
    i: int,
)
    requires
        0 <= i < defs.len(),
        defs[i].class == ReceptorClass::Veto,
    ensures
        ({
            let (made, _, complete) = computed(
                defs,
                layer_space,
                default_threshold,
                served,
                vectors,
            );
            exists|k: int|
                0 <= k < made.len() && keeps(defs[i], default_threshold, #[trigger] made[k]) && (
                complete && layer_space is Some ==> made[k].vector is Some && made[k].space_id
                    == Some(space_of(defs[i], layer_space->0)))
        }),
    decreases defs.len(),
{
    let rest = defs.drop_last();
    let (made, _, complete) = computed(defs, layer_space, default_threshold, served, vectors);
    let (before, _, _) = computed(rest, layer_space, default_threshold, served, vectors);
    if i < rest.len() {
        assert(rest[i] == defs[i]);
        lemma_computed_keeps_vetoes(rest, layer_space, default_threshold, served, vectors, i);
        let k = choose|k: int|
            0 <= k < before.len() && keeps(defs[i], default_threshold, #[trigger] before[k]) && (
            computed(rest, layer_space, default_threshold, served, vectors).2 && layer_space is Some
                ==> before[k].vector is Some && before[k].space_id == Some(
                space_of(defs[i], layer_space->0),
            ));
        assert(made[k] == before[k]);
    } else {
        assert(defs.last() == defs[i]);
        assert(keeps(defs[i], default_threshold, made[made.len() - 1]));
    }
}

/// The receptor is what a definition became: its class, name and threshold are the same.
pub open spec fn keeps(d: DefinitionView, default_threshold: u32, r: ReceptorView) -> bool {
    &&& r.class == d.class
    &&& r.receptor_id == d.receptor_id
    &&& r.threshold == threshold_of(d, default_threshold)
}

/// Every configured veto is a receptor of the layer, whatever became of the embeddings. In a layer
/// that is not degraded it has a vector, in the space that it names or else in that of the layer.
pub proof fn law_configured_vetoes_are_kept(inputs: LayerInputs, i: int)
    requires
        inputs.packs_configured,
        inputs.definitions matches Some(defs) && 0 <= i < defs.len() && defs[i].class
            == ReceptorClass::Veto,
    ensures
        exists|k: int|
            0 <= k < layer_of(inputs).receptors.len() && keeps(
                inputs.definitions->0[i],
                inputs.threshold,
                #[trigger] layer_of(inputs).receptors[k],
            ) && (!layer_of(inputs).degraded ==> layer_of(inputs).receptors[k].vector is Some
                && layer_of(inputs).space_id is Some && layer_of(inputs).receptors[k].space_id
                == Some(space_of(inputs.definitions->0[i], layer_of(inputs).space_id->0))),
{
    let defs = inputs.definitions->0;
    let layer = layer_of(inputs);
    let (made, _, complete) = computed(
        defs,
        layer.space_id,
        inputs.threshold,
        inputs.served,
        inputs.vectors,
    );
    lemma_computed_keeps_vetoes(
        defs,
        layer.space_id,
        inputs.threshold,
        inputs.served,
        inputs.vectors,
        i,
    );
    let k = choose|k: int|
        0 <= k < made.len() && keeps(defs[i], inputs.threshold, #[trigger] made[k]) && (complete
            && layer.space_id is Some ==> made[k].vector is Some && made[k].space_id == Some(
            space_of(defs[i], layer.space_id->0),
        ));
    assert(keeps(defs[i], inputs.threshold, layer.receptors[k]));
}

/// Where a veto is configured and the layer is degraded, nothing is delivered.
pub proof fn law_configured_veto_fails_closed(inputs: LayerInputs, evidence: EvidenceView)
    requires
        inputs.packs_configured,
        inputs.definitions matches Some(defs) && exists|i: int|
            0 <= i < defs.len() && (#[trigger] defs[i]).class == ReceptorClass::Veto,
        layer_of(inputs).degraded,
    ensures
        !decision(layer_of(inputs), evidence).deliver,
{
    let defs = inputs.definitions->0;
    let i = choose|i: int|
        0 <= i < defs.len() && (#[trigger] defs[i]).class == ReceptorClass::Veto;
    law_configured_vetoes_are_kept(inputs, i);
}

/// Where the embeddings sufficed, every query is in a space that a backend serves.
proof fn lemma_computed_served(
    defs: Seq<DefinitionView>,
    layer_space: Seq<char>,
    default_threshold: u32,
    served: Set<Seq<char>>,
    vectors: Seq<Seq<u32>>,
    i: int,
)
    requires
        0 <= i < defs.len(),
        query_of(defs[i]) is Some,
        computed(defs, Some(layer_space), default_threshold, served, vectors).2,
    ensures
        served.contains(space_of(defs[i], layer_space)),
    decreases defs.len(),
{
    let rest = defs.drop_last();
    if i < rest.len() {
        assert(rest[i] == defs[i]);
        lemma_computed_served(rest, layer_space, default_threshold, served, vectors, i);
    }
}

/// A layer is degraded where the embedding of a query is missing, and where a query is in a space
/// that no enabled backend serves.
pub proof fn law_missing_embeddings_degrade(inputs: LayerInputs)
    requires
        inputs.packs_configured,
        inputs.definitions is Some,
    ensures
        inputs.vectors.len() < queries_of(inputs.definitions->0, layer_of(inputs).space_id).len()
            ==> layer_of(inputs).degraded,
        (exists|i: int|
            0 <= i < inputs.definitions->0.len() && query_of(
                #[trigger] inputs.definitions->0[i],
            ) is Some && layer_of(inputs).space_id is Some && !inputs.served.contains(
                space_of(inputs.definitions->0[i], layer_of(inputs).space_id->0),
            )) ==> layer_of(inputs).degraded,
{
    let defs = inputs.definitions->0;
    let space_id = layer_of(inputs).space_id;
    lemma_computed_used(defs, space_id, inputs.threshold, inputs.served, inputs.vectors);
    if !layer_of(inputs).degraded && space_id is Some {
        assert forall|i: int| 0 <= i < defs.len() && query_of(
            #[trigger] defs[i],
        ) is Some implies inputs.served.contains(space_of(defs[i], space_id->0)) by {
            lemma_computed_served(
                defs,
                space_id->0,
                inputs.threshold,
                inputs.served,
                inputs.vectors,
                i,
            );
        }
    }
}

/// Every receptor with a vector comes from a definition whose query has been embedded: the vector is
/// the one at the place of that query, and the space is the one in which that query was embedded.
pub proof fn law_receptor_is_compared_in_the_space_of_its_query(
    defs: Seq<DefinitionView>,
    layer_space: Option<Seq<char>>,
    default_threshold: u32,
    served: Set<Seq<char>>,
    vectors: Seq<Seq<u32>>,
    k: int,
)
    requires
        0 <= k < computed(defs, layer_space, default_threshold, served, vectors).0.len(),
        computed(defs, layer_space, default_threshold, served, vectors).0[k].vector is Some,
    ensures
        exists|i: int, j: int|
            0 <= i < defs.len() && 0 <= j < queries_of(defs, layer_space).len() && j
                < vectors.len() && keeps(
                #[trigger] defs[i],
                default_threshold,
                computed(defs, layer_space, default_threshold, served, vectors).0[k],
            ) && query_of(defs[i]) == Some(
                (#[trigger] queries_of(defs, layer_space)[j]).query,
            ) && computed(defs, layer_space, default_threshold, served, vectors).0[k].vector == Some(
                vectors[j],
            ) && computed(defs, layer_space, default_threshold, served, vectors).0[k].space_id
                == Some(queries_of(defs, layer_space)[j].space_id),
    decreases defs.len(),
{
    let (made, _, _) = computed(defs, layer_space, default_threshold, served, vectors);
    let queries = queries_of(defs, layer_space);
    let r = made[k];
    if defs.len() > 0 {
        let rest = defs.drop_last();
        let (before, used, _) = computed(rest, layer_space, default_threshold, served, vectors);
        let earlier = queries_of(rest, layer_space);
        lemma_computed_used(rest, layer_space, default_threshold, served, vectors);
        if k < before.len() {
            assert(made[k] == before[k]);
            law_receptor_is_compared_in_the_space_of_its_query(
                rest,
                layer_space,
                default_threshold,
                served,
                vectors,
                k,
            );
            let (i, j) = choose|i: int, j: int|
                0 <= i < rest.len() && 0 <= j < earlier.len() && j < vectors.len() && keeps(
                    #[trigger] rest[i],
                    default_threshold,
                    r,
                ) && query_of(rest[i]) == Some((#[trigger] earlier[j]).query) && r.vector == Some(
                    vectors[j],
                ) && r.space_id == Some(earlier[j].space_id);
            assert(defs[i] == rest[i]);
            assert(queries[j] == earlier[j]);
        } else {
            assert(defs[defs.len() - 1] == defs.last());
            assert(queries[used] == (QueryView {
                query: query_of(defs.last())->0,
                space_id: space_of(defs.last(), layer_space->0),
            }));
        }
    }
}

/// Where veto receptors are configured and the layer is degraded, nothing is delivered; without
/// them, a degraded layer delivers everything.
pub proof fn law_degraded_layer(layer: LayerView, evidence: EvidenceView)
    requires
        layer.degraded,
        layer.receptors.len() > 0,
    ensures
        decision(layer, evidence).deliver <==> !has_class(layer.receptors, ReceptorClass::Veto),
{
}

/// A layer in which no receptor can accept a message, be it empty or made of vetoes only, accepts
/// what is not vetoed: for want of a receptor no message is held back.
pub proof fn law_no_message_lacks_an_active_receptor(layer: LayerView, evidence: EvidenceView)
    ensures
        decision(layer, evidence).disposition != AttentionDisposition::NoActiveReceptor,
{
}

/// A message is delivered exactly if the decision says so in its disposition too.
pub proof fn law_disposition_agrees(layer: LayerView, evidence: EvidenceView)
    ensures
        decision(layer, evidence).deliver <==> decision(layer, evidence).disposition
            == AttentionDisposition::Deliver,
{
}

/// A ranking holds the same matches, and where all scores are numbers, none exceeds one before it.
pub proof fn law_ranking_is_sorted(matches: Seq<MatchView>)
    ensures
        ranked(matches).to_multiset() == matches.to_multiset(),
        (forall|i: int| 0 <= i < matches.len() ==> !similarity::not_a_number((#[trigger] matches[i]).score))
            ==> forall|i: int, j: int|
            0 <= i < j < ranked(matches).len() ==> !similarity::exceeds(
                (#[trigger] ranked(matches)[j]).score,
                (#[trigger] ranked(matches)[i]).score,
            ),
    decreases matches.len(),
{
    broadcast use vstd::seq_lib::group_to_multiset_ensures;
    if matches.len() > 0 {
        let rest = matches.drop_last();
        let m = matches.last();
        law_ranking_is_sorted(rest);
        lemma_ranked_with(ranked(rest), m);
        assert(matches == rest.push(m));
        if forall|i: int| 0 <= i < matches.len() ==> !similarity::not_a_number((#[trigger] matches[i]).score) {
            assert forall|i: int| 0 <= i < rest.len() implies !similarity::not_a_number(
                (#[trigger] rest[i]).score,
            ) by {
                assert(rest[i] == matches[i]);
            }
            assert(!similarity::not_a_number(matches[matches.len() - 1].score));
            lemma_numbers_kept(rest);
            lemma_ranked_with_sorted(ranked(rest), m);
        }
    }
}

proof fn lemma_ranked_with(ranking: Seq<MatchView>, m: MatchView)
    ensures
        ranked_with(ranking, m).to_multiset() == ranking.to_multiset().insert(m),
    decreases ranking.len(),
{
    broadcast use vstd::seq_lib::group_to_multiset_ensures;
    if ranking.len() == 0 || !similarity::exceeds(m.score, ranking.last().score) {
    } else {
        lemma_ranked_with(ranking.drop_last(), m);
        assert(ranking == ranking.drop_last().push(ranking.last()));
        assert(ranking.drop_last().to_multiset().insert(m).insert(ranking.last())
            =~= ranking.drop_last().to_multiset().insert(ranking.last()).insert(m));
    }
}

proof fn lemma_numbers_kept(matches: Seq<MatchView>)
    requires
        forall|i: int| 0 <= i < matches.len() ==> !similarity::not_a_number((#[trigger] matches[i]).score),
    ensures
        forall|i: int|
            0 <= i < ranked(matches).len() ==> !similarity::not_a_number(
                (#[trigger] ranked(matches)[i]).score,
            ),
    decreases matches.len(),
{
    if matches.len() > 0 {
        let rest = matches.drop_last();
        assert forall|i: int| 0 <= i < rest.len() implies !similarity::not_a_number(
            (#[trigger] rest[i]).score,
        ) by {
            assert(rest[i] == matches[i]);
        }
        lemma_numbers_kept(rest);
        assert(!similarity::not_a_number(matches[matches.len() - 1].score));
        lemma_numbers_kept_with(ranked(rest), matches.last());
    }
}

proof fn lemma_numbers_kept_with(ranking: Seq<MatchView>, m: MatchView)
    requires
        !similarity::not_a_number(m.score),
        forall|i: int| 0 <= i < ranking.len() ==> !similarity::not_a_number((#[trigger] ranking[i]).score),
    ensures
        forall|i: int|
            0 <= i < ranked_with(ranking, m).len() ==> !similarity::not_a_number(
                (#[trigger] ranked_with(ranking, m)[i]).score,
            ),
    decreases ranking.len(),
{
    if ranking.len() == 0 || !similarity::exceeds(m.score, ranking.last().score) {
    } else {
        let rest = ranking.drop_last();
        assert forall|i: int| 0 <= i < rest.len() implies !similarity::not_a_number(
            (#[trigger] rest[i]).score,
        ) by {
            assert(rest[i] == ranking[i]);
        }
        assert(!similarity::not_a_number(ranking[ranking.len() - 1].score));
        lemma_numbers_kept_with(rest, m);
    }
}

spec fn bounded_by(ranking: Seq<MatchView>, score: u32) -> bool {
    forall|i: int| 0 <= i < ranking.len() ==> !similarity::exceeds(score, (#[trigger] ranking[i]).score)
}

proof fn lemma_ranked_with_sorted(ranking: Seq<MatchView>, m: MatchView)
    requires
        !similarity::not_a_number(m.score),
        forall|i: int| 0 <= i < ranking.len() ==> !similarity::not_a_number((#[trigger] ranking[i]).score),
        forall|i: int, j: int|
            0 <= i < j < ranking.len() ==> !similarity::exceeds(
                (#[trigger] ranking[j]).score,
                (#[trigger] ranking[i]).score,
            ),
    ensures
        forall|i: int, j: int|
            0 <= i < j < ranked_with(ranking, m).len() ==> !similarity::exceeds(
                (#[trigger] ranked_with(ranking, m)[j]).score,
                (#[trigger] ranked_with(ranking, m)[i]).score,
            ),
        forall|score: u32|
            bounded_by(ranking, score) && !similarity::exceeds(score, m.score) ==> #[trigger] bounded_by(
                ranked_with(ranking, m),
                score,
            ),
    decreases ranking.len(),
{
    let out = ranked_with(ranking, m);
    if ranking.len() == 0 || !similarity::exceeds(m.score, ranking.last().score) {
        assert forall|i: int, j: int| 0 <= i < j < out.len() implies !similarity::exceeds(
            (#[trigger] out[j]).score,
            (#[trigger] out[i]).score,
        ) by {
            if j == ranking.len() {
                let last = ranking[ranking.len() - 1];
                if i < ranking.len() - 1 {
                    assert(!similarity::exceeds(last.score, ranking[i].score));
                }
            }
        }
    } else {
        let rest = ranking.drop_last();
        let last = ranking.last();
        assert forall|i: int| 0 <= i < rest.len() implies !similarity::not_a_number(
            (#[trigger] rest[i]).score,
        ) by {
            assert(rest[i] == ranking[i]);
        }
        lemma_ranked_with_sorted(rest, m);
        let head = ranked_with(rest, m);
        assert(bounded_by(rest, last.score)) by {
            assert forall|i: int| 0 <= i < rest.len() implies !similarity::exceeds(
                last.score,
                (#[trigger] rest[i]).score,
            ) by {
                assert(rest[i] == ranking[i]);
                assert(last == ranking[ranking.len() - 1]);
            }
        }
        assert(bounded_by(head, last.score));
        assert forall|i: int, j: int| 0 <= i < j < out.len() implies !similarity::exceeds(
            (#[trigger] out[j]).score,
            (#[trigger] out[i]).score,
        ) by {
            if j == head.len() {
                assert(out[i] == head[i]);
            } else {
                assert(out[i] == head[i] && out[j] == head[j]);
            }
        }
        assert forall|score: u32|
            bounded_by(ranking, score) && !similarity::exceeds(score, m.score) implies #[trigger] bounded_by(
            out,
            score,
        ) by {
            assert(bounded_by(rest, score)) by {
                assert forall|i: int| 0 <= i < rest.len() implies !similarity::exceeds(
                    score,
                    (#[trigger] rest[i]).score,
                ) by {
                    assert(rest[i] == ranking[i]);
                }
            }
            assert(bounded_by(head, score));
            assert forall|i: int| 0 <= i < out.len() implies !similarity::exceeds(
                score,
                (#[trigger] out[i]).score,
            ) by {
                if i < head.len() {
                    assert(out[i] == head[i]);
                } else {
                    assert(out[i] == ranking[ranking.len() - 1]);
                }
            }
        }
    }
}

/// The backend of a layer is the first that is enabled.
pub proof fn law_first_enabled_backend_is_taken(backends: Seq<EmbeddingBackendConfig>)
    ensures
        first_enabled(backends) is Some <==> exists|i: int|
            0 <= i < backends.len() && (#[trigger] backends[i]).enabled,
        first_enabled(backends) matches Some(k) ==> 0 <= k < backends.len() && backends[k].enabled
            && (forall|i: int| 0 <= i < k ==> !(#[trigger] backends[i]).enabled) && backend_space(
            backends,
        ) == Some(backends[k].default_space_id@),
        first_enabled(backends) is None ==> backend_space(backends) is None,
    decreases backends.len(),
{
    if backends.len() > 0 {
        let rest = backends.skip(1);
        law_first_enabled_backend_is_taken(rest);
        assert(forall|i: int| 0 <= i < rest.len() ==> #[trigger] rest[i] == backends[i + 1]);
        assert(forall|i: int| 1 <= i < backends.len() ==> #[trigger] backends[i] == rest[i - 1]);
        if let Some(k) = first_enabled(rest) {
            assert(backends[k + 1].enabled);
        }
    }
}

/// A space is served exactly if an enabled backend is for it, and the first of them serves it.
pub proof fn law_first_backend_of_a_space_serves_it(
    backends: Seq<EmbeddingBackendConfig>,
    space_id: Seq<char>,
)
    ensures
        served_spaces(backends).contains(space_id) <==> exists|i: int|
            0 <= i < backends.len() && (#[trigger] backends[i]).enabled
                && backends[i].default_space_id@ == space_id,
        serving(backends, space_id) is Some <==> served_spaces(backends).contains(space_id),
        serving(backends, space_id) matches Some(k) ==> 0 <= k < backends.len()
            && backends[k].enabled && backends[k].default_space_id@ == space_id && forall|i: int|
            0 <= i < k ==> !((#[trigger] backends[i]).enabled && backends[i].default_space_id@
                == space_id),
    decreases backends.len(),
{
    if backends.len() > 0 {
        let rest = backends.skip(1);
        law_first_backend_of_a_space_serves_it(rest, space_id);
        assert(forall|i: int| 0 <= i < rest.len() ==> #[trigger] rest[i] == backends[i + 1]);
        assert(forall|i: int| 1 <= i < backends.len() ==> #[trigger] backends[i] == rest[i - 1]);
        if let Some(k) = serving(rest, space_id) {
            assert(backends[k + 1].enabled);
        }
    }
}

/// The embedding of a message in a space is the first that was supplied for it.
pub proof fn law_first_supplied_embedding_is_taken(
    supplied: Seq<EmbeddingView>,
    space_id: Seq<char>,
)
    ensures
        embedding_in(supplied, space_id) is Some <==> exists|i: int|
            0 <= i < supplied.len() && (#[trigger] supplied[i]).space_id == space_id,
        embedding_in(supplied, space_id) matches Some(k) ==> 0 <= k < supplied.len()
            && supplied[k].space_id == space_id && forall|i: int|
            0 <= i < k ==> (#[trigger] supplied[i]).space_id != space_id,
    decreases supplied.len(),
{
    if supplied.len() > 0 {
        let rest = supplied.skip(1);
        law_first_supplied_embedding_is_taken(rest, space_id);
        assert(forall|i: int| 0 <= i < rest.len() ==> #[trigger] rest[i] == supplied[i + 1]);
        assert(forall|i: int| 1 <= i < supplied.len() ==> #[trigger] supplied[i] == rest[i - 1]);
        if let Some(k) = embedding_in(rest, space_id) {
            assert(supplied[k + 1].space_id == space_id);
        }
    }
}

/// The wildcard that accepts a message is the first.
pub proof fn law_first_wildcard_is_taken(receptors: Seq<ReceptorView>)
    ensures
        first_wildcard(receptors) is Some <==> exists|i: int|
            0 <= i < receptors.len() && (#[trigger] receptors[i]).class == ReceptorClass::Wildcard,
        first_wildcard(receptors) matches Some(k) ==> 0 <= k < receptors.len()
            && receptors[k].class == ReceptorClass::Wildcard && forall|i: int|
            0 <= i < k ==> (#[trigger] receptors[i]).class != ReceptorClass::Wildcard,
    decreases receptors.len(),
{
    if receptors.len() > 0 {
        let rest = receptors.skip(1);
        law_first_wildcard_is_taken(rest);
        assert(forall|i: int| 0 <= i < rest.len() ==> #[trigger] rest[i] == receptors[i + 1]);
        assert(forall|i: int| 1 <= i < receptors.len() ==> #[trigger] receptors[i] == rest[i - 1]);
        if let Some(k) = first_wildcard(rest) {
            assert(receptors[k + 1].class == ReceptorClass::Wildcard);
        }
    }
}

/// A receptor has a query exactly if it is no wildcard and its query is not blank; the query is taken
/// without the white space around it.
pub proof fn law_receptor_has_its_query(d: DefinitionView)
    ensures
        query_of(d) is Some <==> d.class != ReceptorClass::Wildcard && text::trimmed(d.query).len()
            > 0,
        query_of(d) matches Some(query) ==> query == text::trimmed(d.query),
{
}

/// Every query of the receptors is embedded, in its own space or else in that of the layer, in the order
/// of the receptors; the places are those of the receptors that have one.
pub proof fn law_every_query_is_embedded(defs: Seq<DefinitionView>, layer_space: Seq<char>) -> (at:
    Seq<int>)
    ensures
        lists::places(at, defs.len() as int),
        queries_of(defs, Some(layer_space)).len() == at.len(),
        forall|k: int|
            0 <= k < at.len() ==> query_of(defs[#[trigger] at[k]]) == Some(
                queries_of(defs, Some(layer_space))[k].query,
            ),
        forall|k: int|
            0 <= k < at.len() ==> match defs[#[trigger] at[k]].space_id {
                Some(own) => queries_of(defs, Some(layer_space))[k].space_id == own,
                None => queries_of(defs, Some(layer_space))[k].space_id == layer_space,
            },
        forall|i: int|
            0 <= i < defs.len() && query_of(#[trigger] defs[i]) is Some ==> at.contains(i),
        queries_of(defs, None).len() == 0,
    decreases defs.len(),
{
    if defs.len() == 0 {
        Seq::empty()
    } else {
        let rest = defs.drop_last();
        let n = rest.len() as int;
        let before = law_every_query_is_embedded(rest, layer_space);
        lists::lemma_places_grow(before, n);
        let queries = queries_of(defs, Some(layer_space));
        let earlier = queries_of(rest, Some(layer_space));
        assert(forall|i: int| 0 <= i < n ==> #[trigger] rest[i] == defs[i]);
        let at = if query_of(defs.last()) is Some {
            before.push(n)
        } else {
            before
        };
        assert forall|k: int| 0 <= k < at.len() implies query_of(defs[#[trigger] at[k]]) == Some(
            queries[k].query,
        ) && match defs[at[k]].space_id {
            Some(own) => queries[k].space_id == own,
            None => queries[k].space_id == layer_space,
        } by {
            if k < before.len() {
                assert(at[k] == before[k]);
                assert(rest[before[k]] == defs[at[k]]);
                assert(queries[k] == earlier[k]);
            }
        }
        assert forall|i: int|
            0 <= i < defs.len() && query_of(#[trigger] defs[i]) is Some implies at.contains(i) by {
            if i < n {
                assert(rest[i] == defs[i]);
                let k = choose|k: int| 0 <= k < before.len() && before[k] == i;
                assert(at[k] == i);
            } else {
                assert(at[before.len() as int] == i);
            }
        }
        at
    }
}

/// Every receptor that was compared is a match, with its own score and threshold, in the order of the
/// receptors; where only vetoes are asked for, every veto that was compared. The places are those of the
/// receptors that match.
pub proof fn law_every_compared_receptor_is_a_match(
    receptors: Seq<ReceptorView>,
    scores: Seq<Option<u32>>,
    veto_only: bool,
) -> (at: Seq<int>)
    ensures
        lists::places(at, receptors.len() as int),
        matches_of(receptors, scores, veto_only).len() == at.len(),
        forall|k: int|
            0 <= k < at.len() ==> {
                let m = matches_of(receptors, scores, veto_only)[k];
                let r = receptors[#[trigger] at[k]];
                &&& m.receptor_id == r.receptor_id
                &&& m.class == r.class
                &&& m.threshold == r.threshold
                &&& score_at(receptors, scores, at[k]) == Some(m.score)
                &&& m.above_threshold <==> similarity::at_least(m.score, m.threshold)
                &&& veto_only ==> r.class == ReceptorClass::Veto
            },
        forall|i: int|
            0 <= i < receptors.len() && (#[trigger] score_at(receptors, scores, i)) is Some && (
            !veto_only || receptors[i].class == ReceptorClass::Veto) ==> at.contains(i),
    decreases receptors.len(),
{
    if receptors.len() == 0 {
        Seq::empty()
    } else {
        let rest = receptors.drop_last();
        let n = rest.len() as int;
        let before = law_every_compared_receptor_is_a_match(rest, scores, veto_only);
        lists::lemma_places_grow(before, n);
        assert(forall|i: int| 0 <= i < n ==> #[trigger] rest[i] == receptors[i]);
        assert(forall|i: int|
            0 <= i < n ==> #[trigger] score_at(rest, scores, i) == score_at(receptors, scores, i));
        assert(forall|i: int|
            0 <= i < n ==> score_at(rest, scores, i) == #[trigger] score_at(receptors, scores, i));
        let all = matches_of(receptors, scores, veto_only);
        let earlier = matches_of(rest, scores, veto_only);
        let taken = score_at(receptors, scores, n) is Some && (!veto_only || receptors[n].class
            == ReceptorClass::Veto);
        let at = if taken {
            before.push(n)
        } else {
            before
        };
        assert forall|k: int| 0 <= k < at.len() implies ({
            let m = all[k];
            let r = receptors[#[trigger] at[k]];
            &&& m.receptor_id == r.receptor_id
            &&& m.class == r.class
            &&& m.threshold == r.threshold
            &&& score_at(receptors, scores, at[k]) == Some(m.score)
            &&& m.above_threshold <==> similarity::at_least(m.score, m.threshold)
            &&& veto_only ==> r.class == ReceptorClass::Veto
        }) by {
            if k < before.len() {
                assert(at[k] == before[k]);
                assert(rest[before[k]] == receptors[at[k]]);
                assert(all[k] == earlier[k]);
                assert(score_at(rest, scores, before[k]) == score_at(receptors, scores, at[k]));
            }
        }
        assert forall|i: int|
            0 <= i < receptors.len() && (#[trigger] score_at(receptors, scores, i)) is Some && (
            !veto_only || receptors[i].class == ReceptorClass::Veto) implies at.contains(i) by {
            if i < n {
                assert(rest[i] == receptors[i]);
                assert(score_at(rest, scores, i) is Some);
                let k = choose|k: int| 0 <= k < before.len() && before[k] == i;
                assert(at[k] == i);
            } else {
                assert(at[before.len() as int] == i);
            }
        }
        at
    }
}

/// The space of a comparison is that of the first receptor that was compared in one.
pub proof fn law_space_of_the_first_comparison(
    receptors: Seq<ReceptorView>,
    scores: Seq<Option<u32>>,
)
    ensures
        compared_space(receptors, scores) is Some <==> exists|i: int|
            0 <= i < receptors.len() && (#[trigger] score_at(receptors, scores, i)) is Some
                && receptors[i].space_id is Some,
        compared_space(receptors, scores) matches Some(space_id) ==> exists|i: int|
            0 <= i < receptors.len() && (#[trigger] score_at(receptors, scores, i)) is Some
                && receptors[i].space_id == Some(space_id) && forall|j: int|
                0 <= j < i ==> (#[trigger] score_at(receptors, scores, j)) is None
                    || receptors[j].space_id is None,
    decreases receptors.len(),
{
    if receptors.len() > 0 {
        let rest = receptors.drop_last();
        let n = rest.len() as int;
        law_space_of_the_first_comparison(rest, scores);
        assert(forall|i: int| 0 <= i < n ==> #[trigger] rest[i] == receptors[i]);
        assert(forall|i: int|
            0 <= i < n ==> #[trigger] score_at(rest, scores, i) == score_at(receptors, scores, i));
        assert(forall|i: int|
            0 <= i < n ==> score_at(rest, scores, i) == #[trigger] score_at(receptors, scores, i));
        if let Some(space_id) = compared_space(rest, scores) {
            let i = choose|i: int|
                0 <= i < rest.len() && (#[trigger] score_at(rest, scores, i)) is Some
                    && rest[i].space_id == Some(space_id) && forall|j: int|
                    0 <= j < i ==> (#[trigger] score_at(rest, scores, j)) is None
                        || rest[j].space_id is None;
            assert(score_at(receptors, scores, i) is Some);
            assert forall|j: int| 0 <= j < i implies (#[trigger] score_at(receptors, scores, j))
                is None || receptors[j].space_id is None by {
                assert(score_at(rest, scores, j) == score_at(receptors, scores, j));
                assert(rest[j] == receptors[j]);
            }
        } else {
            assert(score_at(receptors, scores, n) is Some || score_at(receptors, scores, n)
                is None);
        }
    }
}

/// What is reported of a message that was compared: the vetoes that were compared if it is vetoed, and
/// else all receptors that were, best first; a veto that could not be compared is noted.
pub proof fn law_decision_reports_the_matches(layer: LayerView, evidence: EvidenceView)
    requires
        !layer.degraded,
        layer.receptors.len() > 0,
    ensures
        ({
            let result = decision(layer, evidence);
            let vetoes = matches_of(layer.receptors, evidence.scores, true);
            let matches = matches_of(layer.receptors, evidence.scores, false);
            &&& result.veto_not_evaluated <==> exists|i: int|
                0 <= i < layer.receptors.len() && (#[trigger] layer.receptors[i]).class
                    == ReceptorClass::Veto && score_at(layer.receptors, evidence.scores, i) is None
            &&& result.disposition == AttentionDisposition::Vetoed ==> result.matches.to_multiset()
                == vetoes.to_multiset()
            &&& result.disposition == AttentionDisposition::Filtered
                ==> result.matches.to_multiset() == matches.to_multiset()
            &&& result.deliver && !has_class(layer.receptors, ReceptorClass::Wildcard)
                ==> result.matches.to_multiset() == matches.to_multiset()
            &&& result.deliver && has_class(layer.receptors, ReceptorClass::Wildcard)
                ==> result.matches.len() == 1 && result.matches[0].above_threshold
                && result.matches[0].class == ReceptorClass::Wildcard
            &&& result.disposition == AttentionDisposition::EvaluationUnavailable
                ==> matches.len() == 0
            &&& result.fallback <==> result.deliver && vetoes_only(layer.receptors)
            &&& result.space_id == (if result.deliver && has_class(
                layer.receptors,
                ReceptorClass::Wildcard,
            ) {
                None
            } else {
                compared_space(layer.receptors, evidence.scores)
            })
        }),
{
    law_first_wildcard_is_taken(layer.receptors);
    law_ranking_is_sorted(matches_of(layer.receptors, evidence.scores, true));
    law_ranking_is_sorted(matches_of(layer.receptors, evidence.scores, false));
    if let Some(k) = first_wildcard(layer.receptors) {
        assert(layer.receptors[k].class == ReceptorClass::Wildcard);
        assert(!vetoes_only(layer.receptors));
    }
    if vetoes_only(layer.receptors) {
        assert(layer.receptors[0].class == ReceptorClass::Veto);
    }
}

/// The vector with which a message is compared to a receptor: the one that was supplied for the
/// receptor's space, or else the plugin's, if it is for that space.
pub proof fn law_message_is_compared_in_the_space_of_the_receptor(
    layer: LayerView,
    r: ReceptorView,
    supplied: Seq<EmbeddingView>,
    generated: Option<Seq<u32>>,
    space_id: Seq<char>,
)
    requires
        supplied.len() <= usize::MAX,
        !decides_alone(layer),
        r.vector is Some,
        r.space_id == Some(space_id),
    ensures
        ({
            let vector = message_vector(source_for(layer, r, supplied), supplied, generated);
            &&& embedding_in(supplied, space_id) matches Some(k) ==> vector == Some(
                supplied[k].vector,
            )
            &&& embedding_in(supplied, space_id) is None && layer.has_plugin && layer.space_id
                == Some(space_id) ==> vector == generated
            &&& embedding_in(supplied, space_id) is None && !(layer.has_plugin && layer.space_id
                == Some(space_id)) ==> vector is None
        }),
{
    law_first_supplied_embedding_is_taken(supplied, space_id);
}

/// A receptor has the threshold of its definition, or else that of the layer, and its own space, or
/// else the layer's.
pub proof fn law_own_settings_come_first(
    d: DefinitionView,
    default_threshold: u32,
    layer_space: Seq<char>,
    vector: Seq<u32>,
)
    ensures
        ({
            let made = embedded_receptor(d, default_threshold, vector, layer_space);
            &&& made.receptor_id == d.receptor_id
            &&& made.class == d.class
            &&& made.vector == Some(vector)
            &&& match d.threshold {
                Some(t) => made.threshold == t && bare_receptor(d, default_threshold).threshold
                    == t,
                None => made.threshold == default_threshold && bare_receptor(
                    d,
                    default_threshold,
                ).threshold == default_threshold,
            }
            &&& match d.space_id {
                Some(own) => made.space_id == Some(own),
                None => made.space_id == Some(layer_space),
            }
        }),
        bare_receptor(d, default_threshold).receptor_id == d.receptor_id,
        bare_receptor(d, default_threshold).class == d.class,
        bare_receptor(d, default_threshold).vector is None,
{
}

/// A layer that is not degraded has every receptor: each wildcard, and each that has a query, with a
/// vector.
pub proof fn law_complete_layer_has_every_receptor(inputs: LayerInputs, i: int)
    requires
        inputs.packs_configured,
        inputs.definitions matches Some(defs) && 0 <= i < defs.len(),
        !layer_of(inputs).degraded,
        inputs.definitions->0[i].class == ReceptorClass::Wildcard || query_of(
            inputs.definitions->0[i],
        ) is Some,
    ensures
        exists|k: int|
            0 <= k < layer_of(inputs).receptors.len() && keeps(
                inputs.definitions->0[i],
                inputs.threshold,
                #[trigger] layer_of(inputs).receptors[k],
            ) && (inputs.definitions->0[i].class != ReceptorClass::Wildcard ==> layer_of(
                inputs,
            ).receptors[k].vector is Some),
{
    let space = layer_of(inputs).space_id;
    let defs = inputs.definitions->0;
    assert(space is Some);
    let k = lemma_computed_has(
        defs,
        space,
        inputs.threshold,
        inputs.served,
        inputs.vectors,
        i,
    );
    assert(keeps(defs[i], inputs.threshold, layer_of(inputs).receptors[k]));
}

proof fn lemma_computed_has(
    defs: Seq<DefinitionView>,
    layer_space: Option<Seq<char>>,
    default_threshold: u32,
    served: Set<Seq<char>>,
    vectors: Seq<Seq<u32>>,
    i: int,
) -> (k: int)
    requires
        layer_space is Some,
        computed(defs, layer_space, default_threshold, served, vectors).2,
        0 <= i < defs.len(),
        defs[i].class == ReceptorClass::Wildcard || query_of(defs[i]) is Some,
    ensures
        0 <= k < computed(defs, layer_space, default_threshold, served, vectors).0.len(),
        keeps(
            defs[i],
            default_threshold,
            computed(defs, layer_space, default_threshold, served, vectors).0[k],
        ),
        defs[i].class != ReceptorClass::Wildcard ==> computed(
            defs,
            layer_space,
            default_threshold,
            served,
            vectors,
        ).0[k].vector is Some,
    decreases defs.len(),
{
    let rest = defs.drop_last();
    let made = computed(rest, layer_space, default_threshold, served, vectors).0;
    if i < rest.len() {
        assert(rest[i] == defs[i]);
        let k = lemma_computed_has(rest, layer_space, default_threshold, served, vectors, i);
        assert(computed(defs, layer_space, default_threshold, served, vectors).0[k] == made[k]);
        k
    } else {
        made.len() as int
    }
}

/// A layer with an available backend, and with a vector for every query in a space that is served, is
/// not degraded.
pub proof fn law_good_layer_is_not_degraded(inputs: LayerInputs)
    requires
        inputs.backend_space is Some,
        inputs.backend_available,
        inputs.definitions matches Some(defs) && inputs.vectors.len() >= queries_of(
            defs,
            inputs.backend_space,
        ).len() && forall|i: int|
            0 <= i < defs.len() ==> ((#[trigger] defs[i]).class == ReceptorClass::Veto ==> query_of(
                defs[i],
            ) is Some) && (query_of(defs[i]) is Some ==> inputs.served.contains(
                space_of(defs[i], inputs.backend_space->0),
            )),
    ensures
        !layer_of(inputs).degraded,
        layer_of(inputs).has_plugin,
        layer_of(inputs).space_id == inputs.backend_space,
{
    lemma_all_computed(
        inputs.definitions->0,
        inputs.backend_space,
        inputs.threshold,
        inputs.served,
        inputs.vectors,
    );
}

proof fn lemma_all_computed(
    defs: Seq<DefinitionView>,
    layer_space: Option<Seq<char>>,
    default_threshold: u32,
    served: Set<Seq<char>>,
    vectors: Seq<Seq<u32>>,
)
    requires
        layer_space is Some,
        vectors.len() >= queries_of(defs, layer_space).len(),
        forall|i: int|
            0 <= i < defs.len() ==> ((#[trigger] defs[i]).class == ReceptorClass::Veto ==> query_of(
                defs[i],
            ) is Some) && (query_of(defs[i]) is Some ==> served.contains(
                space_of(defs[i], layer_space->0),
            )),
    ensures
        computed(defs, layer_space, default_threshold, served, vectors).2,
        computed(defs, layer_space, default_threshold, served, vectors).1 == queries_of(
            defs,
            layer_space,
        ).len(),
    decreases defs.len(),
{
    if defs.len() > 0 {
        let rest = defs.drop_last();
        assert(forall|i: int| 0 <= i < rest.len() ==> #[trigger] rest[i] == defs[i]);
        lemma_all_computed(rest, layer_space, default_threshold, served, vectors);
        assert(defs[rest.len() as int] == defs.last());
    }
}

/// The mode of a layer tells how it decides.
pub proof fn law_mode_tells_how_the_layer_decides(layer: LayerView, evidence: EvidenceView)
    ensures
        delivery_mode(layer) == "no_active_receptors"@ <==> layer.receptors.len() == 0,
        delivery_mode(layer) == "veto_enforcement_unavailable"@ ==> !decision(
            layer,
            evidence,
        ).deliver,
        delivery_mode(layer) == "degraded"@ ==> decision(layer, evidence).deliver && decision(
            layer,
            evidence,
        ).fallback,
        delivery_mode(layer) == "wildcard"@ <==> !layer.degraded && has_class(
            layer.receptors,
            ReceptorClass::Wildcard,
        ),
        delivery_mode(layer) == "veto_only"@ <==> !layer.degraded && layer.receptors.len() > 0
            && vetoes_only(layer.receptors),
        delivery_mode(layer) == "selective"@ ==> !layer.degraded && !vetoes_only(layer.receptors)
            && !has_class(layer.receptors, ReceptorClass::Wildcard),
        layer.degraded && layer.receptors.len() > 0 ==> delivery_mode(layer) == (if has_class(
            layer.receptors,
            ReceptorClass::Veto,
        ) {
            "veto_enforcement_unavailable"@
        } else {
            "degraded"@
        }),
{
    reveal_strlit("no_active_receptors");
    reveal_strlit("veto_enforcement_unavailable");
    reveal_strlit("degraded");
    reveal_strlit("wildcard");
    reveal_strlit("veto_only");
    reveal_strlit("selective");
    assert("no_active_receptors"@.len() == 19);
    assert("veto_enforcement_unavailable"@.len() == 28);
    assert("degraded"@.len() == 8 && "degraded"@[0] == 'd');
    assert("wildcard"@.len() == 8 && "wildcard"@[0] == 'w');
    assert("veto_only"@.len() == 9 && "veto_only"@[0] == 'v');
    assert("selective"@.len() == 9 && "selective"@[0] == 's');
    if has_class(layer.receptors, ReceptorClass::Wildcard) {
        let i = choose|i: int|
            0 <= i < layer.receptors.len() && (#[trigger] layer.receptors[i]).class
                == ReceptorClass::Wildcard;
        assert(layer.receptors[i].class != ReceptorClass::Veto);
        assert(!vetoes_only(layer.receptors));
    }
}

/// Every match that reaches its threshold is named in the annotation, with its score, in the order of
/// the matches, and no other; without one there is no annotation. The places are those of the matches
/// that are named.
pub proof fn law_annotation_names_every_match(matches: Seq<MatchView>) -> (at: Seq<int>)
    ensures
        lists::places(at, matches.len() as int),
        annotation_lines(matches).len() == at.len(),
        forall|k: int|
            0 <= k < at.len() ==> {
                let m = matches[#[trigger] at[k]];
                &&& m.above_threshold
                &&& annotation_lines(matches)[k] == "  - "@ + m.receptor_id + " ("@
                    + similarity::score_notation(m.score) + ")"@
            },
        forall|i: int|
            0 <= i < matches.len() && (#[trigger] matches[i]).above_threshold ==> at.contains(i),
        annotation(matches) is Some <==> exists|i: int|
            0 <= i < matches.len() && (#[trigger] matches[i]).above_threshold,
        annotation(matches) matches Some(lines) ==> lines == text::joined(
            seq!["ReceptorMatches:"@] + annotation_lines(matches),
            "\n"@,
        ),
    decreases matches.len(),
{
    if matches.len() == 0 {
        Seq::empty()
    } else {
        let rest = matches.drop_last();
        let n = rest.len() as int;
        let before = law_annotation_names_every_match(rest);
        lists::lemma_places_grow(before, n);
        assert(forall|i: int| 0 <= i < n ==> #[trigger] rest[i] == matches[i]);
        let at = if matches.last().above_threshold {
            before.push(n)
        } else {
            before
        };
        let lines = annotation_lines(matches);
        assert forall|k: int| 0 <= k < at.len() implies ({
            let m = matches[#[trigger] at[k]];
            &&& m.above_threshold
            &&& lines[k] == "  - "@ + m.receptor_id + " ("@ + similarity::score_notation(m.score)
                + ")"@
        }) by {
            if k < before.len() {
                assert(at[k] == before[k]);
                assert(rest[before[k]] == matches[at[k]]);
                assert(lines[k] == annotation_lines(rest)[k]);
            }
        }
        assert forall|i: int|
            0 <= i < matches.len() && (#[trigger] matches[i]).above_threshold implies at.contains(
            i,
        ) by {
            if i < n {
                assert(rest[i] == matches[i]);
                let k = choose|k: int| 0 <= k < before.len() && before[k] == i;
                assert(at[k] == i);
            } else {
                assert(at[before.len() as int] == i);
            }
        }
        if at.len() > 0 {
            assert(matches[at[0]].above_threshold);
        }
        at
    }
}

/// Matches that are in order stay as they are: those with the same score keep their order.
pub proof fn law_ordered_matches_stay(matches: Seq<MatchView>)
    requires
        forall|i: int, j: int|
            0 <= i < j < matches.len() ==> !similarity::exceeds(
                (#[trigger] matches[j]).score,
                (#[trigger] matches[i]).score,
            ),
    ensures
        ranked(matches) == matches,
    decreases matches.len(),
{
    if matches.len() > 0 {
        let rest = matches.drop_last();
        assert(forall|i: int| 0 <= i < rest.len() ==> #[trigger] rest[i] == matches[i]);
        law_ordered_matches_stay(rest);
        if rest.len() > 0 {
            assert(!similarity::exceeds(
                matches[rest.len() as int].score,
                matches[rest.len() - 1].score,
            ));
        }
        assert(rest.push(matches.last()) =~= matches);
    }
}

/// A layer whose packs cannot be loaded is degraded, and so is one that has packs but no backend, or a
/// backend that is not there; without packs and with no backend missing it is not.
pub proof fn law_what_degrades_a_layer(inputs: LayerInputs)
    ensures
        inputs.packs_configured && inputs.definitions is None ==> layer_of(inputs).degraded
            && layer_of(inputs).receptors.len() == 0,
        inputs.packs_configured && inputs.backend_space is None ==> layer_of(inputs).degraded,
        inputs.backend_space is Some && !inputs.backend_available ==> layer_of(inputs).degraded,
        !inputs.packs_configured && (inputs.backend_space is None || inputs.backend_available)
            ==> !layer_of(inputs).degraded,
        !inputs.packs_configured ==> layer_of(inputs).receptors.len() == 0,
        layer_of(inputs).has_plugin <==> inputs.backend_space is Some && inputs.backend_available,
        layer_of(inputs).has_plugin ==> layer_of(inputs).space_id == inputs.backend_space,
        !layer_of(inputs).has_plugin ==> layer_of(inputs).space_id is None,
{
}

/// A failure of the plugin blocks a message only for vetoes that the plugin would have had to be asked
/// for.
pub proof fn law_plugin_fails_its_own_vetoes_only(layer: LayerView, evidence: EvidenceView)
    requires
        !layer.degraded,
        forall|i: int|
            0 <= i < layer.receptors.len() && (#[trigger] layer.receptors[i]).class
                == ReceptorClass::Veto && score_at(layer.receptors, evidence.scores, i) is None
                ==> layer.receptors[i].space_id != layer.space_id,
    ensures
        decision(layer, evidence).disposition != AttentionDisposition::VetoEnforcementUnavailable,
{
}

/// A message that a wildcard accepts is reported with the first wildcard and the full score.
pub proof fn law_wildcard_is_reported(layer: LayerView, evidence: EvidenceView, k: int)
    requires
        !layer.degraded,
        0 <= k < layer.receptors.len(),
        layer.receptors[k].class == ReceptorClass::Wildcard,
        forall|i: int|
            0 <= i < k ==> (#[trigger] layer.receptors[i]).class != ReceptorClass::Wildcard,
        decision(layer, evidence).deliver,
    ensures
        decision(layer, evidence).matches.len() == 1,
        decision(layer, evidence).matches[0].receptor_id == layer.receptors[k].receptor_id,
        decision(layer, evidence).matches[0].threshold == layer.receptors[k].threshold,
        decision(layer, evidence).matches[0].score == 0x3f80_0000,
        decision(layer, evidence).matches[0].above_threshold,
{
    law_first_wildcard_is_taken(layer.receptors);
    let first = first_wildcard(layer.receptors)->0;
    assert(layer.receptors[first].class == ReceptorClass::Wildcard);
    assert(first == k);
    assert(!vetoes_only(layer.receptors));
}

/// What a degraded layer reports: no matches, in the space of the layer; that no veto was evaluated is
/// noted exactly if it has one.
pub proof fn law_degraded_layer_reports_nothing(layer: LayerView, evidence: EvidenceView)
    requires
        layer.degraded,
        layer.receptors.len() > 0,
    ensures
        decision(layer, evidence).matches.len() == 0,
        decision(layer, evidence).space_id == layer.space_id,
        decision(layer, evidence).veto_not_evaluated <==> has_class(
            layer.receptors,
            ReceptorClass::Veto,
        ),
        decision(layer, evidence).fallback <==> decision(layer, evidence).deliver,
{
}

/// A layer that has no receptors, that is degraded, or that accepts everything asks for no comparison.
pub proof fn law_no_vector_is_asked_for_in_vain(
    layer: LayerView,
    r: ReceptorView,
    supplied: Seq<EmbeddingView>,
)
    ensures
        layer.receptors.len() == 0 || layer.degraded || has_class(
            layer.receptors,
            ReceptorClass::Wildcard,
        ) && !has_class(layer.receptors, ReceptorClass::Veto) ==> source_for(layer, r, supplied)
            == VectorSource::NotNeeded,
        r.vector is None ==> source_for(layer, r, supplied) == VectorSource::NotNeeded,
        sources_of(layer, supplied).len() == layer.receptors.len(),
        forall|i: int|
            0 <= i < layer.receptors.len() ==> #[trigger] sources_of(layer, supplied)[i]
                == source_for(layer, layer.receptors[i], supplied),
{
}

/// The plugin has failed exactly if it gave no vector though a receptor needed it.
pub proof fn law_plugin_fails_when_it_is_needed<F: Fn(&Vec<u32>, &Vec<u32>) -> u32>(
    layer: LayerView,
    supplied: Seq<EmbeddingView>,
    generated: Option<Seq<u32>>,
    similarity: F,
    evidence: EvidenceView,
)
    requires
        gathered(layer, supplied, generated, similarity, evidence),
    ensures
        evidence.backend_failed <==> generated is None && exists|i: int|
            0 <= i < layer.receptors.len() && (#[trigger] source_for(
                layer,
                layer.receptors[i],
                supplied,
            )) == VectorSource::Plugin,
        evidence.scores.len() == layer.receptors.len(),
        forall|i: int|
            0 <= i < layer.receptors.len() ==> ((#[trigger] evidence.scores[i]) is Some
                <==> message_vector(
                source_for(layer, layer.receptors[i], supplied),
                supplied,
                generated,
            ) is Some),
{
    if plugin_needed(layer, supplied) {
        let i = choose|i: int|
            0 <= i < layer.receptors.len() && source_for(
                layer,
                #[trigger] layer.receptors[i],
                supplied,
            ) == VectorSource::Plugin;
        assert(source_for(layer, layer.receptors[i], supplied) == VectorSource::Plugin);
    }
    if exists|i: int|
        0 <= i < layer.receptors.len() && (#[trigger] source_for(
            layer,
            layer.receptors[i],
            supplied,
        )) == VectorSource::Plugin {
        let i = choose|i: int|
            0 <= i < layer.receptors.len() && (#[trigger] source_for(
                layer,
                layer.receptors[i],
                supplied,
            )) == VectorSource::Plugin;
        assert(plugin_needed(layer, supplied));
    }
}

/// Backends are the same only if they run the same program in the same way.
pub proof fn law_same_backend_runs_the_same_way(
    a: EmbeddingBackendConfig,
    b: EmbeddingBackendConfig,
)
    requires
        same_backend(a, b),
    ensures
        a.backend_id@ == b.backend_id@,
        a.exec_path@ == b.exec_path@,
        a.args@ == b.args@,
        a.default_space_id@ == b.default_space_id@,
        a.enabled == b.enabled,
        a.env@ == b.env@,
{
}

} // verus!
