//! Which messages the daemon pays attention to, and which embeddings go out with one.

use subspace_daemon::attention::embedding_plugin::{
    describe_request, exit_failure, plugin_failure, EmbedResponse, EmbeddingBackendConfig,
    EmbeddingPluginClient, VectorResult,
};
use subspace_daemon::attention::layer::{
    first_enabled_backend, format_attention_annotation, receptor_queries, serving_backend,
    AttentionConfig, AttentionDisposition, AttentionLayer, AttentionResult, Evidence,
    MessageEmbedding, ReceptorMatch, VectorSource,
};
use subspace_daemon::attention::outbound::{
    compose_outbound_embeddings, configured_generated_embedding_clients,
    is_supported_generated_space, merge_outbound_embeddings, spaces_to_generate,
    validate_generated_spaces, OutboundEmbeddingRequest, OPENAI_TEXT_EMBEDDING_3_LARGE_SPACE_ID,
    OPENAI_TEXT_EMBEDDING_3_SMALL_SPACE_ID,
};
use subspace_daemon::attention::receptor::{
    load_receptor_packs, validate_receptor_definition, ComputedReceptor, ReceptorClass,
    ReceptorDefinition, ReceptorPack,
};
use subspace_daemon::attention::similarity::{
    is_at_least, is_greater, score_text, DEFAULT_THRESHOLD, FULL_SCORE,
};
use subspace_daemon::sorted_map::SortedMap;
use subspace_daemon::supervisor::status::AttentionHealth;

const SPACE: &str = "test:model:2:v1";

fn bits(values: &[f32]) -> Vec<u32> {
    values.iter().map(|value| value.to_bits()).collect()
}

fn embedding(space_id: &str, vector: &[f32]) -> MessageEmbedding {
    MessageEmbedding { space_id: space_id.to_string(), vector: bits(vector) }
}

fn receptor(id: &str, class: ReceptorClass, threshold: f32, vector: &[f32]) -> ComputedReceptor {
    ComputedReceptor {
        receptor_id: id.to_string(),
        class,
        threshold: threshold.to_bits(),
        vector: Some(bits(vector)),
        space_id: Some(SPACE.to_string()),
    }
}

fn wildcard(id: &str) -> ComputedReceptor {
    ComputedReceptor {
        receptor_id: id.to_string(),
        class: ReceptorClass::Wildcard,
        threshold: 0.5f32.to_bits(),
        vector: None,
        space_id: None,
    }
}

fn backend(space_id: &str, enabled: bool) -> EmbeddingBackendConfig {
    EmbeddingBackendConfig {
        backend_id: "test".to_string(),
        exec_path: "/embed.sh".to_string(),
        args: Vec::new(),
        default_space_id: space_id.to_string(),
        enabled,
        env: Vec::new(),
    }
}

fn layer(receptors: Vec<ComputedReceptor>, plugin: bool) -> AttentionLayer {
    AttentionLayer {
        receptors,
        plugin: if plugin {
            Some(EmbeddingPluginClient::new(backend(SPACE, true)))
        } else {
            None
        },
        space_id: Some(SPACE.to_string()),
        degraded: false,
    }
}

fn cosine(a: &[f32], b: &[f32]) -> f32 {
    let dot: f32 = a.iter().zip(b.iter()).map(|(x, y)| x * y).sum();
    let norm = |v: &[f32]| v.iter().map(|x| x * x).sum::<f32>().sqrt();
    dot / (norm(a) * norm(b))
}

/// The similarity of two vectors of bits, as bits.
fn similarity(a: &Vec<u32>, b: &Vec<u32>) -> u32 {
    let floats = |v: &Vec<u32>| v.iter().map(|b| f32::from_bits(*b)).collect::<Vec<f32>>();
    cosine(&floats(a), &floats(b)).to_bits()
}

/// What a layer decides on a message that the plugin embeds.
fn generated(layer: &AttentionLayer, message: &[f32]) -> AttentionResult {
    layer.evaluate(&Vec::new(), &Some(bits(message)), similarity)
}

/// What is known of a message that could not be compared with any receptor.
fn unseen() -> Evidence {
    Evidence { scores: Vec::new(), backend_failed: false }
}

// ---------------------------------------------------------------------------
// Decisions
// ---------------------------------------------------------------------------

#[test]
fn passthrough_delivers_all() {
    let layer = AttentionLayer::passthrough();
    assert!(!layer.needs_plugin(&Vec::new()));
    let result = layer.evaluate(&Vec::new(), &None, similarity);
    assert!(result.deliver);
    assert!(result.fallback);
}

#[test]
fn prefers_sender_embedding_for_matching_space() {
    let layer = layer(vec![receptor("match", ReceptorClass::Broad, 0.5, &[1.0, 0.0])], false);
    let supplied = vec![embedding(SPACE, &[0.9, 0.1])];
    assert_eq!(layer.select_message_vectors(&supplied), vec![VectorSource::Supplied(0)]);

    let result = layer.evaluate(&supplied, &None, similarity);

    assert!(result.deliver);
    assert!(!result.fallback);
    assert_eq!(result.space_id.as_deref(), Some("test:model:2:v1"));
}

#[test]
fn falls_back_to_local_embedding_when_sender_embedding_is_missing() {
    let layer = layer(vec![receptor("match", ReceptorClass::Broad, 0.5, &[1.0, 0.0])], true);
    assert_eq!(layer.select_message_vectors(&Vec::new()), vec![VectorSource::Plugin]);
    assert!(layer.needs_plugin(&Vec::new()));

    let result = layer.evaluate(&Vec::new(), &Some(bits(&[1.0, 0.0])), similarity);

    assert!(result.deliver);
    assert!(!result.fallback);
    assert_eq!(result.space_id.as_deref(), Some("test:model:2:v1"));
}

#[test]
fn supplied_embedding_wins_over_local_compute() {
    let layer = layer(vec![receptor("match", ReceptorClass::Broad, 0.5, &[1.0, 0.0])], true);
    let supplied = vec![embedding("other:space", &[0.0, 1.0]), embedding(SPACE, &[1.0, 0.0])];
    assert_eq!(layer.select_message_vectors(&supplied), vec![VectorSource::Supplied(1)]);
    assert!(!layer.needs_plugin(&supplied));

    let result = layer.evaluate(&supplied, &Some(bits(&[0.0, 1.0])), similarity);

    assert!(result.deliver);
    assert_eq!(result.space_id.as_deref(), Some("test:model:2:v1"));
}

#[test]
fn missing_backend_with_receptors_degrades_to_passthrough() {
    let layer = AttentionLayer {
        receptors: vec![ComputedReceptor {
            receptor_id: "match".to_string(),
            class: ReceptorClass::Broad,
            threshold: DEFAULT_THRESHOLD,
            vector: None,
            space_id: None,
        }],
        plugin: None,
        space_id: None,
        degraded: true,
    };

    let result = layer.evaluate_with_embeddings(&unseen());

    assert!(result.deliver);
    assert!(result.fallback);
}

fn definition(id: &str, class: ReceptorClass, query: &str, threshold: Option<f32>) -> ReceptorDefinition {
    ReceptorDefinition {
        receptor_id: id.to_string(),
        class,
        query: query.to_string(),
        threshold: threshold.map(|value| value.to_bits()),
        space_id: None,
    }
}

#[test]
fn new_degrades_when_receptors_exist_without_backend() {
    let config = AttentionConfig {
        local_pack_paths: vec!["/packs/pack.json".to_string()],
        embedding_backends: Vec::new(),
        threshold: DEFAULT_THRESHOLD,
    };
    let definitions = vec![definition(
        "match",
        ReceptorClass::Broad,
        "subspace daemon review findings",
        Some(0.5),
    )];
    let layer = AttentionLayer::new(&config, false, Some(definitions), &Vec::new());

    let result = layer.evaluate_with_embeddings(&unseen());

    assert!(layer.is_degraded());
    assert!(result.deliver);
    assert!(result.fallback);
}

#[test]
fn new_layer_embeds_the_queries_of_its_receptors() {
    let config = AttentionConfig {
        local_pack_paths: vec!["/packs".to_string()],
        embedding_backends: vec![backend("off:space", false), backend(SPACE, true)],
        threshold: 0.25f32.to_bits(),
    };
    let definitions = vec![
        definition("a", ReceptorClass::Broad, " about rust ", Some(0.75)),
        definition("w", ReceptorClass::Wildcard, "", None),
        definition("v", ReceptorClass::Veto, "spam", Some(0.5)),
    ];
    assert_eq!(first_enabled_backend(&config.embedding_backends), Some(1));
    let asked = receptor_queries(&definitions, &Some(SPACE.to_string()));
    let asked: Vec<(&str, &str)> =
        asked.iter().map(|q| (q.query.as_str(), q.space_id.as_str())).collect();
    assert_eq!(asked, vec![("about rust", SPACE), ("spam", SPACE)]);
    assert!(receptor_queries(&definitions, &None).is_empty());
    let vectors = vec![bits(&[1.0, 0.0]), bits(&[0.0, 1.0])];
    let layer = AttentionLayer::new(&config, true, Some(definitions), &vectors);

    assert!(!layer.is_degraded());
    assert_eq!(layer.receptor_count(), 3);
    assert_eq!(layer.veto_receptor_count(), 1);
    assert_eq!(layer.wildcard_receptor_count(), 1);
    assert_eq!(layer.interest_receptor_count(), 1);
    assert_eq!(layer.receptors[0].vector, Some(bits(&[1.0, 0.0])));
    assert_eq!(layer.receptors[0].threshold, 0.75f32.to_bits());
    assert_eq!(layer.receptors[0].space_id.as_deref(), Some(SPACE));
    assert_eq!(layer.receptors[1].vector, None);
    assert_eq!(layer.receptors[2].vector, Some(bits(&[0.0, 1.0])));
    let health = AttentionHealth::from_layer(&layer);
    assert_eq!(health.receptor_count, 3);
    assert_eq!(health.delivery_mode, layer.delivery_mode());
}

#[test]
fn veto_prevails_over_interest_and_wildcard() {
    let layer = layer(
        vec![
            wildcard("all"),
            receptor("spam", ReceptorClass::Veto, 0.8, &[1.0, 0.0]),
            receptor("rust", ReceptorClass::Broad, 0.1, &[1.0, 0.0]),
        ],
        true,
    );
    let vetoed = generated(&layer, &[1.0, 0.0]);
    assert!(!vetoed.deliver);
    assert_eq!(vetoed.disposition, AttentionDisposition::Vetoed);
    assert_eq!(vetoed.matches.len(), 1);
    assert_eq!(vetoed.matches[0].receptor_id, "spam");

    let passed = generated(&layer, &[0.0, 1.0]);
    assert!(passed.deliver);
    assert_eq!(passed.matches[0].receptor_id, "all");
    assert_eq!(passed.matches[0].score, FULL_SCORE);
    assert!(!passed.veto_not_evaluated);

    let missed = layer.evaluate_with_embeddings(&unseen());
    assert!(missed.deliver);
    assert!(missed.veto_not_evaluated);
    let failed = layer.evaluate(&Vec::new(), &None, similarity);
    assert!(!failed.deliver);
    assert_eq!(failed.disposition, AttentionDisposition::VetoEnforcementUnavailable);
}

const OTHER: &str = "other:model:2:v1";

/// A veto on spam in a space of its own, beside a receptor in the space of the layer.
fn veto_in_its_own_space() -> Vec<ReceptorDefinition> {
    vec![
        definition("rust", ReceptorClass::Broad, "about rust", Some(0.5)),
        ReceptorDefinition {
            space_id: Some(OTHER.to_string()),
            ..definition("spam", ReceptorClass::Veto, "spam", Some(0.8))
        },
        definition("all", ReceptorClass::Wildcard, "", None),
    ]
}

fn two_backends(second_enabled: bool) -> AttentionConfig {
    AttentionConfig {
        local_pack_paths: vec!["/packs".to_string()],
        embedding_backends: vec![backend(SPACE, true), backend(OTHER, second_enabled)],
        threshold: DEFAULT_THRESHOLD,
    }
}

#[test]
fn veto_is_compared_in_the_space_that_it_names() {
    let config = two_backends(true);
    assert_eq!(serving_backend(&config.embedding_backends, SPACE), Some(0));
    assert_eq!(serving_backend(&config.embedding_backends, OTHER), Some(1));
    assert_eq!(serving_backend(&config.embedding_backends, "no:space"), None);
    let definitions = veto_in_its_own_space();
    let asked = receptor_queries(&definitions, &Some(SPACE.to_string()));
    let asked: Vec<(&str, &str)> =
        asked.iter().map(|q| (q.query.as_str(), q.space_id.as_str())).collect();
    assert_eq!(asked, vec![("about rust", SPACE), ("spam", OTHER)]);

    let vectors = vec![bits(&[1.0, 0.0]), bits(&[0.0, 1.0])];
    let layer = AttentionLayer::new(&config, true, Some(definitions), &vectors);
    assert!(!layer.is_degraded());
    assert_eq!(layer.receptors[0].space_id.as_deref(), Some(SPACE));
    assert_eq!(layer.receptors[1].space_id.as_deref(), Some(OTHER));
    assert_eq!(layer.receptors[1].vector, Some(bits(&[0.0, 1.0])));

    let both = vec![embedding(SPACE, &[1.0, 0.0]), embedding(OTHER, &[0.0, 1.0])];
    assert_eq!(
        layer.select_message_vectors(&both),
        vec![VectorSource::Supplied(0), VectorSource::Supplied(1), VectorSource::NotNeeded]
    );
    let evidence = layer.gather_evidence(&both, &None, similarity);
    let full = 1f32.to_bits();
    assert_eq!(evidence.scores, vec![Some(full), Some(full), None]);
    assert!(!evidence.backend_failed);
    let vetoed = layer.evaluate(&both, &None, similarity);
    assert!(!vetoed.deliver);
    assert_eq!(vetoed.disposition, AttentionDisposition::Vetoed);
    assert_eq!(vetoed.matches[0].receptor_id, "spam");
    assert!(!vetoed.veto_not_evaluated);

    let only_other = vec![embedding(OTHER, &[0.0, 1.0])];
    assert_eq!(
        layer.select_message_vectors(&only_other),
        vec![VectorSource::Plugin, VectorSource::Supplied(0), VectorSource::NotNeeded]
    );
    assert!(!layer.evaluate(&only_other, &None, similarity).deliver);

    let harmless = vec![embedding(SPACE, &[0.0, 1.0]), embedding(OTHER, &[1.0, 0.0])];
    let passed = layer.evaluate(&harmless, &None, similarity);
    assert!(passed.deliver);
    assert!(!passed.veto_not_evaluated);

    let without = vec![embedding(SPACE, &[0.0, 1.0])];
    assert_eq!(layer.select_message_vectors(&without)[1], VectorSource::Unavailable);
    let missed = layer.evaluate(&without, &None, similarity);
    assert!(missed.deliver);
    assert!(missed.veto_not_evaluated);
}

#[test]
fn first_supplied_embedding_in_a_space_is_compared() {
    let layer = layer(vec![receptor("spam", ReceptorClass::Veto, 0.8, &[1.0, 0.0])], true);
    let supplied = vec![embedding(SPACE, &[0.0, 1.0]), embedding(SPACE, &[1.0, 0.0])];
    assert_eq!(layer.select_message_vectors(&supplied), vec![VectorSource::Supplied(0)]);
    assert!(layer.evaluate(&supplied, &None, similarity).deliver);
}

#[test]
fn veto_in_a_space_that_no_backend_serves_fails_closed() {
    let vectors = vec![bits(&[1.0, 0.0]), bits(&[0.0, 1.0])];
    let layer =
        AttentionLayer::new(&two_backends(false), true, Some(veto_in_its_own_space()), &vectors);
    assert!(layer.is_degraded());
    assert_eq!(layer.veto_receptor_count(), 1);
    let result = layer.evaluate(&vec![embedding(SPACE, &[1.0, 0.0])], &None, similarity);
    assert!(!result.deliver);
    assert_eq!(result.disposition, AttentionDisposition::VetoEnforcementUnavailable);
    assert!(result.veto_not_evaluated);
}

#[test]
fn veto_without_an_embedding_fails_closed() {
    for vectors in [Vec::new(), vec![bits(&[1.0, 0.0])]] {
        let layer =
            AttentionLayer::new(&two_backends(true), true, Some(veto_in_its_own_space()), &vectors);
        assert!(layer.is_degraded());
        assert_eq!(layer.veto_receptor_count(), 1);
        assert_eq!(layer.receptors.last().map(|r| r.vector.clone()), Some(None));
        let result = layer.evaluate(&Vec::new(), &None, similarity);
        assert!(!result.deliver);
        assert_eq!(result.disposition, AttentionDisposition::VetoEnforcementUnavailable);
    }

    let unavailable =
        AttentionLayer::new(&two_backends(true), false, Some(veto_in_its_own_space()), &Vec::new());
    assert!(unavailable.is_degraded());
    assert!(!unavailable.evaluate(&Vec::new(), &None, similarity).deliver);
}

#[test]
fn failed_embedding_without_a_veto_delivers_everything() {
    let definitions = vec![definition("rust", ReceptorClass::Broad, "about rust", Some(0.5))];
    let layer = AttentionLayer::new(&two_backends(true), true, Some(definitions), &Vec::new());
    assert!(layer.is_degraded());
    let result = layer.evaluate(&vec![embedding(SPACE, &[0.0, 1.0])], &None, similarity);
    assert!(result.deliver);
    assert!(result.fallback);
}

#[test]
fn degraded_layer_with_vetoes_delivers_nothing() {
    let degraded = AttentionLayer {
        receptors: vec![receptor("spam", ReceptorClass::Veto, 0.8, &[1.0, 0.0])],
        plugin: None,
        space_id: None,
        degraded: true,
    };
    let result = degraded.evaluate_with_embeddings(&unseen());
    assert!(!result.deliver);
    assert_eq!(result.disposition, AttentionDisposition::VetoEnforcementUnavailable);
    assert!(result.veto_not_evaluated);
}

#[test]
fn interest_receptors_decide_by_threshold_and_are_ranked() {
    let layer = layer(
        vec![
            receptor("low", ReceptorClass::Broad, 0.9, &[1.0, 0.0]),
            receptor("high", ReceptorClass::Project, 0.5, &[0.6, 0.8]),
        ],
        true,
    );
    let accepted = generated(&layer, &[0.6, 0.8]);
    assert!(accepted.deliver);
    let order: Vec<&str> = accepted.matches.iter().map(|m| m.receptor_id.as_str()).collect();
    assert_eq!(order, vec!["high", "low"]);
    assert!(accepted.matches[0].above_threshold);
    assert!(!accepted.matches[1].above_threshold);

    let filtered = generated(&layer, &[0.0, -1.0]);
    assert!(!filtered.deliver);
    assert_eq!(filtered.disposition, AttentionDisposition::Filtered);
    let unavailable = layer.evaluate_with_embeddings(&unseen());
    assert!(!unavailable.deliver);
    assert_eq!(unavailable.disposition, AttentionDisposition::EvaluationUnavailable);
}

#[test]
fn vetoes_alone_let_everything_else_pass() {
    let layer = layer(vec![receptor("spam", ReceptorClass::Veto, 0.8, &[1.0, 0.0])], true);
    let passed = generated(&layer, &[0.0, 1.0]);
    assert!(passed.deliver);
    assert!(passed.fallback);
    assert_eq!(passed.disposition, AttentionDisposition::Deliver);
    assert!(!generated(&layer, &[1.0, 0.0]).deliver);
}

#[test]
fn wildcard_without_vetoes_needs_no_vector() {
    let layer = layer(vec![wildcard("all")], true);
    assert_eq!(layer.select_message_vectors(&Vec::new()), vec![VectorSource::NotNeeded]);
    assert!(layer.evaluate(&Vec::new(), &None, similarity).deliver);
}

// ---------------------------------------------------------------------------
// Annotations and numbers
// ---------------------------------------------------------------------------

#[test]
fn formats_attention_annotation() {
    let result = AttentionResult {
        deliver: true,
        disposition: AttentionDisposition::Deliver,
        matches: vec![
            ReceptorMatch {
                receptor_id: "swift-visionos".to_string(),
                class: ReceptorClass::Intersection,
                score: 0.72f32.to_bits(),
                threshold: 0.5f32.to_bits(),
                above_threshold: true,
            },
            ReceptorMatch {
                receptor_id: "general-dev".to_string(),
                class: ReceptorClass::Broad,
                score: 0.38f32.to_bits(),
                threshold: 0.5f32.to_bits(),
                above_threshold: false,
            },
        ],
        space_id: Some("test:model:768:v1".to_string()),
        fallback: false,
        veto_not_evaluated: false,
    };

    let annotation = format_attention_annotation(&result).unwrap();
    assert!(annotation.contains("swift-visionos"));
    assert!(annotation.contains("0.720"));
    assert!(!annotation.contains("general-dev")); // Below threshold
    assert_eq!(annotation, "ReceptorMatches:\n  - swift-visionos (0.720)");
}

#[test]
fn no_annotation_where_nothing_matched() {
    let passthrough = AttentionLayer::passthrough();
    let result = passthrough.evaluate_with_embeddings(&unseen());
    assert_eq!(format_attention_annotation(&result), None);
}

#[test]
fn scores_are_written_with_three_decimals() {
    let mut values: Vec<f32> = vec![
        0.0, -0.0, 1.0, -1.0, 0.5, 0.72, 0.0625, 0.1875, 0.3125, 0.4375, 2.5, 1234.5678, 0.0005,
        0.00049999997, 0.9995, 0.99949998, 1e-10, -0.0004, -0.3333, 123456.79, 3.0e7, 16777216.0,
        f32::MIN_POSITIVE, 1e-45,
    ];
    let mut seed: u32 = 12345;
    for _ in 0..500 {
        seed = seed.wrapping_mul(1664525).wrapping_add(1013904223);
        values.push((seed >> 8) as f32 / 16777216.0 * 2.0 - 1.0);
    }
    for value in values {
        assert_eq!(score_text(value.to_bits()), format!("{:.3}", value), "{:e}", value);
    }
}

#[test]
fn scores_are_compared_as_numbers() {
    let values: Vec<f32> = vec![
        -1.0, -0.5, -0.0, 0.0, 1e-45, 0.25, 0.5, 1.0, f32::INFINITY, f32::NEG_INFINITY, f32::NAN,
    ];
    for a in &values {
        for b in &values {
            assert_eq!(is_at_least(a.to_bits(), b.to_bits()), a >= b, "{} {}", a, b);
            assert_eq!(is_greater(a.to_bits(), b.to_bits()), a > b, "{} {}", a, b);
        }
    }
    assert_eq!(FULL_SCORE, 1.0f32.to_bits());
}

// ---------------------------------------------------------------------------
// Receptor packs
// ---------------------------------------------------------------------------

fn pack(receptors: Vec<ReceptorDefinition>) -> ReceptorPack {
    ReceptorPack { pack_id: "test".to_string(), version: "1.0.0".to_string(), receptors }
}

#[test]
fn parses_receptor_pack() {
    let mut first = definition(
        "swift-visionos",
        ReceptorClass::Intersection,
        "SwiftUI immersive space lifecycle changed for visionOS",
        Some(0.72),
    );
    first.space_id = Some("openai:text-embedding-3-small:1536:v1".to_string());
    let second = definition("all", ReceptorClass::Wildcard, "", None);

    let receptors = load_receptor_packs(&vec![pack(vec![first, second])]).unwrap();
    assert_eq!(receptors.len(), 2);
    assert_eq!(receptors[0].receptor_id, "swift-visionos");
    assert_eq!(receptors[0].class, ReceptorClass::Intersection);
    assert_eq!(
        receptors[0].space_id.as_deref(),
        Some("openai:text-embedding-3-small:1536:v1")
    );
    assert_eq!(receptors[1].class, ReceptorClass::Wildcard);
}

#[test]
fn rejects_duplicate_receptor_ids() {
    let result = load_receptor_packs(&vec![pack(vec![
        definition("same", ReceptorClass::Broad, "one", Some(0.7)),
        definition("same", ReceptorClass::Project, "two", Some(0.7)),
    ])]);
    assert!(result.is_err());
    assert!(result.unwrap_err().message.contains("duplicate receptor_id"));
}

#[test]
fn requires_query_and_threshold_for_scored_receptors() {
    let result = load_receptor_packs(&vec![pack(vec![definition(
        "missing",
        ReceptorClass::Veto,
        "spam",
        None,
    )])]);
    assert!(result.is_err());
    assert!(result.unwrap_err().message.contains("requires threshold"));
}

#[test]
fn complaints_about_receptors() {
    let complaint = |d: ReceptorDefinition| validate_receptor_definition(&d).unwrap_err().message;
    assert_eq!(
        complaint(definition(" ", ReceptorClass::Wildcard, "", None)),
        "receptor_id must not be empty"
    );
    assert_eq!(
        complaint(definition("r", ReceptorClass::Broad, " ", Some(0.5))),
        "receptor r requires query"
    );
    let mut blank = definition("r", ReceptorClass::Broad, "q", Some(0.5));
    blank.space_id = Some("  ".to_string());
    assert_eq!(complaint(blank), "receptor r has empty space_id");
    assert!(validate_receptor_definition(&definition("w", ReceptorClass::Wildcard, "", None))
        .is_ok());
    assert_eq!(ReceptorClass::default(), ReceptorClass::Broad);
    assert_eq!(ReceptorClass::Veto.as_str(), "veto");
    assert!(wildcard("w").is_wildcard());
    assert!(!wildcard("w").is_veto());
}

// ---------------------------------------------------------------------------
// The plugin
// ---------------------------------------------------------------------------

#[test]
fn serializes_embed_request() {
    let client = EmbeddingPluginClient::new(backend("test:model:768:v1", true));
    let request = client.embed_request(&vec!["hello world".to_string()]);
    assert_eq!(request.get_text("op"), Some("embed"));
    assert_eq!(request.get_text("space_id"), Some("test:model:768:v1"));
    let inputs = request.get_items("inputs").unwrap();
    assert_eq!(inputs.len(), 1);
    assert_eq!(inputs[0].get_text("input_id"), Some("input_0"));
    assert_eq!(inputs[0].get_text("text"), Some("hello world"));
    assert_eq!(client.space_id(), "test:model:768:v1");
    assert_eq!(client.backend_id(), "test");
    assert_eq!(describe_request().get_text("op"), Some("describe"));
}

fn result_for(id: &str, vector: &[f32]) -> VectorResult {
    VectorResult { input_id: id.to_string(), vector: bits(vector) }
}

#[test]
fn vectors_are_put_in_the_order_of_the_texts() {
    let response = EmbedResponse {
        space_id: "test:model:768:v1".to_string(),
        model_id: "test-model".to_string(),
        generated_by: None,
        vectors: vec![result_for("input_1", &[0.2]), result_for("input_0", &[0.1])],
    };
    assert_eq!(
        response.vectors_in_order(2).unwrap(),
        vec![bits(&[0.1]), bits(&[0.2])]
    );
    assert_eq!(
        response.vectors_in_order(3).unwrap_err().message,
        "missing vector for input: input_2"
    );
    assert_eq!(
        exit_failure("exit status: 1", " boom\n").message,
        "embedding plugin exited with status exit status: 1: boom"
    );
    assert_eq!(plugin_failure("E1", "bad").message, "embedding plugin error (E1): bad");
}

// ---------------------------------------------------------------------------
// Outbound embeddings
// ---------------------------------------------------------------------------

#[test]
fn supplied_embeddings_win_by_default_on_duplicate_space() {
    let merged = merge_outbound_embeddings(
        &vec![embedding(OPENAI_TEXT_EMBEDDING_3_SMALL_SPACE_ID, &[1.0])],
        &vec![embedding(OPENAI_TEXT_EMBEDDING_3_SMALL_SPACE_ID, &[2.0])],
        false,
    );

    assert_eq!(merged.len(), 1);
    assert_eq!(merged[0].vector, bits(&[1.0]));
}

#[test]
fn generated_embeddings_can_override_supplied_on_duplicate_space() {
    let merged = merge_outbound_embeddings(
        &vec![embedding(OPENAI_TEXT_EMBEDDING_3_SMALL_SPACE_ID, &[1.0])],
        &vec![embedding(OPENAI_TEXT_EMBEDDING_3_SMALL_SPACE_ID, &[2.0])],
        true,
    );

    assert_eq!(merged.len(), 1);
    assert_eq!(merged[0].vector, bits(&[2.0]));
}

fn request(supplied: Vec<MessageEmbedding>, spaces: &[&str], generated_win: bool) -> OutboundEmbeddingRequest {
    OutboundEmbeddingRequest {
        embeddings: supplied,
        generate_for_spaces: spaces.iter().map(|space| space.to_string()).collect(),
        generated_embeddings_override_supplied: generated_win,
    }
}

#[test]
fn missing_generated_backend_does_not_block_plaintext_send() {
    let request = request(Vec::new(), &[OPENAI_TEXT_EMBEDDING_3_SMALL_SPACE_ID], false);
    let clients: SortedMap<EmbeddingPluginClient> = SortedMap::new();
    assert!(spaces_to_generate(&request, &clients).is_empty());
    let embeddings = compose_outbound_embeddings(&request, &Vec::new());

    assert!(embeddings.is_empty());
}

#[test]
fn merged_embeddings_keep_every_space() {
    let merged = merge_outbound_embeddings(
        &vec![embedding("b", &[1.0]), embedding("a", &[2.0])],
        &vec![embedding("c", &[3.0]), embedding("a", &[4.0])],
        false,
    );
    let spaces: Vec<&str> = merged.iter().map(|e| e.space_id.as_str()).collect();
    assert_eq!(spaces, vec!["a", "b", "c"]);
    assert_eq!(merged[0].vector, bits(&[2.0]));
}

#[test]
fn last_embedding_in_a_space_goes_out() {
    let twice = vec![embedding("a", &[1.0]), embedding("a", &[2.0])];
    let generated = vec![embedding("a", &[3.0]), embedding("a", &[4.0])];
    let supplied_win = merge_outbound_embeddings(&twice, &generated, false);
    assert_eq!(supplied_win.len(), 1);
    assert_eq!(supplied_win[0].vector, bits(&[2.0]));
    let generated_win = merge_outbound_embeddings(&twice, &generated, true);
    assert_eq!(generated_win.len(), 1);
    assert_eq!(generated_win[0].vector, bits(&[4.0]));
}

#[test]
fn only_missing_spaces_are_generated() {
    let small = OPENAI_TEXT_EMBEDDING_3_SMALL_SPACE_ID;
    let large = OPENAI_TEXT_EMBEDDING_3_LARGE_SPACE_ID;
    let config = AttentionConfig {
        local_pack_paths: Vec::new(),
        embedding_backends: vec![
            backend(small, true),
            backend(large, false),
            backend(SPACE, true),
            backend(large, true),
        ],
        threshold: DEFAULT_THRESHOLD,
    };
    let clients =
        configured_generated_embedding_clients(&config, &vec![true, true, true, true]);
    assert_eq!(clients.len(), 2);
    let unavailable =
        configured_generated_embedding_clients(&config, &vec![true, true, true, false]);
    assert_eq!(unavailable.len(), 1);

    let supplied = vec![embedding(small, &[1.0])];
    assert_eq!(
        spaces_to_generate(&request(supplied.clone(), &[" ", small, large, large], false), &clients),
        vec![large]
    );
    assert_eq!(
        spaces_to_generate(&request(supplied, &[small], true), &clients),
        vec![small]
    );
}

#[test]
fn requested_spaces_must_be_supported() {
    assert!(is_supported_generated_space(OPENAI_TEXT_EMBEDDING_3_LARGE_SPACE_ID));
    assert!(!is_supported_generated_space(SPACE));
    let complaint = |spaces: &[&str]| {
        validate_generated_spaces(&spaces.iter().map(|s| s.to_string()).collect())
            .map_err(|f| f.message)
    };
    assert_eq!(complaint(&[" openai:text-embedding-3-small:1536:v1 "]), Ok(()));
    assert_eq!(
        complaint(&[""]),
        Err("generate_for_spaces entries must not be empty".to_string())
    );
    assert_eq!(
        complaint(&["x"]),
        Err("unsupported generated embedding space: x; supported spaces are openai:text-embedding-3-small:1536:v1 and openai:text-embedding-3-large:3072:v1".to_string())
    );
}
