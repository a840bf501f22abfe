use heliosav_layers::ai::config::{judge_entry, EntryWeight, RegistryEntry};
use heliosav_layers::ai::ensemble::{aggregate_scores, EnsembleStrategy};
use heliosav_layers::ai::features::{
    apply_feature_mapping, cache_overflows, count_printable_strings, extract_features_at,
    extract_named_features, feature_cache_key, feature_map_digest, feature_source,
    measured_sections, stable_bucket, timestamp_anomaly_score, timestamp_anomaly_score_at,
    window_range, BaseReadings, FeatureSource, NamedReadings,
};
use heliosav_layers::ai::inference::{
    failed_score, format_shape, infer_sample_ensemble, infer_sample_from_model, infer_vector,
    input_shape_candidates, malicious_output, plan_vector, score_outputs, AiComponentScore,
    AiScore, EnsembleSettings, InputFact, ModelAnswer, ModelContract, OutputKind,
};
use heliosav_layers::ai::model::{
    ensemble_setting, inference_slots, model_load_timeout, normalize_model_id, parse_model_kind,
    queue_timeout, validate_model_weight, validate_onnx_model_file, validate_sidecar_file, AiError,
    AiModelKind, ModelFile, MAX_IMPORTED_MODEL_BYTES,
};
use heliosav_layers::ai::queue::{
    sample_plan, AiPermitState, AiRuntimeMetrics, QueueStep, SamplePlan,
};
use heliosav_layers::ai::registry::{AiModel, ModelCard};
use heliosav_layers::ai::report::{
    model_version, validate_model_for_scanner, DryRun, FileStamp, MemberStamp, ModelTrial,
    RunnableFacts,
};
use heliosav_layers::ai::sidecar::{LoadError, Sidecar};
use heliosav_layers::heuristic::analysis::{EntropyProfile, EntropyReadings};
use heliosav_layers::score::Score;

const ONE: f64 = (1u64 << 60) as f64;

fn value(score: Score) -> f64 {
    score.units as f64 / ONE
}

fn of(value: f32) -> Score {
    Score {
        units: (value as f64 * ONE) as u128,
    }
}

fn base_readings() -> BaseReadings {
    BaseReadings {
        coverage: of(1.0),
        section_entropy: of(0.5),
        entropy: of(0.4),
    }
}

fn named_readings() -> NamedReadings {
    NamedReadings {
        entropy: of(3.2),
        sections: vec![of(2.0), of(6.5), of(1.25)],
        head: of(3.0),
        tail: of(2.5),
        file_size: of(0.445),
        file_size_log: of(3.6123),
    }
}

fn no_entropy() -> EntropyReadings {
    EntropyReadings {
        profile: EntropyProfile {
            blocks: Vec::new(),
            mean: of(0.0),
            variance: of(0.0),
            peak: of(0.0),
        },
        sections: Vec::new(),
        overlay: of(0.0),
    }
}

fn model() -> AiModel {
    AiModel::new_with_kind("nonexistent.onnx".to_string(), AiModelKind::CNN, false, of(0.7))
}

fn names(list: &[&str]) -> Vec<String> {
    list.iter().map(|name| name.to_string()).collect()
}

#[test]
fn test_extract_features_quick() {
    let data = b"hello world".to_vec();
    let f = AiModel::extract_features(&data, &base_readings());
    assert_eq!(f.len(), 12);
    assert!(f.iter().all(|v| (0.0..=1.0).contains(&value(*v))));
    assert_eq!(value(f[6]), 1.0);
    assert_eq!(value(f[7]), 0.0);
    assert_eq!(value(f[8]), 8.0 / 256.0);
    let sum: u32 = data.iter().map(|b| *b as u32).sum();
    assert_eq!(value(f[9]), (sum as f32 / 11.0 / 255.0) as f64);
}

#[test]
fn test_model_input_shape_and_dtype_adaptation() {
    assert_eq!(
        input_shape_candidates(&Some(vec![1, 12]), 12).expect("static shape"),
        vec![vec![1, 12]]
    );
}

#[test]
fn test_model_contract_sidecar_selects_output_metadata() {
    let text = "{\"output_index\":1,\"malicious_index\":2,\"output_kind\":\"logit\"}\n";
    let mut model = model();
    model
        .load_model_contract(&Some(Sidecar {
            size: Ok(text.len() as u64),
            text: Ok(text.to_string()),
        }))
        .expect("load contract");
    let contract = model.model_contract;
    assert_eq!(contract.output_index, Some(1));
    assert_eq!(contract.malicious_index, Some(2));
    assert_eq!(contract.output_kind, OutputKind::Logit);
}

#[test]
fn test_named_feature_map_preserves_dataset_features() {
    let blob = b"a printable string";
    let base = extract_features_at(blob, 4096, &base_readings(), 0);
    let vector = extract_named_features(
        blob,
        4096,
        &names(&["Entropy", "FileSize", "StringCount"]),
        &base,
        &named_readings(),
    );
    assert_eq!(vector.len(), 3);
    assert!(vector.iter().any(|v| value(*v) > 0.0));
}

#[test]
fn test_derived_named_features_match_bounded_runtime_formulas() {
    let mut base = [of(0.0); 12];
    base[10] = of(0.5);
    let names = names(&[
        "Entropy",
        "FileSize",
        "StringCount",
        "derived_entropy_filesize_product",
        "derived_entropy_stringcount_product",
        "derived_hash_density",
    ]);
    let values: Vec<f64> =
        extract_named_features(b"a printable string", 4096, &names, &base, &named_readings())
            .iter()
            .map(|v| value(*v))
            .collect();
    assert_eq!(values.len(), names.len());
    assert!((0.0..=1.0).contains(&values[0]));
    assert!((0.0..=1.0).contains(&values[1]));
    assert!((0.0..=1.0).contains(&values[2]));
    assert!((0.0..=1.0).contains(&values[3]));
    assert!((0.0..=1.0).contains(&values[4]));
    assert_eq!(values[5], 0.0);
    assert!((values[3] - values[0] * values[1]).abs() < f32::EPSILON as f64);
    assert!((values[4] - values[0] * values[2]).abs() < f32::EPSILON as f64);
}

#[test]
fn test_ensemble_aggregation_strategies() {
    let scores = [(of(0.2), of(1.0)), (of(0.8), of(3.0)), (of(0.6), of(1.0))];
    assert!((value(aggregate_scores(EnsembleStrategy::WeightedMean, &scores)) - 0.64).abs() < 0.001);
    assert_eq!(
        value(aggregate_scores(EnsembleStrategy::MaxRisk, &scores)),
        0.8f32 as f64
    );
    assert_eq!(
        value(aggregate_scores(EnsembleStrategy::MajorityVote, &scores)),
        1.0
    );
    assert_eq!(
        EnsembleStrategy::parse("max-risk"),
        Some(EnsembleStrategy::MaxRisk)
    );
}

#[test]
fn test_infer_fallback_heuristic() {
    let score = infer_sample_from_model(
        &Err(AiError::Model("no model loaded".to_string())),
        "nonexistent.onnx",
        b"hello world",
        &no_entropy(),
        0,
    );
    assert!(value(score.score) >= 0.0 && value(score.score) <= 1.0);
    assert!(score.is_fallback);
    let reason = score.fallback_reason.expect("a reason");
    assert!(reason.starts_with(
        "model nonexistent.onnx inference failed: model load error: no model loaded"
    ));
}

#[test]
fn aggregation_is_that_of_single_precision() {
    let lists: [&[(f32, f32)]; 7] = [
        &[(0.3, 1.0e7), (0.9, 2.5e6)],
        &[(0.123, 1.0e12), (0.77, 3.3e11), (0.5, 7.0)],
        &[(0.4, 1.0e19), (0.6, 1.0), (0.9, 2.0e19)],
        &[(0.3, 0.7), (0.9, 0.3)],
        &[(0.1, 0.0), (0.7, 0.0), (0.9, 0.0)],
        &[(0.51, 250.0), (0.49, 251.0)],
        &[(1.0, 3.3), (0.123, 7.7), (0.456, 9.1), (0.789, 0.01)],
    ];
    for list in lists {
        let scores: Vec<(Score, Score)> = list.iter().map(|(s, w)| (of(*s), of(*w))).collect();
        let total: f32 = list.iter().map(|(_, w)| *w).sum();
        let mean = if total <= f32::EPSILON {
            list.iter().map(|(s, _)| *s).sum::<f32>() / list.len() as f32
        } else {
            list.iter().map(|(s, w)| s * w).sum::<f32>() / total
        };
        assert_eq!(
            value(aggregate_scores(EnsembleStrategy::WeightedMean, &scores)),
            mean.clamp(0.0, 1.0) as f64
        );
        let yes: f32 = list.iter().filter(|(s, _)| *s >= 0.5).map(|(_, w)| *w).sum();
        let count = list.iter().filter(|(s, _)| *s >= 0.5).count();
        let won = if total <= f32::EPSILON {
            count * 2 >= list.len()
        } else {
            yes * 2.0 >= total
        };
        assert_eq!(
            value(aggregate_scores(EnsembleStrategy::MajorityVote, &scores)),
            if won { 1.0 } else { 0.0 }
        );
    }
    assert_eq!(aggregate_scores(EnsembleStrategy::MaxRisk, &[]).units, 0);
    for strategy in [
        EnsembleStrategy::WeightedMean,
        EnsembleStrategy::MaxRisk,
        EnsembleStrategy::MajorityVote,
    ] {
        assert_eq!(EnsembleStrategy::parse(strategy.as_str()), Some(strategy));
    }
    assert_eq!(EnsembleStrategy::parse("sum"), None);
}

#[test]
fn every_named_feature_has_its_value() {
    let blob = b"abcd\0efgh\x01ij";
    let base = extract_features_at(blob, 3_000_000, &base_readings(), 0);
    let readings = named_readings();
    let get = |name: &str| {
        value(extract_named_features(blob, 3_000_000, &names(&[name]), &base, &readings)[0])
    };
    assert_eq!(get(" Coverage "), 1.0);
    assert_eq!(get("stringcount"), 2.0 / 64.0);
    assert_eq!(get("entropy_raw"), value(readings.entropy));
    assert_eq!(get("filesize_mb"), (3_000_000u64 as f32 / 1_048_576.0) as f64);
    assert_eq!(get("max_section_entropy"), 6.5);
    assert_eq!(get("mean_section_entropy"), ((2.0f32 + 6.5 + 1.25) / 3.0) as f64);
    assert_eq!(get("first_section_entropy"), 2.0);
    assert_eq!(get("head_entropy"), 3.0);
    assert_eq!(get("pe_overlay_entropy"), 2.5);
    assert_eq!(get("byte_97"), (1.0f32 / 12.0) as f64);
    assert_eq!(get("bytehist_0"), (1.0f32 / 12.0) as f64);
    assert_eq!(get("byte_256"), 0.0);
    assert_eq!(get("dllhash_3"), 0.0);
    assert_eq!(get("large_flag"), 1.0);
    assert_eq!(get("no such feature"), 0.0);
    assert_eq!(feature_source("apihash_7"), FeatureSource::SymbolBucket(7));
    assert_eq!(feature_source("bytehist_x"), FeatureSource::Unknown);
}

#[test]
fn names_fall_into_stable_buckets() {
    assert_eq!(stable_bucket(" KERNEL32.dll ", 256), stable_bucket("kernel32.DLL", 256));
    // FNV-1a of the empty text is the offset basis.
    assert_eq!(
        stable_bucket("", 1024),
        (14_695_981_039_346_656_037u64 % 1024) as usize
    );
    assert_eq!(
        stable_bucket("a", 1 << 16),
        (0xaf63_dc4c_8601_ec8cu64 % (1 << 16)) as usize
    );
    assert_eq!(stable_bucket("anything", 0), 0);
}

#[test]
fn strings_of_four_bytes_are_counted() {
    assert_eq!(count_printable_strings(b""), 0);
    assert_eq!(count_printable_strings(b"abc\0abcd\0ab d"), 2);
    assert_eq!(count_printable_strings(b"a\tbcde"), 1);
}

#[test]
fn odd_link_times_score() {
    let now = 1_750_000_000;
    assert_eq!(value(timestamp_anomaly_score_at(0, now)), 1.0);
    assert_eq!(value(timestamp_anomaly_score_at(1_750_000_000 + 2_592_001, now)), 1.0);
    assert_eq!(value(timestamp_anomaly_score_at(1_750_000_000 + 2_592_000, now)), 0.0);
    assert_eq!(value(timestamp_anomaly_score_at(100_000_000, now)), 0.75);
    assert_eq!(value(timestamp_anomaly_score(0)), 1.0);
}

#[test]
fn features_follow_the_map_of_the_model() {
    let mut base = [of(0.0); 12];
    base[3] = of(1.0);
    base[4] = of(0.75);
    let map = Some(names(&["tls_present", "TLS_present", "timestamp", "timestamp_anomaly"]));
    let mapped: Vec<f64> = apply_feature_mapping(&map, &base).iter().map(|v| value(*v)).collect();
    assert_eq!(mapped, vec![1.0, 0.0, 0.75, 0.0]);
    assert_eq!(apply_feature_mapping(&None, &base), base.to_vec());
}

#[test]
fn caches_are_keyed_by_digests() {
    let key = feature_cache_key(b"abc", 9);
    assert_eq!(key.sample_sha256[..4], [0xba, 0x78, 0x16, 0xbf]);
    assert_eq!(key.file_size, 9);
    let a = feature_map_digest(&names(&["Entropy", "FileSize"]));
    let b = feature_map_digest(&names(&[" entropy", "filesize "]));
    let c = feature_map_digest(&names(&["entropyfilesize"]));
    assert_eq!(a, b);
    assert_ne!(a, c);
    assert_eq!(
        a,
        <sha2::Sha256 as sha2::Digest>::digest(b"entropy\0filesize\0").to_vec()
    );
    assert!(!cache_overflows(1024));
    assert!(cache_overflows(1025));
    assert!(measured_sections(b"no image").is_empty());
    assert_eq!(window_range(10_000, true), (0, 4096));
    assert_eq!(window_range(10_000, false), (5904, 10_000));
    assert_eq!(window_range(10, false), (0, 10));
}

#[test]
fn open_inputs_are_tried_in_common_shapes() {
    let shapes = input_shape_candidates(&None, 12).expect("shapes");
    assert_eq!(shapes.len(), 9);
    assert_eq!(shapes[0], vec![12]);
    assert_eq!(shapes[8], vec![12, 1, 1, 1]);
    assert!(shapes.iter().all(|shape| shape.iter().product::<usize>() == 12));
    assert_eq!(
        input_shape_candidates(&None, 1).expect("shapes"),
        vec![vec![1], vec![1, 1], vec![1, 1, 1], vec![1, 1, 1, 1]]
    );
    let error = input_shape_candidates(&Some(vec![2, 3]), 12).expect_err("mismatch");
    assert_eq!(
        error.message(),
        "inference error: model input shape [2,3] contains 6 elements, but the feature map has 12"
    );
    let error = input_shape_candidates(&Some(vec![usize::MAX, 2]), 12).expect_err("overflow");
    assert_eq!(error, AiError::Infer("model input shape volume overflow".to_string()));
    assert_eq!(format_shape(&[]), "[]");
}

#[test]
fn a_model_that_cannot_be_fed_says_why() {
    let fact = |numeric| {
        Ok(InputFact {
            numeric,
            datum_type: "String".to_string(),
            shape: None,
        })
    };
    let message = |loaded, features, inputs, fact: &Result<InputFact, String>| {
        plan_vector(loaded, features, inputs, fact)
            .expect_err("a fault")
            .message()
    };
    assert_eq!(message(false, 12, 1, &fact(true)), "model load error: no model loaded");
    assert_eq!(message(true, 0, 1, &fact(true)), "inference error: feature vector is empty");
    assert_eq!(
        message(true, 12, 2, &fact(true)),
        "inference error: model requires 2 inputs; the scanner supplies one feature tensor"
    );
    assert_eq!(
        message(true, 12, 1, &Err("no fact".to_string())),
        "inference error: read model input contract: no fact"
    );
    assert_eq!(
        message(true, 12, 1, &fact(false)),
        "inference error: unsupported model input type String; expected a numeric tensor"
    );
    assert_eq!(plan_vector(true, 12, 1, &fact(true)).expect("plan").len(), 9);
}

fn infer_error(text: &str) -> AiError {
    AiError::Infer(text.to_string())
}

#[test]
fn the_first_readable_answer_counts() {
    let attempts = [Err(infer_error("a")), Ok(of(0.5)), Ok(of(0.9))];
    assert_eq!(infer_vector(&attempts).expect("score"), of(0.5));
    let failed = [Err(infer_error("a")), Err(infer_error("b"))];
    assert_eq!(infer_vector(&failed), Err(infer_error("b")));
    assert_eq!(
        infer_vector(&[]),
        Err(infer_error("no compatible input shape succeeded"))
    );
    let mut contract = ModelContract::default();
    assert_eq!(score_outputs(&attempts, &contract), Ok(of(0.5)));
    contract.output_index = Some(2);
    assert_eq!(score_outputs(&attempts, &contract), Ok(of(0.9)));
    contract.output_index = Some(3);
    assert_eq!(
        score_outputs(&attempts, &contract),
        Err(infer_error("output_index 3 is outside output count 3"))
    );
    assert_eq!(
        score_outputs(&[], &contract),
        Err(infer_error("model returned no outputs"))
    );
    assert_eq!(malicious_output(None, 2), Ok(1));
    assert_eq!(malicious_output(Some(0), 3), Ok(0));
    assert_eq!(
        malicious_output(Some(3), 3),
        Err(infer_error("malicious_index 3 is outside output length 3"))
    );
}

fn answered(score: f32) -> AiScore {
    infer_sample_from_model(&Ok(of(score)), "m.onnx", b"", &no_entropy(), 0)
}

fn settings(enabled: bool) -> EnsembleSettings {
    EnsembleSettings {
        enabled,
        blend_primary: of(0.75),
        aggregation: EnsembleStrategy::WeightedMean,
    }
}

#[test]
fn models_apart_fall_back_in_order() {
    let apart = settings(false);
    let alone = infer_sample_ensemble(&apart, Ok(answered(0.4)), Some(Ok(answered(0.9))), &[]);
    assert_eq!(alone.expect("score").score, of(0.4));
    let second = infer_sample_ensemble(&apart, Err(infer_error("a")), Some(Ok(answered(0.9))), &[]);
    assert_eq!(second.expect("score").score, of(0.9));
    let none = infer_sample_ensemble(&apart, Err(infer_error("a")), Some(Err(infer_error("b"))), &[]);
    assert_eq!(none.expect_err("error"), infer_error("a"));
}

#[test]
fn models_together_are_weighted() {
    let together = settings(true);
    let pair = infer_sample_ensemble(&together, Ok(answered(0.5)), Some(Ok(answered(1.0))), &[])
        .expect("score");
    assert_eq!(value(pair.score), 0.625);
    assert_eq!(pair.components.len(), 2);
    assert_eq!(pair.components[1].id, "fallback");
    assert_eq!(value(pair.components[1].weight), 0.25);

    let mut stood_in = answered(0.0);
    stood_in.is_fallback = true;
    stood_in.fallback_reason = Some("broken".to_string());
    let extras = [
        ModelAnswer {
            id: "extra".to_string(),
            weight: of(2.0),
            result: Ok(stood_in),
        },
        ModelAnswer {
            id: "lost".to_string(),
            weight: of(5.0),
            result: Err(infer_error("gone")),
        },
    ];
    let three = infer_sample_ensemble(&together, Ok(answered(1.0)), None, &extras).expect("score");
    assert_eq!(value(three.score), (1.0f32 / 3.0) as f64);
    assert!(three.is_fallback);
    assert_eq!(three.fallback_reason.as_deref(), Some("extra: broken"));
    assert_eq!(three.components.len(), 2);

    let none = infer_sample_ensemble(&together, Err(infer_error("a")), Some(Err(infer_error("b"))), &[]);
    assert_eq!(none.expect_err("error"), infer_error("a"));
    let failed = failed_score(&infer_error("gone"));
    assert_eq!(failed.fallback_reason.as_deref(), Some("inference error: gone"));
    assert!(failed.components.is_empty());
}

fn onnx(path: &str) -> ModelFile {
    ModelFile {
        path: Ok(path.to_string()),
        regular: true,
        extension: Some("ONNX".to_string()),
        size: Ok(10),
    }
}

#[test]
fn remembered_components_give_the_score_again() {
    let mut model = model();
    model.set_ensemble(true);
    model.attach_fallback_model(ModelCard {
        path: "f.onnx".to_string(),
        kind: AiModelKind::Transformer,
        loaded: true,
        feature_map: None,
    });
    let checked = model
        .check_new_model("extra", None, &onnx("/m/extra.onnx"))
        .expect("a new model");
    model
        .add_model(&checked, AiModelKind::CNN, of(2.0), true, Ok(12))
        .expect("added");
    let extras = [ModelAnswer {
        id: "extra".to_string(),
        weight: of(2.0),
        result: Ok(answered(0.2)),
    }];
    let score = infer_sample_ensemble(
        &model.settings(),
        Ok(answered(0.9)),
        Some(Ok(answered(0.6))),
        &extras,
    )
    .expect("score");
    assert_eq!(
        model.aggregate_cached_components(&score.components),
        Some(score.score)
    );
    assert!(model.update_model("extra", Some(of(0.5)), None));
    assert_ne!(
        model.aggregate_cached_components(&score.components),
        Some(score.score)
    );
    assert!(model.remove_model("extra"));
    assert_eq!(model.aggregate_cached_components(&score.components), None);
    model.set_ensemble(false);
    assert_eq!(
        model.aggregate_cached_components(&score.components),
        Some(of(0.9))
    );
    assert_eq!(model.aggregate_cached_components(&[]), None);
    let other = [AiComponentScore {
        id: "x".to_string(),
        score: of(0.3),
        weight: of(1.0),
    }];
    assert_eq!(model.aggregate_cached_components(&other), Some(of(0.3)));
}

#[test]
fn the_registry_keeps_names_and_places_apart() {
    let mut model = model();
    let checked = model
        .check_new_model("  ", Some("net"), &onnx("/m/net.onnx"))
        .expect("a new model");
    assert_eq!(checked.0, "net");
    let info = model
        .add_model(&checked, AiModelKind::Transformer, of(1.5), false, Ok(3))
        .expect("added");
    assert_eq!(info.role, "custom");
    assert_eq!(info.kind, "Transformer");
    assert_eq!(info.feature_dim, Some(3));
    assert_eq!(
        model
            .check_new_model("net", None, &onnx("/m/other.onnx"))
            .expect_err("same name")
            .message(),
        "model load error: model id or path is already registered: net"
    );
    assert!(model.check_new_model("other", None, &onnx("/m/net.onnx")).is_err());
    let failed = model.add_model(
        &("bad".to_string(), "/m/bad.onnx".to_string()),
        AiModelKind::CNN,
        of(1.0),
        true,
        Err(AiError::Model("broken".to_string())),
    );
    assert!(failed.is_err());
    let shown = model.model_registry();
    assert_eq!(shown.len(), 2);
    assert_eq!(shown[0].id, "primary");
    assert_eq!(shown[0].feature_dim, Some(12));
    assert_eq!(shown[1].id, "net");
    assert!(!model.update_model("nobody", None, Some(true)));
    assert!(!model.remove_model("nobody"));
    assert!(model.remove_model("net"));
    assert_eq!(model.model_registry().len(), 1);
}

#[test]
fn model_files_are_checked() {
    assert_eq!(validate_onnx_model_file(&onnx("/m/a.onnx")).expect("path"), "/m/a.onnx");
    let fault = |file: ModelFile| validate_onnx_model_file(&file).expect_err("fault").message();
    assert_eq!(
        fault(ModelFile {
            path: Err("missing".to_string()),
            ..onnx("")
        }),
        "model load error: model path is not accessible: missing"
    );
    assert_eq!(
        fault(ModelFile {
            regular: false,
            ..onnx("x")
        }),
        "model load error: model path must be a regular file"
    );
    assert_eq!(
        fault(ModelFile {
            extension: Some("pt".to_string()),
            ..onnx("x")
        }),
        "model load error: only .onnx model files may be loaded"
    );
    assert_eq!(
        fault(ModelFile {
            size: Err("denied".to_string()),
            ..onnx("x")
        }),
        "I/O error: denied"
    );
    for size in [0, MAX_IMPORTED_MODEL_BYTES + 1] {
        assert_eq!(
            fault(ModelFile {
                size: Ok(size),
                ..onnx("x")
            }),
            "model load error: model size must be between 1 byte and 512 MiB"
        );
    }
    assert!(validate_sidecar_file(&Ok(1_048_576), "features.json").is_ok());
    assert_eq!(
        validate_sidecar_file(&Ok(1_048_577), "features.json")
            .expect_err("too long")
            .message(),
        "model load error: features.json exceeds the 1 MiB safety limit"
    );
}

#[test]
fn names_kinds_and_weights_are_checked() {
    assert_eq!(normalize_model_id(" net-1.a_b ", None).expect("id"), "net-1.a_b");
    assert_eq!(normalize_model_id("", None).expect("id"), "custom-model");
    for bad in ["..", ".", "a/b", "a b", &"a".repeat(65), "\u{e9}"] {
        assert!(normalize_model_id(bad, None).is_err(), "{bad}");
    }
    assert_eq!(parse_model_kind(Some(" MLP ")), Some(AiModelKind::CNN));
    assert_eq!(parse_model_kind(Some("tf")), Some(AiModelKind::Transformer));
    assert_eq!(parse_model_kind(Some("tree")), None);
    assert_eq!(parse_model_kind(None), None);
    assert_eq!(AiModelKind::from_env(Some("Transformer")), AiModelKind::Transformer);
    assert_eq!(AiModelKind::from_env(Some("tree")), AiModelKind::CNN);
    assert_eq!(AiModelKind::CNN.default_model_path(), "heliosav_feature_cnn.onnx");
    for weight in [0.0f32, -0.0, 1.5, f32::MAX, f32::MIN_POSITIVE] {
        assert!(validate_model_weight(weight.to_bits()).is_ok(), "{weight}");
    }
    for weight in [f32::NAN, f32::INFINITY, f32::NEG_INFINITY, -1.0, -f32::MIN_POSITIVE] {
        assert!(validate_model_weight(weight.to_bits()).is_err(), "{weight}");
    }
}

#[test]
fn settings_stay_in_their_bounds() {
    assert!(ensemble_setting(None));
    assert!(ensemble_setting(Some(" YES ")));
    assert!(!ensemble_setting(Some("0")));
    assert_eq!(model_load_timeout(None), 30_000);
    assert_eq!(model_load_timeout(Some("5")), 1_000);
    assert_eq!(model_load_timeout(Some("999999")), 120_000);
    assert_eq!(queue_timeout(Some("250")), 250);
    assert_eq!(queue_timeout(Some("soon")), 5_000);
    assert_eq!(inference_slots(None, 1), 1);
    assert_eq!(inference_slots(None, 16), 2);
    assert_eq!(inference_slots(Some("9"), 16), 4);
    assert_eq!(inference_slots(Some("9"), 3), 3);
    assert_eq!(inference_slots(Some("0"), 3), 1);
}

#[test]
fn turns_are_limited() {
    let mut state = AiPermitState::new(1);
    assert_eq!(state.acquire(true, 100), QueueStep::Cancelled);
    assert_eq!(state.acquire(false, 100), QueueStep::Granted);
    assert_eq!(state.acquire(false, 100), QueueStep::Wait(25));
    assert_eq!(state.acquire(false, 7), QueueStep::Wait(7));
    let step = state.acquire(false, 0);
    assert_eq!(step, QueueStep::Rejected);
    assert_eq!(
        step.error().expect("error").message(),
        "inference error: AI inference queue is full; request was not scheduled"
    );
    state.release();
    state.release();
    assert_eq!(state.available, 1);

    let mut metrics = AiRuntimeMetrics::new();
    metrics.note_queue(QueueStep::Rejected, 3);
    metrics.note_queue(QueueStep::Granted, 3);
    metrics.note_inference(u128::MAX);
    metrics.note_error();
    assert_eq!(metrics.queue_rejections, 1);
    assert_eq!(metrics.queue_wait_us, 3);
    assert_eq!(metrics.inference_time_us, u64::MAX);
    assert_eq!(metrics.inference_requests, 1);
    assert_eq!(metrics.inference_errors, 1);
    assert_eq!(sample_plan(65_536, 65_536), SamplePlan::Whole);
    assert_eq!(sample_plan(65_537, 65_536), SamplePlan::Ends(32_768));
}

fn sidecar(text: &str) -> Option<Sidecar> {
    Some(Sidecar {
        size: Ok(text.len() as u64),
        text: Ok(text.to_string()),
    })
}

#[test]
fn sidecars_describe_the_model() {
    let mut model = model();
    model
        .load_feature_map(&sidecar("[\"Entropy\", 3, \"FileSize\"]"))
        .expect("features");
    assert_eq!(model.feature_map(), Some(names(&["Entropy", "FileSize"])));
    match model.load_feature_map(&sidecar("[")) {
        Err(LoadError::Json { name, reason }) => {
            assert_eq!(name, "features.json");
            assert_eq!(reason, "EOF while parsing a list at line 1 column 1");
        }
        outcome => panic!("unexpected outcome: {outcome:?}"),
    }
    assert_eq!(model.feature_map(), Some(names(&["Entropy", "FileSize"])));
    model.load_feature_map(&None).expect("none");
    assert_eq!(model.feature_map(), None);

    model
        .load_model_contract(&sidecar("{\"output\":{\"kind\":\" Prob \",\"malicious_index\":4}}"))
        .expect("contract");
    assert_eq!(model.model_contract.output_kind, OutputKind::Probability);
    assert_eq!(model.model_contract.malicious_index, Some(4));
    assert_eq!(model.model_contract.output_index, None);
    let long = Some(Sidecar {
        size: Ok(2_000_000),
        text: Ok(String::new()),
    });
    assert!(matches!(
        model.load_model_contract(&long),
        Err(LoadError::Ai(AiError::Model(_)))
    ));

    model
        .load_model_from_path(&onnx("/m/new.onnx"), Ok(()), &None, &None)
        .expect("loaded");
    assert_eq!(model.model_path(), "/m/new.onnx");
    assert!(model.loaded);
    let failed = model.load_model_from_path(
        &onnx("/m/other.onnx"),
        Err(AiError::Model("broken".to_string())),
        &None,
        &None,
    );
    assert!(matches!(failed, Err(LoadError::Ai(AiError::Model(_)))));
    assert_eq!(model.model_path(), "/m/new.onnx");
}

fn entry(id: &str) -> RegistryEntry {
    RegistryEntry {
        id: id.to_string(),
        stem: Some("stem".to_string()),
        kind: Some("tf".to_string()),
        weight: None,
        enabled: None,
        file: onnx(&format!("/m/{id}.onnx")),
        inside_root: true,
        loading: Ok(12),
    }
}

#[test]
fn registries_pass_over_bad_entries() {
    let mut outside = entry("outside");
    outside.inside_root = false;
    let mut heavy = entry("heavy");
    heavy.weight = Some(EntryWeight {
        bits: f32::NAN.to_bits(),
        value: of(0.0),
    });
    let mut broken = entry("broken");
    broken.loading = Err(AiError::Model("broken".to_string()));
    let mut off = entry("off");
    off.enabled = Some(false);
    off.weight = Some(EntryWeight {
        bits: 2.0f32.to_bits(),
        value: of(2.0),
    });
    let entries = [
        entry("one"),
        entry("one"),
        entry("bad/name"),
        outside,
        heavy,
        broken,
        off,
    ];
    let mut model = model();
    let report = model.load_model_registry(&Some("vote".to_string()), &entries);
    assert_eq!(report.loaded, 2);
    assert_eq!(report.strategy, "majority_vote");
    assert_eq!(
        report.skipped,
        vec![
            "duplicate model id: one".to_string(),
            "model load error: model id must use only ASCII letters, numbers, '-', '_' or '.' and be <=64 characters".to_string(),
            "model is outside registry root: outside".to_string(),
            "heavy: model load error: model weight must be finite and non-negative".to_string(),
            "broken: model load error: broken".to_string(),
        ]
    );
    let shown = model.model_registry();
    assert_eq!(shown[1].kind, "Transformer");
    assert_eq!(value(shown[1].weight), 1.0);
    assert!(!shown[2].enabled);
    let mut seen = Vec::new();
    assert!(judge_entry(&entry("a"), &mut seen).is_ok());
    assert!(judge_entry(&entry("a"), &mut seen).is_err());
    assert_eq!(seen, names(&["a"]));
}

#[test]
fn a_configuration_is_read_anew() {
    let mut model = model();
    let none = || Ok((None, Vec::new()));
    let summary = model
        .reload_config(
            "{\"ensemble\":true,\"strategy\":\"max\"}",
            Some(of(0.2)),
            none(),
        )
        .expect("summary");
    assert_eq!(summary.changed_keys, names(&["ensemble", "blend_primary", "strategy"]));
    assert!(!summary.previous_ensemble);
    assert!(summary.new_ensemble);
    assert_eq!(summary.new_blend, of(0.2));
    assert_eq!(summary.strategy, "max_risk");
    let same = model
        .reload_config("{\"ensemble\":true}", Some(of(0.2)), none())
        .expect("summary");
    assert!(same.changed_keys.is_empty());

    let loaded = model
        .reload_config("{\"models\":[]}", None, Ok((None, vec![entry("one")])))
        .expect("summary");
    assert_eq!(loaded.changed_keys, names(&["models"]));
    assert_eq!(loaded.loaded_models, 1);
    assert!(matches!(
        model.reload_config("{\"strategy\":\"sum\"}", None, none()),
        Err(LoadError::Ai(AiError::Model(_)))
    ));
    assert!(matches!(
        model.reload_config("{", None, none()),
        Err(LoadError::Json { .. })
    ));
    assert!(matches!(
        model.reload_config("{\"models\":1}", None, Err(AiError::Io("x".to_string()))),
        Err(LoadError::Ai(AiError::Io(_)))
    ));
    assert_eq!(model.model_registry().len(), 2);
}

fn trial() -> ModelTrial {
    ModelTrial {
        requested: "a.onnx".to_string(),
        kind: AiModelKind::CNN,
        file: onnx("/m/a.onnx"),
        size: Ok(10),
        has_parent: true,
        has_features: true,
        has_contract: true,
        loading: Ok(12),
        runnable: Some(RunnableFacts {
            inputs: 1,
            outputs: 1,
            input0: Some("in".to_string()),
            output0: None,
        }),
        dry_run: DryRun::Score(of(1.5)),
    }
}

#[test]
fn a_trial_tells_whether_a_model_is_usable() {
    let good = validate_model_for_scanner(&trial());
    assert!(good.usable);
    assert_eq!(good.path, "/m/a.onnx");
    assert_eq!(good.dry_run_score, Some(of(1.0)));
    assert_eq!(good.input0.as_deref(), Some("in"));
    assert!(good.warnings.is_empty());

    let bare = validate_model_for_scanner(&ModelTrial {
        has_features: false,
        has_contract: false,
        size: Err("denied".to_string()),
        loading: Ok(5000),
        ..trial()
    });
    assert_eq!(bare.warnings.len(), 4);
    assert!(bare.usable);
    let facts = |inputs, outputs| {
        Some(RunnableFacts {
            inputs,
            outputs,
            input0: None,
            output0: None,
        })
    };
    let faults = [
        (
            ModelTrial {
                file: ModelFile {
                    regular: false,
                    ..onnx("x")
                },
                ..trial()
            },
            "model load error: model path must be a regular file",
        ),
        (
            ModelTrial {
                loading: Err(AiError::Model("broken".to_string())),
                ..trial()
            },
            "model load error: broken",
        ),
        (
            ModelTrial {
                loading: Ok(0),
                ..trial()
            },
            "feature vector is empty; features.json has no usable entries",
        ),
        (
            ModelTrial {
                runnable: None,
                ..trial()
            },
            "model compiled but no runnable plan is loaded",
        ),
        (
            ModelTrial {
                runnable: facts(2, 1),
                ..trial()
            },
            "model requires 2 inputs; HeliosAV currently supplies one feature tensor",
        ),
        (
            ModelTrial {
                runnable: facts(1, 0),
                ..trial()
            },
            "model has no outputs to decode as a malware score",
        ),
        (
            ModelTrial {
                dry_run: DryRun::NotFinite("NaN".to_string()),
                ..trial()
            },
            "dry-run returned a non-finite score: NaN",
        ),
        (
            ModelTrial {
                dry_run: DryRun::Failed(infer_error("x")),
                ..trial()
            },
            "dry-run inference failed: inference error: x",
        ),
    ];
    for (trial, message) in faults {
        let report = validate_model_for_scanner(&trial);
        assert!(!report.usable);
        assert_eq!(report.errors, vec![message.to_string()]);
    }
}

#[test]
fn the_version_changes_with_the_models() {
    let stamp = Some(FileStamp {
        size: 10,
        modified: Some((1, 2)),
    });
    let member = |enabled| MemberStamp {
        id: "a".to_string(),
        path: "/m/a.onnx".to_string(),
        stamp,
        weight_bits: 1.0f32.to_bits(),
        enabled,
    };
    let version = |stamp: &Option<FileStamp>, members: &[MemberStamp]| {
        model_version("/m/p.onnx", stamp, AiModelKind::CNN, Some(7), members)
    };
    let first = version(&stamp, &[member(true)]);
    assert_eq!(first, version(&stamp, &[member(true)]));
    assert_ne!(first, version(&stamp, &[member(false)]));
    assert_ne!(first, version(&None, &[member(true)]));

    let mut bytes = b"/m/p.onnx\0".to_vec();
    bytes.extend_from_slice(&10u64.to_le_bytes());
    bytes.extend_from_slice(&1u64.to_le_bytes());
    bytes.extend_from_slice(&2u32.to_le_bytes());
    bytes.push(1);
    bytes.extend_from_slice(&7u64.to_le_bytes());
    let digest = <sha2::Sha256 as sha2::Digest>::digest(&bytes).to_vec();
    let mut start = [0u8; 8];
    start.copy_from_slice(&digest[..8]);
    assert_eq!(version(&stamp, &[]), u64::from_le_bytes(start));
}
