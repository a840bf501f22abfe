use heliosav_layers::ai::features::BaseReadings;
use heliosav_layers::ai::registry::AiModel;
use heliosav_layers::score::Score;
use heliosav_layers::synthetic::corpus::{
    generate_corpus, occupied_message, prepare_samples, validate_output_root, Preparation,
};
use heliosav_layers::synthetic::image::{build_pe, SYNTHETIC_MARKER};
use heliosav_layers::synthetic::rng::Rng;
use heliosav_layers::synthetic::template::{family_template, FAMILY_NAMES};

fn contains_subslice(haystack: &[u8], needle: &[u8]) -> bool {
    haystack.windows(needle.len()).any(|window| window == needle)
}

fn u32_at(blob: &[u8], at: usize) -> u32 {
    u32::from_le_bytes([blob[at], blob[at + 1], blob[at + 2], blob[at + 3]])
}

#[test]
fn generated_samples_are_marked_and_inert() {
    for family in FAMILY_NAMES {
        let template = family_template(family).expect("known family");
        let blob = build_pe(&template, 42);

        assert!(
            contains_subslice(&blob, SYNTHETIC_MARKER.as_bytes()),
            "safety marker missing for {family}"
        );
        assert_eq!(&blob[..2], b"MZ");

        // The entry point must be a single RET inside a section payload.
        let e_lfanew = u32_at(&blob, 0x3c) as usize;
        assert_eq!(&blob[e_lfanew..e_lfanew + 4], b"PE\0\0");
        let opt = e_lfanew + 4 + 20;
        let entry = u32_at(&blob, opt + 16);
        let section_table = opt + 240;
        let count = u16::from_le_bytes([blob[e_lfanew + 6], blob[e_lfanew + 7]]) as usize;
        let mut stub_found = false;
        for index in 0..count {
            let header = section_table + 40 * index;
            let va = u32_at(&blob, header + 12) as u64;
            let raw_size = u32_at(&blob, header + 16) as u64;
            let raw_ptr = u32_at(&blob, header + 20) as usize;
            if va <= entry as u64 && (entry as u64) < va + raw_size.max(1) {
                assert_eq!(
                    blob[raw_ptr + (entry as usize - va as usize)],
                    0xC3,
                    "entry must stay RET for {family}"
                );
                stub_found = true;
                break;
            }
        }
        assert!(stub_found, "entry RVA did not map into any section: {family}");
    }
}

#[test]
fn generation_is_deterministic_per_seed() {
    let template = family_template("packed_like").unwrap();
    let first = build_pe(&template, 7);
    let second = build_pe(&template, 7);
    let other = build_pe(&template, 8);
    assert_eq!(first, second);
    assert_ne!(first, other);
}

fn entropy(bytes: &[u8]) -> f32 {
    let mut counts = [0usize; 256];
    for &b in bytes {
        counts[b as usize] += 1;
    }
    let len = bytes.len() as f32;
    let mut ent = 0.0f32;
    for &c in counts.iter().filter(|c| **c > 0) {
        let p = (c as f32) / len;
        ent -= p * p.log2();
    }
    ent.max(0.0)
}

fn features(family: &str) -> [Score; 12] {
    let blob = build_pe(&family_template(family).unwrap(), 5);
    let readings = BaseReadings {
        coverage: Score::hundredths(100),
        section_entropy: Score::hundredths(0),
        entropy: Score {
            units: ((entropy(&blob) / 8.0) as f64 * (1u64 << 60) as f64) as u128,
        },
    };
    AiModel::extract_features(&blob, &readings)
}

#[test]
fn families_carry_distinct_static_traits() {
    let benign = features("benign_like");
    let packed = features("packed_like");
    let stealth = features("stealth_like");

    let one = Score::hundredths(100);
    assert_eq!(benign[3].units, 0, "benign family has no TLS");
    assert!(
        packed[3] == one && stealth[3] == one,
        "packed/stealth carry TLS"
    );
    assert!(
        stealth[10].units > benign[10].units,
        "stealth entropy {:?} must exceed benign {:?}",
        stealth[10],
        benign[10]
    );
    assert!(benign[2].units > 0, "benign parses imports");
}

#[test]
fn refuses_protected_output_locations() {
    for forbidden in ["C:\\Windows\\Temp\\corpus", "c:\\program files\\x", "C:\\"] {
        assert!(
            validate_output_root(forbidden).is_err(),
            "must refuse {forbidden}"
        );
    }
    assert!(validate_output_root("/tmp/heliosav_synthetic_ok").is_ok());
}

#[test]
fn corpus_writer_emits_manifest_and_summary() {
    let corpus = generate_corpus(
        "/tmp/heliosav_corpus_test",
        &[("benign_like", 1), ("packed_like", 1)],
        99,
    )
    .expect("generate");
    assert_eq!(corpus.samples.len(), 2);
    assert_eq!(corpus.summary.sample_count, 2);
    assert_eq!(corpus.summary.family_counts.len(), 2);
    for sample in &corpus.samples {
        assert!(contains_subslice(&sample.image, SYNTHETIC_MARKER.as_bytes()));
        assert_eq!(sample.record.size, sample.image.len());
        assert_eq!(
            sample.record.sha256,
            hex::encode(<sha2::Sha256 as sha2::Digest>::digest(&sample.image))
        );
    }
    assert_ne!(corpus.samples[0].record.path, corpus.samples[1].record.path);
}

#[test]
fn writer_refuses_to_overwrite_without_force() {
    assert_eq!(prepare_samples(false, false, false), Preparation::Create);
    assert_eq!(
        prepare_samples(true, true, false),
        Preparation::Refuse,
        "second run without force must fail"
    );
    assert_eq!(
        prepare_samples(true, true, true),
        Preparation::Replace,
        "force regeneration must succeed"
    );
    assert!(occupied_message("/tmp/samples").contains("/tmp/samples"));
}

#[test]
fn an_unknown_family_stops_the_corpus() {
    assert!(family_template("no such family").is_none());
    let refusal = generate_corpus("/tmp/x", &[("benign_like", 1), ("nothing", 1)], 1)
        .expect_err("unknown family");
    assert!(refusal.message.contains("nothing"));
    assert_eq!(refusal.samples.len(), 1);
}

#[test]
fn noise_depends_on_the_seed_alone() {
    let mut a = Rng::new(3);
    let mut b = Rng::new(3);
    assert_eq!(a.fill_bytes(33), b.fill_bytes(33));
    assert_eq!(a.next_u64(), b.next_u64());
    assert_ne!(Rng::new(3).next_u64(), Rng::new(4).next_u64());
}
