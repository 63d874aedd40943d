use zk_wnn::bloom_filter::BloomFilter;
use zk_wnn::io::{first_channel, parse_png_file, ProofWithOutput};
use zk_wnn::params::{BloomFilterConfig, ConfigurationError, WnnCircuitParams};
use zk_wnn::quantize::quantize_threshold;
use zk_wnn::wnn::{WnnChip, WnnCircuit};

fn scenario_params() -> WnnCircuitParams {
    WnnCircuitParams {
        p: (1 << 21) - 9,
        l: 20,
        n_hashes: 2,
        bits_per_hash: 10,
        bits_per_filter: 15,
    }
}

fn scenario_bits() -> Vec<bool> {
    vec![
        true, false, true, false, false, false, true, false, false, false, false, true, false,
        false, false, true, false, false, false, false, true, true, true, true, false, true,
        false, true, true, true,
    ]
}

fn scenario_model() -> (Vec<Vec<u8>>, Vec<Vec<Vec<bool>>>, Vec<Vec<Vec<u16>>>, Vec<u64>) {
    // A 30 x 1 image whose binarization against threshold 1 reproduces the
    // scenario bits: intensity 1 where the bit is set, 0 elsewhere.
    let image: Vec<Vec<u8>> = scenario_bits()
        .iter()
        .map(|&b| vec![if b { 1u8 } else { 0u8 }])
        .collect();
    let thresholds: Vec<Vec<Vec<u16>>> = vec![vec![vec![1u16]]; 30];
    let permutation: Vec<u64> = (0..30).collect();
    // The two joint inputs 2117 and 30177 hash to 260681 and 260392; their
    // 10-bit windows are (585, 254) and (296, 254).
    let mut bloom = vec![vec![vec![false; 1024]; 2]; 2];
    bloom[0][0][585] = true;
    bloom[0][0][254] = true;
    bloom[0][1][296] = true;
    bloom[1][0][585] = true;
    bloom[1][0][254] = true;
    bloom[1][1][296] = true;
    bloom[1][1][254] = true;
    (image, bloom, thresholds, permutation)
}

#[test]
fn test_full_pipeline_scores() {
    let (image, bloom, thresholds, permutation) = scenario_model();
    let circuit =
        WnnCircuit::new(image, bloom, thresholds, permutation, scenario_params()).unwrap();
    assert_eq!(circuit.synthesize(), vec![1, 2]);
}

#[test]
fn test_predict_through_chip() {
    let (image, bloom, thresholds, permutation) = scenario_model();
    let mut chip = WnnChip::construct(bloom, thresholds, permutation, scenario_params()).unwrap();
    chip.load();
    assert_eq!(chip.predict(&image).unwrap(), vec![1, 2]);
}

fn tiny_params() -> WnnCircuitParams {
    WnnCircuitParams { p: 2, l: 1, n_hashes: 1, bits_per_hash: 1, bits_per_filter: 1 }
}

#[test]
fn test_zero_threshold_forces_bit_one() {
    // One pixel, one bit plane, threshold 0: the bit is 1 even for
    // intensity 0, so the joint input is 1 and the score probes entry 1.
    let image = vec![vec![0u8]];
    let thresholds = vec![vec![vec![0u16]]];
    let bloom = vec![vec![vec![false, true]]];
    let permutation = vec![0u64];
    let circuit =
        WnnCircuit::new(image, bloom, thresholds, permutation, tiny_params()).unwrap();
    assert_eq!(circuit.synthesize(), vec![1]);
}

#[test]
fn test_nonzero_threshold_rejects_low_intensity() {
    // The same model with threshold 1: intensity 0 now binarizes to 0 and
    // the probe moves to entry 0, which is not set.
    let image = vec![vec![0u8]];
    let thresholds = vec![vec![vec![1u16]]];
    let bloom = vec![vec![vec![false, true]]];
    let permutation = vec![0u64];
    let circuit =
        WnnCircuit::new(image, bloom, thresholds, permutation, tiny_params()).unwrap();
    assert_eq!(circuit.synthesize(), vec![0]);
}

#[test]
fn test_sentinel_threshold_never_satisfied() {
    // Threshold 256 binarizes even intensity 255 to 0.
    let image = vec![vec![255u8]];
    let thresholds = vec![vec![vec![256u16]]];
    let bloom = vec![vec![vec![true, false]]];
    let permutation = vec![0u64];
    let circuit =
        WnnCircuit::new(image, bloom, thresholds, permutation, tiny_params()).unwrap();
    assert_eq!(circuit.synthesize(), vec![1]);
}

fn two_plane_params() -> WnnCircuitParams {
    WnnCircuitParams { p: 3, l: 2, n_hashes: 1, bits_per_hash: 2, bits_per_filter: 2 }
}

#[test]
fn test_witness_reuse_across_bit_planes() {
    // One pixel with two thresholds: the second comparison reuses the
    // intensity witness of the first. Intensity 5 binarizes to [1, 0],
    // the joint input is 1, and 1^3 mod 3 mod 4 probes entry 1.
    let image = vec![vec![5u8]];
    let thresholds = vec![vec![vec![1u16, 200u16]]];
    let bloom = vec![vec![vec![false, true, false, false]]];
    let permutation = vec![0u64, 1u64];
    let circuit =
        WnnCircuit::new(image, bloom, thresholds, permutation, two_plane_params()).unwrap();
    assert_eq!(circuit.synthesize(), vec![1]);
}

#[test]
fn test_permutation_reorders_bits() {
    // The same model with the two bits swapped: the joint input becomes
    // 2, and 2^3 mod 3 mod 4 = 2 probes entry 2 instead.
    let image = vec![vec![5u8]];
    let thresholds = vec![vec![vec![1u16, 200u16]]];
    let bloom = vec![vec![vec![false, false, true, false]]];
    let permutation = vec![1u64, 0u64];
    let circuit =
        WnnCircuit::new(image, bloom, thresholds, permutation, two_plane_params()).unwrap();
    assert_eq!(circuit.synthesize(), vec![1]);
}

#[test]
fn test_quantize_boundaries() {
    // Stored 0.0 and 1.0, as exact fractions.
    assert_eq!(quantize_threshold(0, 1), 0);
    assert_eq!(quantize_threshold(1, 1), 255);
    // ceil(255 * 0.5) = 128.
    assert_eq!(quantize_threshold(1, 2), 128);
    // Negative stored values clamp to 0.
    assert_eq!(quantize_threshold(-3, 4), 0);
    // Stored values above 1 clamp to the 256 sentinel.
    assert_eq!(quantize_threshold(3, 2), 256);
    // The largest stored value that still quantizes to 0 is 0 itself...
    assert_eq!(quantize_threshold(1, 255), 1);
    // ...and anything in (254/255, 1] gives 255, never 256.
    assert_eq!(quantize_threshold(254, 255), 254);
    assert_eq!(quantize_threshold(509, 510), 255);
}

#[test]
fn test_construct_rejects_bad_hash_config() {
    let (_, bloom, thresholds, permutation) = scenario_model();
    let mut params = scenario_params();
    params.p = 0;
    assert_eq!(
        WnnChip::construct(bloom, thresholds, permutation, params).unwrap_err(),
        ConfigurationError::InvalidHashConfig
    );
}

#[test]
fn test_construct_rejects_bad_bloom_config() {
    let (_, bloom, thresholds, permutation) = scenario_model();
    let mut params = scenario_params();
    params.n_hashes = 3;  // 3 * 10 > l = 20
    assert_eq!(
        WnnChip::construct(bloom, thresholds, permutation, params).unwrap_err(),
        ConfigurationError::InvalidBloomConfig
    );
}

#[test]
fn test_construct_rejects_wrong_entry_count() {
    let (_, _, thresholds, permutation) = scenario_model();
    // 512 entries cannot carry 10-bit windows.
    let bloom = vec![vec![vec![false; 512]; 2]; 2];
    assert_eq!(
        WnnChip::construct(bloom, thresholds, permutation, scenario_params()).unwrap_err(),
        ConfigurationError::InvalidBloomConfig
    );
}

#[test]
fn test_construct_rejects_ragged_thresholds() {
    let (_, bloom, mut thresholds, permutation) = scenario_model();
    thresholds[7] = vec![];
    assert_eq!(
        WnnChip::construct(bloom, thresholds, permutation, scenario_params()).unwrap_err(),
        ConfigurationError::ShapeMismatch
    );
}

#[test]
fn test_construct_rejects_threshold_out_of_range() {
    let (_, bloom, mut thresholds, permutation) = scenario_model();
    thresholds[3][0][0] = 257;
    assert_eq!(
        WnnChip::construct(bloom, thresholds, permutation, scenario_params()).unwrap_err(),
        ConfigurationError::ThresholdOutOfRange
    );
}

#[test]
fn test_construct_rejects_duplicate_permutation() {
    let (_, bloom, thresholds, mut permutation) = scenario_model();
    permutation[5] = permutation[4];
    assert_eq!(
        WnnChip::construct(bloom, thresholds, permutation, scenario_params()).unwrap_err(),
        ConfigurationError::MalformedPermutation
    );
}

#[test]
fn test_construct_rejects_out_of_range_permutation() {
    let (_, bloom, thresholds, mut permutation) = scenario_model();
    permutation[5] = 30;
    assert_eq!(
        WnnChip::construct(bloom, thresholds, permutation, scenario_params()).unwrap_err(),
        ConfigurationError::MalformedPermutation
    );
}

#[test]
fn test_new_rejects_wrong_image_shape() {
    let (mut image, bloom, thresholds, permutation) = scenario_model();
    image.pop();
    assert_eq!(
        WnnCircuit::new(image, bloom, thresholds, permutation, scenario_params()).unwrap_err(),
        ConfigurationError::ShapeMismatch
    );
}

#[test]
fn test_predict_rejects_wrong_image_shape() {
    let (image, bloom, thresholds, permutation) = scenario_model();
    let mut chip = WnnChip::construct(bloom, thresholds, permutation, scenario_params()).unwrap();
    chip.load();
    let mut bad = image.clone();
    bad[3] = vec![0, 0];
    assert_eq!(chip.predict(&bad).unwrap_err(), ConfigurationError::ShapeMismatch);
}

#[test]
fn test_bloom_lookup_matches_table() {
    let rows = vec![vec![false, true, false, true], vec![true, false, false, false]];
    let filter = BloomFilter::load(rows, 4).unwrap();
    assert_eq!(filter.lookup(1, 0), Some(true));
    assert_eq!(filter.lookup(2, 0), Some(false));
    assert_eq!(filter.lookup(0, 1), Some(true));
    // An out-of-range column admits no witness: the lookup is rejected.
    assert_eq!(filter.lookup(4, 0), None);
    assert_eq!(filter.lookup(0, 2), None);
}

#[test]
fn test_bloom_lookup_conjoins_windows() {
    // Two 1-bit windows of the hash value index one row.
    let config = BloomFilterConfig { n_hashes: 2, bits_per_hash: 1 };
    let rows = vec![vec![false, true]];
    let filter = BloomFilter::load(rows, 2).unwrap();
    // hash 3 = windows (1, 1): both probes hit entry 1.
    assert!(filter.bloom_lookup(&config, 3, 0));
    // hash 1 = windows (1, 0): the second probe hits entry 0.
    assert!(!filter.bloom_lookup(&config, 1, 0));
}

#[test]
fn test_bloom_load_rejects_ragged_rows() {
    let rows = vec![vec![false, true], vec![false]];
    assert!(BloomFilter::load(rows, 2).is_err());
}

#[test]
fn test_parse_png_file() {
    assert_eq!(parse_png_file("data/MNIST/png/0000_7.png"), Some(7));
    assert_eq!(parse_png_file("3.png"), Some(3));
    assert_eq!(parse_png_file("data/MNIST/png/0000_7.jpg"), None);
    assert_eq!(parse_png_file("no_extension"), None);
    assert_eq!(parse_png_file(".png"), None);
    assert_eq!(parse_png_file("dir.png/name"), None);
}

#[test]
fn test_first_channel_takes_every_third_byte() {
    let raw = vec![10, 11, 12, 20, 21, 22, 30, 31, 32, 40, 41, 42];
    let grid = first_channel(&raw, 2, 2).unwrap();
    assert_eq!(grid, vec![vec![10, 20], vec![30, 40]]);
    assert!(first_channel(&raw, 2, 3).is_err());
}

#[test]
fn test_proof_with_output_round_trip() {
    let pair = ProofWithOutput::new(vec![1, 2, 3], vec![9, 8]);
    let (proof_bytes, output) = pair.into_parts();
    assert_eq!(proof_bytes, vec![1, 2, 3]);
    assert_eq!(output, vec![9, 8]);
}
