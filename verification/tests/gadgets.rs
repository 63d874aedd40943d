use zk_wnn::bits2num::{convert_be, convert_le, decompose_le};
use zk_wnn::greater_than::{greater_than_copy, greater_than_witness};
use zk_wnn::hash::hash;
use zk_wnn::params::{Bits2NumConfig, ConfigurationError, HashFunctionConfig};
use zk_wnn::range_check::{assert_in_range, RangeCheckConfig};
use zk_wnn::response_accumulator::accumulate_responses;
use zk_wnn::utils::{decompose_word, integer_division, pow2_u64, to_u32};

#[test]
fn test_bits2num_be_chip() {
    let config = Bits2NumConfig { num_bit_size: 4 };
    let input = vec![true, false, true, false];
    assert_eq!(convert_be(&input, &config), Ok(10));
}

#[test]
fn test_bits2num_le_chip() {
    let config = Bits2NumConfig { num_bit_size: 4 };
    let input = vec![true, false, true, false];
    assert_eq!(convert_le(&input, &config), Ok(5));
}

#[test]
fn test_bits2num_round_trip() {
    let config = Bits2NumConfig { num_bit_size: 4 };
    let input = vec![true, false, true, false];
    let value = convert_le(&input, &config).unwrap();
    assert_eq!(decompose_le(value, 4), input);
}

#[test]
fn test_bits2num_be_is_le_of_reversed() {
    let config = Bits2NumConfig { num_bit_size: 6 };
    let input = vec![true, true, false, true, false, false];
    let mut reversed = input.clone();
    reversed.reverse();
    assert_eq!(
        convert_be(&input, &config).unwrap(),
        convert_le(&reversed, &config).unwrap()
    );
}

#[test]
fn test_bits2num_wrong_bit_count() {
    let config = Bits2NumConfig { num_bit_size: 3 };
    let input = vec![true, false, true, false];
    assert_eq!(
        convert_be(&input, &config),
        Err(ConfigurationError::WrongBitCount)
    );
}

#[test]
fn test_bits2num_capacity_exceeded() {
    let config = Bits2NumConfig { num_bit_size: 65 };
    let input = vec![false; 65];
    assert_eq!(
        convert_be(&input, &config),
        Err(ConfigurationError::BitWidthExceedsCapacity)
    );
    assert_eq!(
        convert_le(&input, &config),
        Err(ConfigurationError::BitWidthExceedsCapacity)
    );
}

#[test]
fn test_greater_than_all_byte_pairs() {
    for v in [0u8, 1, 5, 127, 128, 254, 255] {
        for t in [0u8, 1, 5, 127, 128, 254, 255] {
            let fresh = greater_than_witness(v, t);
            assert_eq!(fresh.bit, v > t);
            assert_eq!(fresh.value, v);
            if fresh.bit {
                assert_eq!(fresh.diff as u16, v as u16 - t as u16 - 1);
            } else {
                assert_eq!(fresh.diff as u16, t as u16 - v as u16);
            }
            let reused = greater_than_copy(v, t);
            assert_eq!(reused.bit, fresh.bit);
        }
    }
}

#[test]
fn test_hash_concrete_values() {
    let config = HashFunctionConfig {
        p: (1 << 21) - 9,
        l: 20,
        n_bits: 15,
    };
    let w = hash(2117, &config);
    assert_eq!(w.hash, 260681);
    let w = hash(30177, &config);
    assert_eq!(w.hash, 260392);
    // The window decomposition used for the bloom lookups.
    assert_eq!(decompose_word(260681, 2, 10), vec![585, 254]);
    assert_eq!(decompose_word(260392, 2, 10), vec![296, 254]);
}

#[test]
fn test_hash_deterministic_and_in_range() {
    let config = HashFunctionConfig { p: 97, l: 7, n_bits: 7 };
    for x in 0..128u64 {
        let first = hash(x, &config);
        let second = hash(x, &config);
        assert_eq!(first.hash, second.hash);
        assert!(first.hash < 128);
        assert_eq!(first.hash, (x * x * x) % 97 % 128);
    }
}

#[test]
fn test_hash_witness_relations() {
    let config = HashFunctionConfig { p: 11, l: 5, n_bits: 4 };
    let x: u64 = 13;
    let w = hash(x, &config);
    let cube = (x as u128) * (x as u128) * (x as u128);
    assert_eq!(cube, w.quotient * 11 + w.mod_p as u128);
    assert!(w.mod_p < 11);
    assert_eq!(w.mod_p as u64, w.quotient_l * 32 + w.hash);
    assert!(w.hash < 32);
}

#[test]
fn test_accumulate_counts_true_bits() {
    assert_eq!(accumulate_responses(&vec![]), 0);
    assert_eq!(accumulate_responses(&vec![true; 9]), 9);
    assert_eq!(accumulate_responses(&vec![false; 4]), 0);
    assert_eq!(
        accumulate_responses(&vec![true, false, true, true, false]),
        3
    );
}

#[test]
fn test_range_check_fails_closed() {
    let config = RangeCheckConfig { range: 256 };
    assert!(assert_in_range(0, &config));
    assert!(assert_in_range(255, &config));
    assert!(!assert_in_range(256, &config));
    assert!(!assert_in_range(u64::MAX, &config));
}

#[test]
fn test_decompose_word() {
    assert_eq!(decompose_word(6, 1, 10), vec![6]);
    assert_eq!(decompose_word(0xabcdef, 2, 12), vec![0xdef, 0xabc]);
}

#[test]
fn test_to_u64() {
    assert_eq!(to_u32(6), 6u32);
    assert_eq!(to_u32(0x11223344u64), 0x11223344u32);
}

#[test]
fn test_integer_division() {
    assert_eq!(integer_division(6, 2), 3);
    assert_eq!(integer_division(7, 2), 3);
}

#[test]
fn test_pow2_u64() {
    assert_eq!(pow2_u64(0), 1);
    assert_eq!(pow2_u64(10), 1024);
    assert_eq!(pow2_u64(63), 1u64 << 63);
}
