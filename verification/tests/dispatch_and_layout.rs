use wgpu_prefix_sum::dispatch::{split_dispatch_3d, try_split_dispatch_3d, workgroups_needed};
use wgpu_prefix_sum::error::ScanError;
use wgpu_prefix_sum::layout::{ceil_log2, ceil_log2_power, copy_words, decode_words, encode_words, zero_words};
use wgpu_prefix_sum::uniform_table::UniformStepTable;
use wgpu_prefix_sum::utils::align_up;

#[test]
fn dispatch_within_one_dimension_is_flat() {
    assert_eq!(split_dispatch_3d(1, 65535), [1, 1, 1]);
    assert_eq!(split_dispatch_3d(10, 65535), [10, 1, 1]);
    assert_eq!(split_dispatch_3d(65535, 65535), [65535, 1, 1]);
}

#[test]
fn dispatch_spills_into_second_dimension() {
    assert_eq!(split_dispatch_3d(65536, 65535), [65535, 2, 1]);
    assert_eq!(split_dispatch_3d(8_388_608, 65535), [65535, 129, 1]);
}

#[test]
fn dispatch_spills_into_third_dimension() {
    assert_eq!(split_dispatch_3d(5, 2), [2, 2, 2]);
    assert_eq!(split_dispatch_3d(8, 2), [2, 2, 2]);
    assert_eq!(split_dispatch_3d(18, 3), [3, 3, 2]);
    assert_eq!(split_dispatch_3d(19, 3), [3, 3, 3]);
    assert_eq!(split_dispatch_3d(27, 3), [3, 3, 3]);
}

#[test]
fn dispatch_covers_request_and_respects_bound() {
    let bounds: [u32; 4] = [1, 2, 7, 65535];
    for m in bounds {
        let cube = (m as u64) * (m as u64) * (m as u64);
        let mut w: u64 = 1;
        while w <= cube && w <= 5000 {
            let shape = split_dispatch_3d(w as u32, m);
            let product = shape[0] as u64 * shape[1] as u64 * shape[2] as u64;
            assert!(product >= w);
            assert!(shape[0] >= 1 && shape[0] <= m);
            assert!(shape[1] >= 1 && shape[1] <= m);
            assert!(shape[2] >= 1 && shape[2] <= m);
            if w <= m as u64 {
                assert_eq!(shape, [w as u32, 1, 1]);
            }
            w += 1;
        }
    }
}

#[test]
fn dispatch_at_largest_request() {
    let shape = split_dispatch_3d(u32::MAX, 65535);
    assert_eq!(shape, [65535, 65535, 2]);
    assert_eq!(try_split_dispatch_3d(u32::MAX, u32::MAX), Ok([u32::MAX, 1, 1]));
}

#[test]
fn dispatch_beyond_cube_is_configuration_error() {
    assert_eq!(try_split_dispatch_3d(9, 2), Err(ScanError::ConfigurationError));
    assert_eq!(try_split_dispatch_3d(2, 1), Err(ScanError::ConfigurationError));
    assert_eq!(try_split_dispatch_3d(8, 2), Ok([2, 2, 2]));
    assert_eq!(try_split_dispatch_3d(1, 1), Ok([1, 1, 1]));
}

#[test]
fn dispatch_of_nothing_is_configuration_error() {
    assert_eq!(try_split_dispatch_3d(0, 16), Err(ScanError::ConfigurationError));
    assert_eq!(try_split_dispatch_3d(16, 0), Err(ScanError::ConfigurationError));
}

#[test]
fn workgroups_round_up_and_never_vanish() {
    assert_eq!(workgroups_needed(0), 1);
    assert_eq!(workgroups_needed(1), 1);
    assert_eq!(workgroups_needed(64), 1);
    assert_eq!(workgroups_needed(65), 2);
    assert_eq!(workgroups_needed(1000), 16);
    assert_eq!(workgroups_needed(u32::MAX), 67_108_864);
}

#[test]
fn align_up_rounds_to_next_multiple() {
    assert_eq!(align_up(16, 256), 256);
    assert_eq!(align_up(16, 16), 16);
    assert_eq!(align_up(17, 16), 32);
    assert_eq!(align_up(0, 8), 0);
    assert_eq!(align_up(1, 1), 1);
    assert_eq!(align_up(255, 64), 256);
}

#[test]
fn ceil_log2_counts_doublings() {
    assert_eq!(ceil_log2(0), 0);
    assert_eq!(ceil_log2(1), 0);
    assert_eq!(ceil_log2(2), 1);
    assert_eq!(ceil_log2(3), 2);
    assert_eq!(ceil_log2(4), 2);
    assert_eq!(ceil_log2(5), 3);
    assert_eq!(ceil_log2(1000), 10);
    assert_eq!(ceil_log2(1024), 10);
    assert_eq!(ceil_log2(1025), 11);
    assert_eq!(ceil_log2_power(1000), (10, 1024));
    assert_eq!(ceil_log2_power(1), (0, 1));
}

#[test]
fn encode_words_gives_native_bytes() {
    let words: [u32; 3] = [1, 0x0102_0304, u32::MAX];
    let bytes = encode_words(&words);
    let mut expected: Vec<u8> = Vec::new();
    for w in words {
        expected.extend_from_slice(&w.to_ne_bytes());
    }
    assert_eq!(bytes, expected);
    assert_eq!(encode_words(&[]), Vec::<u8>::new());
}

#[test]
fn decode_words_reads_native_bytes() {
    let mut bytes: Vec<u8> = Vec::new();
    bytes.extend_from_slice(&7u32.to_ne_bytes());
    bytes.extend_from_slice(&0xdead_beefu32.to_ne_bytes());
    assert_eq!(decode_words(&bytes), Ok(vec![7, 0xdead_beef]));
    assert_eq!(decode_words(&[]), Ok(vec![]));
}

#[test]
fn decode_words_from_unaligned_slice() {
    let mut bytes: Vec<u8> = vec![0xff];
    bytes.extend_from_slice(&0x1234_5678u32.to_ne_bytes());
    bytes.extend_from_slice(&9u32.to_ne_bytes());
    assert_eq!(decode_words(&bytes[1..]), Ok(vec![0x1234_5678, 9]));
}

#[test]
fn decode_words_rejects_partial_word() {
    assert_eq!(decode_words(&[1, 2, 3, 4, 5]), Err(ScanError::MappingFailure));
    assert_eq!(decode_words(&[1]), Err(ScanError::MappingFailure));
}

#[test]
fn encode_then_decode_is_identity() {
    let words: Vec<u32> = (0..1000u32).map(|i| i.wrapping_mul(2_654_435_761)).collect();
    assert_eq!(decode_words(&encode_words(&words)), Ok(words));
}

#[test]
fn word_buffers_are_copied_and_zeroed() {
    assert_eq!(copy_words(&[3, 1, 2]), vec![3, 1, 2]);
    assert_eq!(zero_words(4), vec![0, 0, 0, 0]);
    assert_eq!(zero_words(0), Vec::<u32>::new());
}

fn expected_table(first_step: u32, passes: u32, stride: usize) -> Vec<u8> {
    let mut blob = vec![0u8; stride * passes as usize];
    for i in 0..passes as usize {
        let step = first_step << i;
        blob[i * stride..i * stride + 4].copy_from_slice(&step.to_ne_bytes());
    }
    blob
}

#[test]
fn uniform_table_spaces_records_by_alignment() {
    let table = UniformStepTable::build(2, 3, 256).ok().unwrap();
    assert_eq!(table.stride(), 256);
    assert_eq!(table.passes(), 3);
    assert_eq!(table.as_bytes().len(), 768);
    assert_eq!(table.as_bytes(), &expected_table(2, 3, 256)[..]);
    assert_eq!(table.offset_bytes(0), 0);
    assert_eq!(table.offset_bytes(1), 256);
    assert_eq!(table.offset_bytes(2), 512);
}

#[test]
fn uniform_table_with_small_alignment_packs_records() {
    let table = UniformStepTable::build(1, 4, 16).ok().unwrap();
    assert_eq!(table.stride(), 16);
    assert_eq!(table.as_bytes(), &expected_table(1, 4, 16)[..]);
    let table = UniformStepTable::build(1, 2, 1).ok().unwrap();
    assert_eq!(table.stride(), 16);
    let table = UniformStepTable::build(1, 2, 12).ok().unwrap();
    assert_eq!(table.stride(), 24);
    assert_eq!(table.as_bytes(), &expected_table(1, 2, 24)[..]);
}

#[test]
fn uniform_table_without_passes_is_empty() {
    let table = UniformStepTable::build(2, 0, 256).ok().unwrap();
    assert_eq!(table.passes(), 0);
    assert_eq!(table.stride(), 256);
    assert!(table.as_bytes().is_empty());
}

#[test]
fn uniform_table_rejects_bad_configuration() {
    assert_eq!(UniformStepTable::build(2, 3, 0).err(), Some(ScanError::ConfigurationError));
    assert_eq!(
        UniformStepTable::build(1, 32, 1 << 28).err(),
        Some(ScanError::ConfigurationError)
    );
    assert_eq!(UniformStepTable::build(2, 32, 16).err(), Some(ScanError::ConfigurationError));
    assert!(UniformStepTable::build(1, 32, 16).is_ok());
    assert!(UniformStepTable::build(2, 31, 16).is_ok());
}

#[test]
fn error_messages() {
    assert_eq!(ScanError::ConfigurationError.message(), "configuration error");
    assert_eq!(ScanError::DeviceError.message(), "device error");
    assert_eq!(ScanError::MappingFailure.message(), "mapping failure");
}
