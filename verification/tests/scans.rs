use wgpu_prefix_sum::blelloch_scan::{
    down_sweep_pass, set_last_zero_pass, up_sweep_pass, BlellochGpuContext,
};
use wgpu_prefix_sum::block_blelloch_scan::{
    add_carry_pass, block_scan_no_sum, block_scan_write_sum, BlockBlellochGpuContext, LevelKernel,
};
use wgpu_prefix_sum::cpu_prefix_scan::cpu_prefix_sum;
use wgpu_prefix_sum::error::ScanError;
use wgpu_prefix_sum::hillis_steele::hillis_steele_pass;
use wgpu_prefix_sum::plan::{invocations, DeviceLimits};
use wgpu_prefix_sum::scan_model::exclusive_to_inclusive;
use wgpu_prefix_sum::subgroup_scan::{carry_in_pass, subgroup_scan_write_sum, SubgroupScanGpuContext};
use wgpu_prefix_sum::GpuContext;

fn limits() -> DeviceLimits {
    DeviceLimits {
        max_compute_workgroups_per_dimension: 65535,
        min_uniform_buffer_offset_alignment: 256,
    }
}

fn sample(n: usize) -> Vec<u32> {
    let mut state: u32 = 0x9e37_79b9;
    let mut out = Vec::with_capacity(n);
    for _ in 0..n {
        state = state.wrapping_mul(1_664_525).wrapping_add(1_013_904_223);
        out.push(state >> 8);
    }
    out
}

fn exclusive_reference(data: &[u32]) -> Vec<u32> {
    let mut out = Vec::with_capacity(data.len());
    let mut acc: u32 = 0;
    for &x in data {
        out.push(acc);
        acc = acc.wrapping_add(x);
    }
    out
}

#[test]
fn cpu_prefix_sum_is_running_sum() {
    assert_eq!(cpu_prefix_sum(&[1, 2, 3, 4]), vec![1, 3, 6, 10]);
    assert_eq!(cpu_prefix_sum(&[5]), vec![5]);
    assert_eq!(cpu_prefix_sum(&[0, 0, 7, 0]), vec![0, 0, 7, 7]);
    assert_eq!(wgpu_prefix_sum::cpu_prefix_sum(&[2, 2]), vec![2, 4]);
}

#[test]
fn cpu_prefix_sum_of_nothing_is_nothing() {
    assert_eq!(cpu_prefix_sum(&[]), Vec::<u32>::new());
}

#[test]
fn cpu_prefix_sum_wraps_modulo_word() {
    assert_eq!(cpu_prefix_sum(&[u32::MAX, 1, 5]), vec![u32::MAX, 0, 5]);
    assert_eq!(cpu_prefix_sum(&[0x8000_0000, 0x8000_0000]), vec![0x8000_0000, 0]);
}

#[test]
fn exclusive_converts_to_inclusive() {
    let input = [3u32, 1, 4, 1, 5];
    let exclusive = [0u32, 3, 4, 8, 9];
    assert_eq!(exclusive_to_inclusive(&exclusive, &input), vec![3, 4, 8, 9, 14]);
    assert_eq!(exclusive_to_inclusive(&[], &[]), Vec::<u32>::new());
}

#[test]
fn hillis_steele_single_pass() {
    let src = vec![1u32, 2, 3, 4, 5];
    let mut dst = vec![9u32; 5];
    hillis_steele_pass(&src, &mut dst, 2, 64);
    assert_eq!(dst, vec![1, 2, 4, 6, 8]);
    let mut partial = vec![9u32; 5];
    hillis_steele_pass(&src, &mut partial, 1, 3);
    assert_eq!(partial, vec![1, 3, 5, 9, 9]);
}

#[test]
fn invocations_multiply_grid_by_workgroup_size() {
    assert_eq!(invocations(&[1, 1, 1]), 64);
    assert_eq!(invocations(&[3, 2, 5]), 1920);
    assert_eq!(
        invocations(&[u32::MAX, u32::MAX, u32::MAX]),
        (u32::MAX as u128).pow(3) * 64
    );
}

#[test]
fn hillis_steele_plan_for_thousand_elements() {
    let ctx = GpuContext::new(1000, limits()).ok().unwrap();
    assert_eq!(ctx.len(), 1000);
    assert_eq!(ctx.max_steps(), 10);
    assert_eq!(ctx.byte_len(), 4000);
    assert_eq!(ctx.uniform_table().stride(), 256);
    assert_eq!(ctx.uniform_table().passes(), 10);
    let passes = ctx.run_prefix_scan();
    assert_eq!(passes.len(), 10);
    for (i, pass) in passes.iter().enumerate() {
        assert_eq!(pass.step, 1u32 << i);
        assert_eq!(pass.bind_group, (i % 2) as u32);
        assert_eq!(pass.offset_bytes, 256 * i as u32);
        assert_eq!(pass.shape, [16, 1, 1]);
    }
    assert_eq!(ctx.result_buffer(), 0);
    let first = &ctx.uniform_table().as_bytes()[0..4];
    assert_eq!(first, &1u32.to_ne_bytes()[..]);
}

#[test]
fn hillis_steele_result_buffer_follows_parity() {
    let sizes: [(usize, u32, u32); 6] =
        [(1, 0, 0), (2, 1, 1), (3, 2, 0), (4, 2, 0), (5, 3, 1), (1 << 20, 20, 0)];
    for (n, steps, buffer) in sizes {
        let ctx = GpuContext::new(n, limits()).ok().unwrap();
        assert_eq!(ctx.max_steps(), steps);
        assert_eq!(ctx.result_buffer(), buffer);
    }
}

#[test]
fn hillis_steele_large_dispatch_is_split() {
    let ctx = GpuContext::new(1 << 23, limits()).ok().unwrap();
    let passes = ctx.run_prefix_scan();
    assert_eq!(passes.len(), 23);
    assert_eq!(passes[0].shape, [65535, 3, 1]);
}

#[test]
fn hillis_steele_rejects_what_the_device_cannot_dispatch() {
    let tight = DeviceLimits {
        max_compute_workgroups_per_dimension: 2,
        min_uniform_buffer_offset_alignment: 256,
    };
    assert!(GpuContext::new(512, tight).is_ok());
    assert_eq!(GpuContext::new(513, tight).err(), Some(ScanError::ConfigurationError));
    let no_alignment = DeviceLimits {
        max_compute_workgroups_per_dimension: 65535,
        min_uniform_buffer_offset_alignment: 0,
    };
    assert_eq!(GpuContext::new(16, no_alignment).err(), Some(ScanError::ConfigurationError));
}

#[test]
fn hillis_steele_of_empty_input() {
    let ctx = GpuContext::new(0, limits()).ok().unwrap();
    assert_eq!(ctx.max_steps(), 0);
    assert!(ctx.run_prefix_scan().is_empty());
    assert_eq!(ctx.run_on_host(&[]), Vec::<u32>::new());
}

#[test]
fn hillis_steele_matches_reference() {
    for n in [1usize, 2, 3, 63, 64, 65, 100, 1000, 4097] {
        let data = sample(n);
        let ctx = GpuContext::new(n, limits()).ok().unwrap();
        assert_eq!(ctx.run_on_host(&data), cpu_prefix_sum(&data), "n = {}", n);
    }
}

#[test]
fn blelloch_requires_power_of_two() {
    assert_eq!(BlellochGpuContext::new(1000, limits()).err(), Some(ScanError::ConfigurationError));
    assert_eq!(BlellochGpuContext::new(0, limits()).err(), Some(ScanError::ConfigurationError));
    assert_eq!(BlellochGpuContext::new(3, limits()).err(), Some(ScanError::ConfigurationError));
    assert!(BlellochGpuContext::new(1, limits()).is_ok());
    assert!(BlellochGpuContext::new(2, limits()).is_ok());
    assert!(BlellochGpuContext::new(1024, limits()).is_ok());
}

#[test]
fn blelloch_plan_for_1024_elements() {
    let ctx = BlellochGpuContext::new(1024, limits()).ok().unwrap();
    assert_eq!(ctx.len(), 1024);
    assert_eq!(ctx.max_steps(), 10);
    assert_eq!(ctx.byte_len(), 4096);
    let up = ctx.encode_up_sweep();
    assert_eq!(up.len(), 10);
    for (i, pass) in up.iter().enumerate() {
        assert_eq!(pass.step, 2u32 << i);
        assert_eq!(pass.bind_group, 0);
        assert_eq!(pass.offset_bytes, 256 * i as u32);
    }
    assert_eq!(up[0].shape, [8, 1, 1]);
    assert_eq!(up[1].shape, [4, 1, 1]);
    assert_eq!(up[3].shape, [1, 1, 1]);
    assert_eq!(up[9].shape, [1, 1, 1]);
    assert_eq!(ctx.encode_set_last_zero(), [1, 1, 1]);
    let down = ctx.encode_down_sweep();
    assert_eq!(down.len(), 10);
    for (r, pass) in down.iter().enumerate() {
        let i = 9 - r;
        assert_eq!(pass.step, 2u32 << i);
        assert_eq!(pass.offset_bytes, 256 * i as u32);
        assert_eq!(pass.shape, up[i].shape);
    }
    let plan = ctx.run_prefix_sum();
    assert_eq!(plan.up_sweep.len(), 10);
    assert_eq!(plan.set_last_zero, [1, 1, 1]);
    assert_eq!(plan.down_sweep.len(), 10);
    assert_eq!(plan.down_sweep[0].step, 1024);
    let table = ctx.uniform_table();
    assert_eq!(&table.as_bytes()[256..260], &4u32.to_ne_bytes()[..]);
}

#[test]
fn blelloch_passes_on_eight_elements() {
    let data = vec![1u32, 2, 3, 4, 5, 6, 7, 8];
    let a = up_sweep_pass(&data, 2);
    assert_eq!(a, vec![1, 3, 3, 7, 5, 11, 7, 15]);
    let b = up_sweep_pass(&a, 4);
    assert_eq!(b, vec![1, 3, 3, 10, 5, 11, 7, 26]);
    let mut c = up_sweep_pass(&b, 8);
    assert_eq!(c, vec![1, 3, 3, 10, 5, 11, 7, 36]);
    set_last_zero_pass(&mut c);
    assert_eq!(c, vec![1, 3, 3, 10, 5, 11, 7, 0]);
    let d = down_sweep_pass(&c, 8);
    assert_eq!(d, vec![1, 3, 3, 0, 5, 11, 7, 10]);
    let e = down_sweep_pass(&d, 4);
    assert_eq!(e, vec![1, 0, 3, 3, 5, 10, 7, 21]);
    let f = down_sweep_pass(&e, 2);
    assert_eq!(f, vec![0, 1, 3, 6, 10, 15, 21, 28]);
}

#[test]
fn blelloch_matches_reference() {
    for n in [1usize, 2, 4, 64, 128, 1024, 4096] {
        let data = sample(n);
        let ctx = BlellochGpuContext::new(n, limits()).ok().unwrap();
        assert_eq!(ctx.run_on_host(&data), exclusive_reference(&data), "n = {}", n);
    }
}

#[test]
fn block_scan_kernels_on_two_tiles() {
    let data: Vec<u32> = (1..=70).collect();
    let (scanned, sums) = block_scan_write_sum(&data);
    assert_eq!(sums, vec![2080, 65 + 66 + 67 + 68 + 69 + 70]);
    assert_eq!(scanned[0], 0);
    assert_eq!(scanned[1], 1);
    assert_eq!(scanned[63], 2016);
    assert_eq!(scanned[64], 0);
    assert_eq!(scanned[69], 65 + 66 + 67 + 68 + 69);
    assert_eq!(block_scan_no_sum(&vec![4, 5, 6]), vec![0, 4, 9]);
    let carried = add_carry_pass(&scanned, &vec![0, 2080]);
    assert_eq!(carried, exclusive_reference(&data));
}

#[test]
fn block_hierarchy_has_one_level_up_to_a_tile() {
    for n in [0usize, 1, 2, 63, 64] {
        let ctx = BlockBlellochGpuContext::new(n, limits()).ok().unwrap();
        assert_eq!(ctx.elms_per_level(), &vec![n as u32]);
        assert!(ctx.bind_groups_write_sum().is_empty());
        assert!(ctx.bind_groups_add_carry().is_empty());
        let passes = ctx.encode_scan();
        assert_eq!(passes.len(), 1);
        assert_eq!(passes[0].kernel, LevelKernel::ScanNoSum);
        assert_eq!(passes[0].shape, [1, 1, 1]);
    }
}

#[test]
fn block_hierarchy_has_two_levels_just_above_a_tile() {
    let ctx = BlockBlellochGpuContext::new(65, limits()).ok().unwrap();
    assert_eq!(ctx.elms_per_level(), &vec![65, 2]);
    let write_sum = ctx.bind_groups_write_sum();
    assert_eq!(write_sum.len(), 1);
    assert_eq!((write_sum[0].data, write_sum[0].sums), (0, 1));
    let carry = ctx.bind_groups_add_carry();
    assert_eq!(carry.len(), 1);
    assert_eq!((carry[0].data, carry[0].sums), (0, 1));
    let passes = ctx.encode_scan();
    assert_eq!(passes.len(), 3);
    assert_eq!(passes[0].kernel, LevelKernel::ScanWriteSum);
    assert_eq!(passes[0].bind_group, 0);
    assert_eq!(passes[0].shape, [2, 1, 1]);
    assert_eq!(passes[1].kernel, LevelKernel::ScanNoSum);
    assert_eq!(passes[1].shape, [1, 1, 1]);
    assert_eq!(passes[2].kernel, LevelKernel::AddCarry);
    assert_eq!(passes[2].bind_group, 0);
    assert_eq!(passes[2].shape, [2, 1, 1]);
    assert_eq!(ctx.buffer_bytes(0), 260);
    assert_eq!(ctx.buffer_bytes(1), 8);
    assert_eq!(ctx.readback_bytes(), 260);
}

#[test]
fn block_hierarchy_for_a_million_elements() {
    let ctx = BlockBlellochGpuContext::new(1 << 20, limits()).ok().unwrap();
    assert_eq!(ctx.len(), 1 << 20);
    assert_eq!(ctx.elms_per_level(), &vec![1 << 20, 1 << 14, 1 << 8, 4]);
    let write_sum = ctx.bind_groups_write_sum();
    assert_eq!(write_sum.len(), 3);
    for (i, w) in write_sum.iter().enumerate() {
        assert_eq!((w.data, w.sums), (i, i + 1));
    }
    let carry = ctx.bind_groups_add_carry();
    assert_eq!(carry.len(), 3);
    assert_eq!((carry[0].data, carry[0].sums), (2, 3));
    assert_eq!((carry[1].data, carry[1].sums), (1, 2));
    assert_eq!((carry[2].data, carry[2].sums), (0, 1));
    let passes = ctx.run_prefix_sum();
    assert_eq!(passes.len(), 7);
    let kernels: Vec<LevelKernel> = passes.iter().map(|p| p.kernel).collect();
    assert_eq!(
        kernels,
        vec![
            LevelKernel::ScanWriteSum,
            LevelKernel::ScanWriteSum,
            LevelKernel::ScanWriteSum,
            LevelKernel::ScanNoSum,
            LevelKernel::AddCarry,
            LevelKernel::AddCarry,
            LevelKernel::AddCarry,
        ]
    );
    let groups: Vec<usize> = passes.iter().map(|p| p.bind_group).collect();
    assert_eq!(groups, vec![0, 1, 2, 0, 0, 1, 2]);
    let shapes: Vec<[u32; 3]> = passes.iter().map(|p| p.shape).collect();
    assert_eq!(
        shapes,
        vec![
            [16384, 1, 1],
            [256, 1, 1],
            [4, 1, 1],
            [1, 1, 1],
            [4, 1, 1],
            [256, 1, 1],
            [16384, 1, 1],
        ]
    );
}

#[test]
fn block_hierarchy_of_empty_buffer_keeps_four_bytes() {
    let ctx = BlockBlellochGpuContext::new(0, limits()).ok().unwrap();
    assert_eq!(ctx.buffer_bytes(0), 4);
    assert_eq!(ctx.readback_bytes(), 0);
    assert_eq!(ctx.run_on_host(&[]), Vec::<u32>::new());
}

#[test]
fn block_rejects_what_the_device_cannot_dispatch() {
    let tight = DeviceLimits {
        max_compute_workgroups_per_dimension: 1,
        min_uniform_buffer_offset_alignment: 256,
    };
    assert!(BlockBlellochGpuContext::new(64, tight).is_ok());
    assert_eq!(
        BlockBlellochGpuContext::new(65, tight).err(),
        Some(ScanError::ConfigurationError)
    );
}

#[test]
fn block_scan_matches_reference_at_any_size() {
    for n in [1usize, 2, 63, 64, 65, 127, 128, 129, 1000, 4096, 4097, 70_000] {
        let data = sample(n);
        let ctx = BlockBlellochGpuContext::new(n, limits()).ok().unwrap();
        assert_eq!(ctx.run_on_host(&data), exclusive_reference(&data), "n = {}", n);
    }
}

#[test]
fn scan_of_single_element() {
    let hs = GpuContext::new(1, limits()).ok().unwrap();
    assert_eq!(hs.run_on_host(&[42]), vec![42]);
    let global = BlellochGpuContext::new(1, limits()).ok().unwrap();
    assert_eq!(global.run_on_host(&[42]), vec![0]);
    assert!(global.encode_up_sweep().is_empty());
    let block = BlockBlellochGpuContext::new(1, limits()).ok().unwrap();
    assert_eq!(block.run_on_host(&[42]), vec![0]);
    let subgroup = SubgroupScanGpuContext::new(1, limits()).ok().unwrap();
    assert_eq!(subgroup.run_on_host(&[42]), vec![42]);
}

#[test]
fn scan_of_all_ones_counts() {
    for n in [1usize, 64, 65, 1024, 4096] {
        let ones = vec![1u32; n];
        let inclusive: Vec<u32> = (1..=n as u32).collect();
        let exclusive: Vec<u32> = (0..n as u32).collect();
        let hs = GpuContext::new(n, limits()).ok().unwrap();
        assert_eq!(hs.run_on_host(&ones), inclusive);
        let subgroup = SubgroupScanGpuContext::new(n, limits()).ok().unwrap();
        assert_eq!(subgroup.run_on_host(&ones), inclusive);
        let block = BlockBlellochGpuContext::new(n, limits()).ok().unwrap();
        assert_eq!(block.run_on_host(&ones), exclusive);
        if n.is_power_of_two() {
            let global = BlellochGpuContext::new(n, limits()).ok().unwrap();
            assert_eq!(global.run_on_host(&ones), exclusive);
        }
    }
}

#[test]
fn scan_of_all_zeros_is_zero() {
    for n in [1usize, 64, 65, 1024] {
        let zeros = vec![0u32; n];
        let hs = GpuContext::new(n, limits()).ok().unwrap();
        assert_eq!(hs.run_on_host(&zeros), zeros);
        let subgroup = SubgroupScanGpuContext::new(n, limits()).ok().unwrap();
        assert_eq!(subgroup.run_on_host(&zeros), zeros);
        let block = BlockBlellochGpuContext::new(n, limits()).ok().unwrap();
        assert_eq!(block.run_on_host(&zeros), zeros);
        if n.is_power_of_two() {
            let global = BlellochGpuContext::new(n, limits()).ok().unwrap();
            assert_eq!(global.run_on_host(&zeros), zeros);
        }
    }
}

#[test]
fn scan_wraps_like_the_reference() {
    let data = vec![u32::MAX; 130];
    let hs = GpuContext::new(130, limits()).ok().unwrap();
    assert_eq!(hs.run_on_host(&data), cpu_prefix_sum(&data));
    let block = BlockBlellochGpuContext::new(130, limits()).ok().unwrap();
    assert_eq!(block.run_on_host(&data), exclusive_reference(&data));
    let data = vec![u32::MAX; 128];
    let global = BlellochGpuContext::new(128, limits()).ok().unwrap();
    assert_eq!(global.run_on_host(&data), exclusive_reference(&data));
}

fn variants_agree_at(n: usize) {
    let data = sample(n);
    let reference = cpu_prefix_sum(&data);
    let hs = GpuContext::new(n, limits()).ok().unwrap().run_on_host(&data);
    let block = BlockBlellochGpuContext::new(n, limits()).ok().unwrap().run_on_host(&data);
    let global = BlellochGpuContext::new(n, limits()).ok().unwrap().run_on_host(&data);
    let subgroup = SubgroupScanGpuContext::new(n, limits()).ok().unwrap().run_on_host(&data);
    assert_eq!(subgroup, hs);
    assert_eq!(global, block);
    assert_eq!(exclusive_to_inclusive(&block, &data), hs);
    assert_eq!(exclusive_to_inclusive(&global, &data), hs);
    assert_eq!(hs, reference);
}

#[test]
fn variants_agree_below_a_tile() {
    variants_agree_at(16);
}

#[test]
fn variants_agree_at_exactly_a_tile() {
    variants_agree_at(64);
}

#[test]
fn variants_agree_on_two_levels() {
    variants_agree_at(128);
}

#[test]
fn variants_agree_on_three_levels() {
    variants_agree_at(8192);
}

#[test]
fn variants_agree_above_a_million() {
    variants_agree_at(1 << 20);
}

#[test]
fn upload_is_native_image_of_input() {
    let input = [1u32, 2, 0xffff_0000];
    let mut expected: Vec<u8> = Vec::new();
    for w in input {
        expected.extend_from_slice(&w.to_ne_bytes());
    }
    let hs = GpuContext::new(3, limits()).ok().unwrap();
    assert_eq!(hs.upload_data(&input), expected);
    let block = BlockBlellochGpuContext::new(3, limits()).ok().unwrap();
    assert_eq!(block.upload_data(&input), expected);
    let global = BlellochGpuContext::new(4, limits()).ok().unwrap();
    assert_eq!(global.upload_data(&input), expected);
}

#[test]
fn readback_decodes_mapped_range() {
    let mut mapped: Vec<u8> = Vec::new();
    for w in [10u32, 20, 30, 40] {
        mapped.extend_from_slice(&w.to_ne_bytes());
    }
    let hs = GpuContext::new(4, limits()).ok().unwrap();
    assert_eq!(hs.read_computed_data(&mapped), Ok(vec![10, 20, 30, 40]));
    let block = BlockBlellochGpuContext::new(4, limits()).ok().unwrap();
    assert_eq!(block.read_computed_data(&mapped), Ok(vec![10, 20, 30, 40]));
    let global = BlellochGpuContext::new(4, limits()).ok().unwrap();
    assert_eq!(global.read_computed_data(&mapped), Ok(vec![10, 20, 30, 40]));
}

#[test]
fn readback_of_wrong_length_is_mapping_failure() {
    let mapped = vec![0u8; 12];
    let hs = GpuContext::new(4, limits()).ok().unwrap();
    assert_eq!(hs.read_computed_data(&mapped), Err(ScanError::MappingFailure));
    assert_eq!(hs.read_computed_data(&[0u8; 17]), Err(ScanError::MappingFailure));
    let block = BlockBlellochGpuContext::new(4, limits()).ok().unwrap();
    assert_eq!(block.read_computed_data(&mapped), Err(ScanError::MappingFailure));
    let global = BlellochGpuContext::new(4, limits()).ok().unwrap();
    assert_eq!(global.read_computed_data(&[]), Err(ScanError::MappingFailure));
}

#[test]
fn subgroup_kernels_on_two_tiles() {
    let data: Vec<u32> = (1..=70).collect();
    let (scanned, sums) = subgroup_scan_write_sum(&data);
    assert_eq!(sums, vec![2080, 405]);
    assert_eq!(scanned[0], 1);
    assert_eq!(scanned[63], 2080);
    assert_eq!(scanned[64], 65);
    assert_eq!(scanned[69], 405);
    let carried = carry_in_pass(&scanned, &vec![2080, 2485]);
    assert_eq!(carried, cpu_prefix_sum(&data));
}

#[test]
fn subgroup_scan_within_a_tile_is_one_dispatch() {
    for n in [1usize, 32, 64] {
        let ctx = SubgroupScanGpuContext::new(n, limits()).ok().unwrap();
        let passes = ctx.encode_scan();
        assert_eq!(passes.len(), 1);
        assert_eq!(passes[0].kernel, LevelKernel::ScanNoSum);
        assert_eq!(passes[0].shape, [1, 1, 1]);
    }
    let ctx = SubgroupScanGpuContext::new(65, limits()).ok().unwrap();
    assert_eq!(ctx.encode_scan().len(), 3);
    assert_eq!(ctx.hierarchy().elms_per_level(), &vec![65, 2]);
}

#[test]
fn subgroup_scan_matches_reference_at_any_size() {
    for n in [1usize, 2, 63, 64, 65, 128, 129, 1000, 4097, 70_000] {
        let data = sample(n);
        let ctx = SubgroupScanGpuContext::new(n, limits()).ok().unwrap();
        assert_eq!(ctx.run_on_host(&data), cpu_prefix_sum(&data), "n = {}", n);
    }
}

#[test]
fn subgroup_upload_and_readback() {
    let ctx = SubgroupScanGpuContext::new(2, limits()).ok().unwrap();
    let bytes = ctx.upload_data(&[5, 6]);
    assert_eq!(ctx.read_computed_data(&bytes), Ok(vec![5, 6]));
    assert_eq!(ctx.read_computed_data(&bytes[..4]), Err(ScanError::MappingFailure));
    let tight = DeviceLimits {
        max_compute_workgroups_per_dimension: 1,
        min_uniform_buffer_offset_alignment: 256,
    };
    assert_eq!(SubgroupScanGpuContext::new(65, tight).err(), Some(ScanError::ConfigurationError));
}

fn device_words(uploaded: &[u8]) -> Vec<u32> {
    wgpu_prefix_sum::layout::decode_words(uploaded).ok().unwrap()
}

fn staged(words: &[u32]) -> Vec<u8> {
    wgpu_prefix_sum::layout::encode_words(words)
}

#[test]
fn round_trip_hillis_steele() {
    for n in [1usize, 64, 1000] {
        let ctx = GpuContext::new(n, limits()).ok().unwrap();
        let ones = vec![1u32; n];
        let on_device = device_words(&ctx.upload_data(&ones));
        let mapped = staged(&ctx.run_on_host(&on_device));
        assert_eq!(ctx.read_computed_data(&mapped), Ok((1..=n as u32).collect::<Vec<u32>>()));
        let zeros = vec![0u32; n];
        let on_device = device_words(&ctx.upload_data(&zeros));
        let mapped = staged(&ctx.run_on_host(&on_device));
        assert_eq!(ctx.read_computed_data(&mapped), Ok(zeros));
    }
}

#[test]
fn round_trip_blelloch() {
    for n in [1usize, 64, 1024] {
        let ctx = BlellochGpuContext::new(n, limits()).ok().unwrap();
        let ones = vec![1u32; n];
        let on_device = device_words(&ctx.upload_data(&ones));
        let mapped = staged(&ctx.run_on_host(&on_device));
        assert_eq!(ctx.read_computed_data(&mapped), Ok((0..n as u32).collect::<Vec<u32>>()));
        let zeros = vec![0u32; n];
        let on_device = device_words(&ctx.upload_data(&zeros));
        let mapped = staged(&ctx.run_on_host(&on_device));
        assert_eq!(ctx.read_computed_data(&mapped), Ok(zeros));
    }
}

#[test]
fn round_trip_block_recursive() {
    for n in [1usize, 64, 65, 5000] {
        let ctx = BlockBlellochGpuContext::new(n, limits()).ok().unwrap();
        let ones = vec![1u32; n];
        let on_device = device_words(&ctx.upload_data(&ones));
        let mapped = staged(&ctx.run_on_host(&on_device));
        assert_eq!(ctx.read_computed_data(&mapped), Ok((0..n as u32).collect::<Vec<u32>>()));
        let zeros = vec![0u32; n];
        let on_device = device_words(&ctx.upload_data(&zeros));
        let mapped = staged(&ctx.run_on_host(&on_device));
        assert_eq!(ctx.read_computed_data(&mapped), Ok(zeros));
    }
}

#[test]
fn round_trip_subgroup() {
    for n in [1usize, 64, 65, 5000] {
        let ctx = SubgroupScanGpuContext::new(n, limits()).ok().unwrap();
        let ones = vec![1u32; n];
        let on_device = device_words(&ctx.upload_data(&ones));
        let mapped = staged(&ctx.run_on_host(&on_device));
        assert_eq!(ctx.read_computed_data(&mapped), Ok((1..=n as u32).collect::<Vec<u32>>()));
    }
}
