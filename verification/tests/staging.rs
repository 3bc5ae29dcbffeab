use transfer_core::align::{align_to, get_greatest_common_divisor, get_lowest_common_denom};
use transfer_core::staging::{check_staging_fits, plan_staging, stage_texture_data, StagingLayout};
use transfer_core::types::{Extent3d, FormatDescriptor, ImageDataLayout};

fn rgba8() -> FormatDescriptor {
    FormatDescriptor::describe(wgpu_types::TextureFormat::Rgba8Unorm, true, true)
}

fn data_layout(bytes_per_row: Option<u32>, rows_per_image: Option<u32>) -> ImageDataLayout {
    ImageDataLayout { offset: 0, bytes_per_row, rows_per_image }
}

#[test]
fn gcd_divides_both_and_lcm_times_gcd_is_the_product() {
    for (a, b) in [(12u32, 18u32), (256, 4), (7, 5), (1, 1), (300, 250), (16, 12)] {
        let (hi, lo) = if a >= b { (a, b) } else { (b, a) };
        let gcd = get_greatest_common_divisor(hi, lo);
        assert_eq!(a % gcd, 0);
        assert_eq!(b % gcd, 0);
        let lcm = get_lowest_common_denom(a, b);
        assert_eq!(lcm * gcd, a * b);
        assert_eq!(lcm % a, 0);
        assert_eq!(lcm % b, 0);
    }
    assert_eq!(get_greatest_common_divisor(18, 12), 6);
    assert_eq!(get_lowest_common_denom(12, 18), 36);
    assert_eq!(get_lowest_common_denom(256, 12), 768);
}

#[test]
fn align_to_gives_the_next_multiple() {
    for (value, alignment) in [(0u32, 1u32), (5, 1), (64, 256), (255, 256), (256, 256), (1000, 768)] {
        let aligned = align_to(value, alignment);
        assert_eq!(aligned % alignment, 0);
        assert!(aligned >= value && aligned - value < alignment);
    }
    assert_eq!(align_to(1000, 768), 1536);
    assert_eq!(align_to(u32::MAX - 255, 256), u32::MAX - 255);
}

#[test]
fn staging_rows_are_aligned_to_pitch_and_block() {
    let size = Extent3d { width: 16, height: 16, depth_or_array_layers: 1 };
    let layout = plan_staging(256, rgba8(), &data_layout(Some(64), None), &size);
    assert_eq!(
        layout,
        StagingLayout {
            stage_bytes_per_row: 256,
            bytes_per_row: 64,
            block_rows_per_image: 16,
            height_blocks: 16,
            block_rows_in_copy: 16,
            stage_size: 4096,
        }
    );
    // A block size that does not divide the pitch makes the rows longer.
    let astc = FormatDescriptor::describe(wgpu_types::TextureFormat::Astc5x4RgbaUnorm, true, true);
    let size = Extent3d { width: 10, height: 8, depth_or_array_layers: 3 };
    let layout = plan_staging(24, astc, &data_layout(None, Some(5)), &size);
    assert_eq!(
        layout,
        StagingLayout {
            stage_bytes_per_row: 48,
            bytes_per_row: 32,
            block_rows_per_image: 5,
            height_blocks: 2,
            block_rows_in_copy: 12,
            stage_size: 48 * 12,
        }
    );
}

#[test]
fn staging_that_needs_more_than_32_bits_does_not_fit() {
    let size = Extent3d { width: 16, height: 16, depth_or_array_layers: 1 };
    assert!(check_staging_fits(256, rgba8(), &data_layout(Some(64), None), &size));
    assert!(!check_staging_fits(1 << 31, rgba8(), &data_layout(Some(64), None), &size));
    let wide = Extent3d { width: u32::MAX, height: 1, depth_or_array_layers: 1 };
    assert!(!check_staging_fits(256, rgba8(), &data_layout(None, None), &wide));
    let deep = Extent3d { width: 16, height: 16, depth_or_array_layers: u32::MAX };
    assert!(!check_staging_fits(256, rgba8(), &data_layout(Some(64), Some(16)), &deep));
    let flat = Extent3d { width: 16, height: 16, depth_or_array_layers: 0 };
    assert!(!check_staging_fits(256, rgba8(), &data_layout(Some(64), Some(16)), &flat));
}

#[test]
fn staged_rows_of_layers_skip_the_rows_between_images() {
    // Two images of two rows of 8 bytes, three rows apart, staged 16 apart.
    let layout = StagingLayout {
        stage_bytes_per_row: 16,
        bytes_per_row: 8,
        block_rows_per_image: 3,
        height_blocks: 2,
        block_rows_in_copy: 5,
        stage_size: 80,
    };
    let data: Vec<u8> = (1..=40).collect();
    let contents = stage_texture_data(&data, &layout);
    assert_eq!(contents.len(), 80);
    for row in 0..5usize {
        let staged = &contents[row * 16..(row + 1) * 16];
        if row == 2 {
            assert_eq!(staged, [0u8; 16]);
        } else {
            assert_eq!(staged[..8], data[row * 8..(row + 1) * 8]);
            assert_eq!(staged[8..], [0u8; 8]);
        }
    }
}

#[test]
fn staged_rows_stop_where_the_data_ends() {
    let layout = StagingLayout {
        stage_bytes_per_row: 8,
        bytes_per_row: 8,
        block_rows_per_image: 2,
        height_blocks: 2,
        block_rows_in_copy: 2,
        stage_size: 16,
    };
    let data: Vec<u8> = (1..=12).collect();
    let contents = stage_texture_data(&data, &layout);
    assert_eq!(contents[..12], data[..]);
    assert_eq!(contents[12..], [0u8; 4]);
    // A longer pitch in the data than in the staging buffer cuts the rows.
    let narrow = StagingLayout { stage_bytes_per_row: 4, stage_size: 8, ..layout };
    assert_eq!(stage_texture_data(&data, &narrow), vec![1, 2, 3, 4, 9, 10, 11, 12]);
}
