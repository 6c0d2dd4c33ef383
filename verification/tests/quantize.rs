use mplusfonts::compile::quantize::{downsample, quantize};

#[test]
fn downsample_255_to_4bpp() {
    let result = downsample(255, 17);
    assert_eq!(result, 15);
}

#[test]
fn downsample_128_to_4bpp() {
    let result = downsample(128, 17);
    assert_eq!(result, 8);
}

#[test]
fn downsample_127_to_4bpp() {
    let result = downsample(127, 17);
    assert_eq!(result, 7);
}

#[test]
fn downsample_64_to_4bpp() {
    let result = downsample(64, 17);
    assert_eq!(result, 4);
}

#[test]
fn downsample_32_to_4bpp() {
    let result = downsample(32, 17);
    assert_eq!(result, 2);
}

#[test]
fn downsample_16_to_4bpp() {
    let result = downsample(16, 17);
    assert_eq!(result, 1);
}

#[test]
fn downsample_8_to_4bpp() {
    let result = downsample(8, 17);
    assert_eq!(result, 0);
}

#[test]
fn downsample_0_to_4bpp() {
    let result = downsample(0, 17);
    assert_eq!(result, 0);
}

#[test]
fn downsample_255_to_2bpp() {
    let result = downsample(255, 85);
    assert_eq!(result, 3);
}

#[test]
fn downsample_128_to_2bpp() {
    let result = downsample(128, 85);
    assert_eq!(result, 2);
}

#[test]
fn downsample_127_to_2bpp() {
    let result = downsample(127, 85);
    assert_eq!(result, 1);
}

#[test]
fn downsample_0_to_2bpp() {
    let result = downsample(0, 85);
    assert_eq!(result, 0);
}

#[test]
fn downsample_255_to_1bpp() {
    let result = downsample(255, 255);
    assert_eq!(result, 1);
}

#[test]
fn downsample_128_to_1bpp() {
    let result = downsample(128, 255);
    assert_eq!(result, 1);
}

#[test]
fn downsample_127_to_1bpp() {
    let result = downsample(127, 255);
    assert_eq!(result, 0);
}

#[test]
fn downsample_0_to_1bpp() {
    let result = downsample(0, 255);
    assert_eq!(result, 0);
}

#[test]
fn downsample_255_no_resample() {
    let result = downsample(255, 1);
    assert_eq!(result, 255);
}

#[test]
fn downsample_255_upsample() {
    let result = downsample(255, 0);
    assert_eq!(result, 255);
}

#[test]
fn quantize_depth_8_is_identity() {
    let image = [0u8, 17, 128, 255, 3, 9];
    assert_eq!(quantize(&image, 3, 8), image.to_vec());
}

#[test]
fn quantize_depth_4_packs_two_pixels_per_byte() {
    let image = [255u8, 0, 128, 127, 16, 8];
    assert_eq!(quantize(&image, 2, 4), vec![0xF0, 0x87, 0x10]);
}

#[test]
fn quantize_depth_4_pads_odd_rows() {
    let image = [255u8, 0, 128, 127, 16, 8];
    assert_eq!(quantize(&image, 3, 4), vec![0xF0, 0x80, 0x71, 0x00]);
}

#[test]
fn quantize_depth_2_packs_four_pixels_per_byte() {
    let image = [255u8, 128, 127, 0, 255];
    assert_eq!(quantize(&image, 5, 2), vec![0b11_10_01_00, 0b11_00_00_00]);
}

#[test]
fn quantize_depth_1_packs_eight_pixels_per_byte() {
    let image = [255u8, 128, 127, 0, 255, 255, 0, 0, 200, 100];
    assert_eq!(quantize(&image, 10, 1), vec![0b1100_1100, 0b1000_0000]);
}

#[test]
fn quantize_depth_1_rows_start_on_byte_boundaries() {
    let image = [255u8, 0, 255, 0, 255, 255];
    assert_eq!(quantize(&image, 3, 1), vec![0b1010_0000, 0b0110_0000]);
}

#[test]
fn quantize_empty_image() {
    let image: [u8; 0] = [];
    assert_eq!(quantize(&image, 4, 2), Vec::<u8>::new());
}

#[test]
fn quantize_is_monotonic_and_reaches_both_ends() {
    for (depth, max) in [(1u8, 1u8), (2, 3), (4, 15), (8, 255)] {
        let shift = 8 - depth;
        let mut last = 0u8;
        for v in 0..=255u8 {
            let level = quantize(&[v], 1, depth)[0] >> shift;
            assert!(level >= last);
            last = level;
        }
        assert_eq!(quantize(&[0], 1, depth)[0] >> shift, 0);
        assert_eq!(quantize(&[255], 1, depth)[0] >> shift, max);
    }
}
