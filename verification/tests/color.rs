use mplusfonts::color::{convert_channel, screen_mix_channel};

#[test]
fn convert_8bpp_255_to_0_255() {
    let result = convert_channel::<256>(255, 0, 255);
    assert_eq!(result, 255);
}

#[test]
fn convert_8bpp_255_to_0_128() {
    let result = convert_channel::<256>(255, 0, 128);
    assert_eq!(result, 128);
}

#[test]
fn convert_8bpp_128_to_0_128() {
    let result = convert_channel::<256>(128, 0, 128);
    assert_eq!(result, 64);
}

#[test]
fn convert_8bpp_128_to_0_64() {
    let result = convert_channel::<256>(128, 0, 64);
    assert_eq!(result, 32);
}

#[test]
fn convert_8bpp_64_to_0_64() {
    let result = convert_channel::<256>(64, 0, 64);
    assert_eq!(result, 16);
}

#[test]
fn convert_8bpp_255_to_255_0() {
    let result = convert_channel::<256>(255, 255, 0);
    assert_eq!(result, 0);
}

#[test]
fn convert_8bpp_255_to_255_128() {
    let result = convert_channel::<256>(255, 255, 128);
    assert_eq!(result, 128);
}

#[test]
fn convert_8bpp_128_to_255_128() {
    let result = convert_channel::<256>(128, 255, 128);
    assert_eq!(result, 255 - 128 / 2);
}

#[test]
fn convert_8bpp_128_to_255_64() {
    let result = convert_channel::<256>(128, 255, 64);
    assert_eq!(result, 255 - 128 / 4 * 3);
}

#[test]
fn convert_8bpp_64_to_255_64() {
    let result = convert_channel::<256>(64, 255, 64);
    assert_eq!(result, 255 - 64 / 4 * 3);
}

#[test]
fn convert_5bpp_31_to_0_255() {
    let result = convert_channel::<32>(31, 0, 255);
    assert_eq!(result, 255);
}

#[test]
fn convert_4bpp_15_to_0_255() {
    let result = convert_channel::<16>(15, 0, 255);
    assert_eq!(result, 255);
}

#[test]
fn convert_3bpp_7_to_0_255() {
    let result = convert_channel::<8>(7, 0, 255);
    assert_eq!(result, 255);
}

#[test]
fn convert_2bpp_3_to_0_255() {
    let result = convert_channel::<4>(3, 0, 255);
    assert_eq!(result, 255);
}

#[test]
fn convert_1bpp_1_to_0_255() {
    let result = convert_channel::<2>(1, 0, 255);
    assert_eq!(result, 255);
}

#[test]
fn screen_mix_channel_255_255_on_0_255() {
    let result = screen_mix_channel(255, 255, 0, 255);
    assert_eq!(result, 255);
}

#[test]
fn screen_mix_channel_128_128_on_0_255() {
    let result = screen_mix_channel(128, 128, 0, 255);
    assert_eq!(result, 128 + 128 / 2);
}

#[test]
fn screen_mix_channel_64_64_on_0_255() {
    let result = screen_mix_channel(64, 64, 0, 255);
    assert_eq!(result, 64 + 64 / 4 * 3);
}

#[test]
fn screen_mix_channel_32_32_on_0_255() {
    let result = screen_mix_channel(32, 32, 0, 255);
    assert_eq!(result, 32 + 32 / 8 * 7);
}

#[test]
fn screen_mix_channel_0_0_on_0_255() {
    let result = screen_mix_channel(0, 0, 0, 255);
    assert_eq!(result, 0);
}

#[test]
fn screen_mix_channel_255_255_on_255_0() {
    let result = screen_mix_channel(255, 255, 255, 0);
    assert_eq!(result, 255);
}

#[test]
fn screen_mix_channel_224_224_on_255_0() {
    let result = screen_mix_channel(224, 224, 255, 0);
    assert_eq!(result, 224 - 224 / 8);
}

#[test]
fn screen_mix_channel_192_192_on_255_0() {
    let result = screen_mix_channel(192, 192, 255, 0);
    assert_eq!(result, 192 - 192 / 4);
}

#[test]
fn screen_mix_channel_128_128_on_255_0() {
    let result = screen_mix_channel(128, 128, 255, 0);
    assert_eq!(result, 128 - 128 / 2);
}

#[test]
fn screen_mix_channel_0_0_on_255_0() {
    let result = screen_mix_channel(0, 0, 255, 0);
    assert_eq!(result, 0);
}

#[test]
fn screen_mix_channel_255_0_on_0_255() {
    let result = screen_mix_channel(255, 0, 0, 255);
    assert_eq!(result, 255);
}

#[test]
fn screen_mix_channel_128_64_on_0_255() {
    let result = screen_mix_channel(128, 64, 0, 255);
    assert_eq!(result, 128 + 64 / 2);
}

#[test]
fn screen_mix_channel_128_32_on_0_255() {
    let result = screen_mix_channel(128, 32, 0, 255);
    assert_eq!(result, 128 + 32 / 2);
}

#[test]
fn screen_mix_channel_64_128_on_0_255() {
    let result = screen_mix_channel(64, 128, 0, 255);
    assert_eq!(result, 64 + 128 / 4 * 3);
}

#[test]
fn screen_mix_channel_32_128_on_0_255() {
    let result = screen_mix_channel(32, 128, 0, 255);
    assert_eq!(result, 32 + 128 / 8 * 7);
}

#[test]
fn screen_mix_channel_255_0_on_255_0() {
    let result = screen_mix_channel(255, 0, 255, 0);
    assert_eq!(result, 0);
}

#[test]
fn screen_mix_channel_224_192_on_255_0() {
    let result = screen_mix_channel(224, 192, 255, 0);
    assert_eq!(result, 224 / 4 * 3);
}

#[test]
fn screen_mix_channel_224_128_on_255_0() {
    let result = screen_mix_channel(224, 128, 255, 0);
    assert_eq!(result, 224 / 2);
}

#[test]
fn screen_mix_channel_192_224_on_255_0() {
    let result = screen_mix_channel(192, 224, 255, 0);
    assert_eq!(result, 192 / 8 * 7);
}

#[test]
fn screen_mix_channel_128_224_on_255_0() {
    let result = screen_mix_channel(128, 224, 255, 0);
    assert_eq!(result, 128 / 8 * 7);
}

#[test]
fn screen_mix_channel_128_128_on_0_128() {
    let result = screen_mix_channel(128, 128, 0, 128);
    assert_eq!(result, 128);
}

#[test]
fn screen_mix_channel_64_64_on_0_128() {
    let result = screen_mix_channel(64, 64, 0, 128);
    assert_eq!(result, 64 + 64 / 2);
}

#[test]
fn screen_mix_channel_64_64_on_0_64() {
    let result = screen_mix_channel(64, 64, 0, 64);
    assert_eq!(result, 64);
}

#[test]
fn screen_mix_channel_32_32_on_0_64() {
    let result = screen_mix_channel(32, 32, 0, 64);
    assert_eq!(result, 32 + 32 / 2);
}

#[test]
fn screen_mix_channel_32_32_on_0_32() {
    let result = screen_mix_channel(32, 32, 0, 32);
    assert_eq!(result, 32);
}

#[test]
fn screen_mix_channel_128_128_on_128_0() {
    let result = screen_mix_channel(128, 128, 128, 0);
    assert_eq!(result, 128);
}

#[test]
fn screen_mix_channel_128_64_on_128_0() {
    let result = screen_mix_channel(128, 64, 128, 0);
    assert_eq!(result, 64);
}

#[test]
fn screen_mix_channel_128_32_on_128_0() {
    let result = screen_mix_channel(128, 32, 128, 0);
    assert_eq!(result, 32);
}

#[test]
fn screen_mix_channel_64_128_on_128_0() {
    let result = screen_mix_channel(64, 128, 128, 0);
    assert_eq!(result, 64);
}

#[test]
fn screen_mix_channel_32_128_on_128_0() {
    let result = screen_mix_channel(32, 128, 128, 0);
    assert_eq!(result, 32);
}

#[test]
fn screen_mix_channel_255_255_on_255_255() {
    let result = screen_mix_channel(255, 255, 255, 255);
    assert_eq!(result, 255);
}

#[test]
fn screen_mix_channel_255_255_on_128_128() {
    let result = screen_mix_channel(255, 255, 128, 128);
    assert_eq!(result, 128);
}

#[test]
fn screen_mix_channel_128_128_on_128_128() {
    let result = screen_mix_channel(128, 128, 128, 128);
    assert_eq!(result, 128);
}

#[test]
fn screen_mix_channel_0_0_on_128_128() {
    let result = screen_mix_channel(0, 0, 128, 128);
    assert_eq!(result, 128);
}

#[test]
fn screen_mix_channel_0_0_on_0_0() {
    let result = screen_mix_channel(0, 0, 0, 0);
    assert_eq!(result, 0);
}

