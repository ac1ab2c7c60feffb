use ambient_led::pi::{frame_bytes, Color, Params};

#[test]
fn handshake_block_is_28_big_endian_bytes() {
    // max_brightness=230, led_count=144, mul=(1.0,1.0,1.0), lerp=0.5,
    // rate=60 must encode to the exact block the peer reads.
    let params = Params {
        max_b: 230,
        num_l: 144,
        mul_r: 1.0f32.to_bits(),
        mul_g: 1.0f32.to_bits(),
        mul_b: 1.0f32.to_bits(),
        lerp: 0.5f32.to_bits(),
        rate: 60,
    };
    let bytes = params.to_be_bytes();
    let expected: Vec<u8> = vec![
        0x00, 0x00, 0x00, 0xE6, // 230
        0x00, 0x00, 0x00, 0x90, // 144
        0x3F, 0x80, 0x00, 0x00, // 1.0
        0x3F, 0x80, 0x00, 0x00, // 1.0
        0x3F, 0x80, 0x00, 0x00, // 1.0
        0x3F, 0x00, 0x00, 0x00, // 0.5
        0x00, 0x00, 0x00, 0x3C, // 60
    ];
    assert_eq!(bytes, expected);
    assert_eq!(bytes.len(), 28);
}

#[test]
fn frame_stream_is_rgb_triplets_in_order() {
    let colors = vec![Color { r: 1, g: 2, b: 3 }, Color { r: 4, g: 5, b: 6 }];
    assert_eq!(frame_bytes(&colors), vec![1, 2, 3, 4, 5, 6]);
}

#[test]
fn empty_frame_is_empty() {
    assert_eq!(frame_bytes(&vec![]), Vec::<u8>::new());
}

#[test]
fn default_color_is_black() {
    let c = Color::default();
    assert_eq!((c.r, c.g, c.b), (0, 0, 0));
}
