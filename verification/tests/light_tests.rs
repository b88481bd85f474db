use hematite::light::LightLevel;

#[test]
fn round_trip_all_pairs() {
    for block in 0u8..16 {
        for sky in 0u8..16 {
            let l = LightLevel::new(block, sky);
            assert_eq!(l.block_light(), block);
            assert_eq!(l.sky_light(), sky);
        }
    }
}

#[test]
fn channels_decode_by_mask_and_shift() {
    let l = LightLevel { value: 0xf0 };
    assert_eq!(l.block_light(), 0);
    assert_eq!(l.sky_light(), 15);
    let l = LightLevel { value: 0x0f };
    assert_eq!(l.block_light(), 15);
    assert_eq!(l.sky_light(), 0);
    let l = LightLevel { value: 0x4a };
    assert_eq!(l.block_light(), 0x0a);
    assert_eq!(l.sky_light(), 4);
}

#[test]
fn wide_channels_alias_under_the_mask() {
    // 19 = 16 + 3: the block channel keeps only its low four bits.
    let l = LightLevel::new(19, 3);
    assert_eq!(l, LightLevel::new(3, 3));
    assert_eq!(l.block_light(), 3);
    assert_eq!(l.sky_light(), 3);
}
