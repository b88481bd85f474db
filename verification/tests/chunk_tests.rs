use hematite::chunk::{BlockState, Chunk};
use hematite::light::LightLevel;

#[test]
fn empty_chunk_is_all_air_and_fully_skylit() {
    let c = Chunk::empty();
    for y in 0..16 {
        for z in 0..16 {
            for x in 0..16 {
                assert_eq!(c.block(x, y, z), BlockState::air());
                let l = c.light(x, y, z);
                assert_eq!(l.block_light(), 0);
                assert_eq!(l.sky_light(), 15);
            }
        }
    }
}

#[test]
fn set_block_changes_only_that_cell() {
    let mut c = Chunk::empty();
    c.set_block(1, 2, 3, BlockState { value: 7 });
    assert_eq!(c.block(1, 2, 3), BlockState { value: 7 });
    assert_eq!(c.block(3, 2, 1), BlockState { value: 0 });
    assert_eq!(c.block(1, 2, 4), BlockState { value: 0 });
    assert_eq!(c.light(1, 2, 3).sky_light(), 15);
}

#[test]
fn set_light_changes_only_that_cell() {
    let mut c = Chunk::empty();
    c.set_light(0, 15, 9, LightLevel::new(11, 2));
    assert_eq!(c.light(0, 15, 9).block_light(), 11);
    assert_eq!(c.light(0, 15, 9).sky_light(), 2);
    assert_eq!(c.light(1, 15, 9).sky_light(), 15);
    assert_eq!(c.block(0, 15, 9), BlockState { value: 0 });
}

#[test]
fn duplicate_is_equal_but_independent() {
    let mut a = Chunk::empty();
    a.set_block(5, 6, 7, BlockState { value: 42 });
    let b = a.duplicate();
    assert_eq!(a, b);
    a.set_block(5, 6, 7, BlockState { value: 1 });
    assert_eq!(b.block(5, 6, 7), BlockState { value: 42 });
    assert_eq!(a.block(5, 6, 7), BlockState { value: 1 });
}
