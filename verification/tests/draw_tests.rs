use chip8::ops;
use chip8::type_defs::FrameBuffer;

fn setup(sprite: &[u8]) -> (Vec<u8>, Vec<u8>, FrameBuffer) {
    let mut mem = vec![0u8; 4096];
    for (j, &b) in sprite.iter().enumerate() {
        mem[0x300 + j] = b;
    }
    (mem, vec![0u8; 16], FrameBuffer::new())
}

#[test]
fn drw_sets_pixels_and_reports_no_collision_on_blank_screen() {
    let (mem, mut r, mut fb) = setup(&[0b1000_0001]);
    r[0] = 5;
    r[1] = 3;
    ops::drw(0, 1, 1, &mut r, 0x300, &mem, &mut fb);
    assert_eq!(r[0xF], 0);
    assert!(fb.get(5, 3)); // leftmost bit of the row
    assert!(fb.get(12, 3)); // rightmost bit of the row
    assert!(!fb.get(6, 3));
}

#[test]
fn drw_same_sprite_twice_clears_and_collides() {
    // Drawing the same non-empty sprite twice at the same origin clears
    // every previously-set pixel and raises VF on the second draw.
    let (mem, mut r, mut fb) = setup(&[0xFF, 0x81]);
    r[0] = 5;
    r[1] = 3;
    ops::drw(0, 1, 2, &mut r, 0x300, &mem, &mut fb);
    assert_eq!(r[0xF], 0);
    ops::drw(0, 1, 2, &mut r, 0x300, &mem, &mut fb);
    assert_eq!(r[0xF], 1);
    for x in 0..64 {
        for y in 0..32 {
            assert!(!fb.get(x, y));
        }
    }
}

#[test]
fn drw_non_overlapping_sprites_leave_flag_clear() {
    let (mem, mut r, mut fb) = setup(&[0xFF]);
    r[0] = 0;
    r[1] = 0;
    ops::drw(0, 1, 1, &mut r, 0x300, &mem, &mut fb);
    assert_eq!(r[0xF], 0);
    r[2] = 20;
    r[3] = 20;
    ops::drw(2, 3, 1, &mut r, 0x300, &mem, &mut fb);
    assert_eq!(r[0xF], 0);
    assert!(fb.get(0, 0));
    assert!(fb.get(20, 20));
}

#[test]
fn drw_partial_overlap_erases_only_shared_pixels() {
    let (mem, mut r, mut fb) = setup(&[0b1100_0000]);
    r[0] = 0;
    r[1] = 0;
    ops::drw(0, 1, 1, &mut r, 0x300, &mem, &mut fb);
    // Second sprite one pixel to the right: shares pixel (1,0).
    r[2] = 1;
    r[3] = 0;
    ops::drw(2, 3, 1, &mut r, 0x300, &mem, &mut fb);
    assert_eq!(r[0xF], 1);
    assert!(fb.get(0, 0)); // only first sprite
    assert!(!fb.get(1, 0)); // erased by the overlap
    assert!(fb.get(2, 0)); // only second sprite
}

#[test]
fn drw_wraps_each_coordinate_individually() {
    let (mem, mut r, mut fb) = setup(&[0xFF, 0xFF]);
    r[0] = 60; // bits land on x = 60..63 and wrap to 0..3
    r[1] = 31; // first row at y = 31, second wraps to y = 0
    ops::drw(0, 1, 2, &mut r, 0x300, &mem, &mut fb);
    assert!(fb.get(60, 31));
    assert!(fb.get(63, 31));
    assert!(fb.get(0, 31));
    assert!(fb.get(3, 31));
    assert!(fb.get(60, 0));
    assert!(fb.get(3, 0));
    assert!(!fb.get(4, 31));
    assert!(!fb.get(4, 0));
}

#[test]
fn drw_reads_rows_through_end_of_memory() {
    let mut mem = vec![0u8; 4096];
    mem[0xFFF] = 0x80;
    mem[0x000] = 0x80;
    let mut r = vec![0u8; 16];
    r[0] = 10;
    r[1] = 10;
    let mut fb = FrameBuffer::new();
    ops::drw(0, 1, 2, &mut r, 0xFFF, &mem, &mut fb);
    assert!(fb.get(10, 10));
    assert!(fb.get(10, 11));
}

#[test]
fn drw_zero_rows_draws_nothing() {
    let (mem, mut r, mut fb) = setup(&[0xFF]);
    r[0xF] = 1;
    ops::drw(0, 1, 0, &mut r, 0x300, &mem, &mut fb);
    assert_eq!(r[0xF], 0); // flag is still explicitly reset
    for x in 0..64 {
        for y in 0..32 {
            assert!(!fb.get(x, y));
        }
    }
}
