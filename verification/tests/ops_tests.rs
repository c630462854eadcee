use chip8::ops;
use chip8::type_defs::{FrameBuffer, NextPc};

fn regs() -> Vec<u8> {
    vec![0u8; 16]
}

#[test]
fn add_regs_overflow_sets_carry() {
    // Vx=0xFF, Vy=0x01: Vx wraps to 0x00 and VF=1.
    let mut r = regs();
    r[0] = 0xFF;
    r[1] = 0x01;
    ops::add_regs(0, 1, &mut r);
    assert_eq!(r[0], 0x00);
    assert_eq!(r[0xF], 1);
}

#[test]
fn add_regs_without_carry_clears_flag() {
    let mut r = regs();
    r[0] = 0x10;
    r[1] = 0x20;
    r[0xF] = 1;
    ops::add_regs(0, 1, &mut r);
    assert_eq!(r[0], 0x30);
    assert_eq!(r[0xF], 0);
}

#[test]
fn sub_regs_borrow_clears_flag() {
    // Vx=0x01, Vy=0x02: Vx wraps to 0xFF and VF=0 (borrow).
    let mut r = regs();
    r[0] = 0x01;
    r[1] = 0x02;
    ops::sub_regs(0, 1, &mut r);
    assert_eq!(r[0], 0xFF);
    assert_eq!(r[0xF], 0);
}

#[test]
fn sub_regs_no_borrow_sets_flag() {
    let mut r = regs();
    r[0] = 0x05;
    r[1] = 0x02;
    ops::sub_regs(0, 1, &mut r);
    assert_eq!(r[0], 0x03);
    assert_eq!(r[0xF], 1);
}

#[test]
fn subn_regs_subtracts_the_other_way() {
    let mut r = regs();
    r[0] = 0x02;
    r[1] = 0x05;
    ops::subn_regs(0, 1, &mut r);
    assert_eq!(r[0], 0x03);
    assert_eq!(r[0xF], 1);
    let mut r = regs();
    r[0] = 0x05;
    r[1] = 0x02;
    ops::subn_regs(0, 1, &mut r);
    assert_eq!(r[0], 0xFD);
    assert_eq!(r[0xF], 0);
}

#[test]
fn shr_stores_low_bit_in_flag() {
    // Vx=0b11: Vx becomes 0b1 and VF=1.
    let mut r = regs();
    r[2] = 0b0000_0011;
    ops::shr(2, &mut r);
    assert_eq!(r[2], 0b0000_0001);
    assert_eq!(r[0xF], 1);
    let mut r = regs();
    r[2] = 0b0000_0100;
    ops::shr(2, &mut r);
    assert_eq!(r[2], 0b0000_0010);
    assert_eq!(r[0xF], 0);
}

#[test]
fn shl_stores_high_bit_in_flag_normalized() {
    let mut r = regs();
    r[3] = 0x81;
    ops::shl(3, &mut r);
    assert_eq!(r[3], 0x02);
    assert_eq!(r[0xF], 1);
    let mut r = regs();
    r[3] = 0x41;
    ops::shl(3, &mut r);
    assert_eq!(r[3], 0x82);
    assert_eq!(r[0xF], 0);
}

#[test]
fn add_immediate_wraps_without_flag() {
    let mut r = regs();
    r[4] = 0xFF;
    r[0xF] = 0;
    ops::add(4, 0x10, &mut r);
    assert_eq!(r[4], 0x0F);
    assert_eq!(r[0xF], 0);
}

#[test]
fn bitwise_ops() {
    let mut r = regs();
    r[0] = 0b1100;
    r[1] = 0b1010;
    ops::or(0, 1, &mut r);
    assert_eq!(r[0], 0b1110);
    r[0] = 0b1100;
    ops::and(0, 1, &mut r);
    assert_eq!(r[0], 0b1000);
    r[0] = 0b1100;
    ops::xor(0, 1, &mut r);
    assert_eq!(r[0], 0b0110);
}

#[test]
fn skip_ops_return_explicit_next_pc() {
    let mut r = regs();
    r[0] = 7;
    r[1] = 7;
    r[2] = 9;
    assert_eq!(ops::se(0, 7, &r, 0x200), NextPc::SetTo(0x204));
    assert_eq!(ops::se(0, 8, &r, 0x200), NextPc::Advance);
    assert_eq!(ops::sne(0, 8, &r, 0x200), NextPc::SetTo(0x204));
    assert_eq!(ops::sne(0, 7, &r, 0x200), NextPc::Advance);
    assert_eq!(ops::se_regs(0, 1, &r, 0x200), NextPc::SetTo(0x204));
    assert_eq!(ops::se_regs(0, 2, &r, 0x200), NextPc::Advance);
    assert_eq!(ops::sne_regs(0, 2, &r, 0x200), NextPc::SetTo(0x204));
    assert_eq!(ops::sne_regs(0, 1, &r, 0x200), NextPc::Advance);
}

#[test]
fn skip_targets_wrap_around_memory() {
    let r = regs();
    assert_eq!(ops::se(0, 0, &r, 0xFFE), NextPc::SetTo(0x002));
}

#[test]
fn key_skips_treat_no_key_as_not_pressed() {
    let mut r = regs();
    r[5] = 0xA;
    assert_eq!(ops::skp(5, Some(0xA), &r, 0x200), NextPc::SetTo(0x204));
    assert_eq!(ops::skp(5, Some(0xB), &r, 0x200), NextPc::Advance);
    assert_eq!(ops::skp(5, None, &r, 0x200), NextPc::Advance);
    assert_eq!(ops::sknp(5, Some(0xB), &r, 0x200), NextPc::SetTo(0x204));
    assert_eq!(ops::sknp(5, Some(0xA), &r, 0x200), NextPc::Advance);
    assert_eq!(ops::sknp(5, None, &r, 0x200), NextPc::SetTo(0x204));
}

#[test]
fn jumps_return_their_targets() {
    let mut r = regs();
    r[0] = 0x10;
    assert_eq!(ops::jp_addr(0x345), NextPc::SetTo(0x345));
    assert_eq!(ops::jp_v0(0x300, &r), NextPc::SetTo(0x310));
    // V0 + addr wraps into memory.
    r[0] = 0xFF;
    assert_eq!(ops::jp_v0(0xFFF, &r), NextPc::SetTo(0x0FE));
}

#[test]
fn rnd_with_masks_the_byte() {
    let mut r = regs();
    ops::rnd_with(0, 0x0F, 0xAB, &mut r);
    assert_eq!(r[0], 0x0B);
    ops::rnd_with(1, 0x00, 0xFF, &mut r);
    assert_eq!(r[1], 0x00);
}

#[test]
fn rnd_result_is_masked() {
    // Runs the real generator: whatever byte it returns, the mask holds.
    for _ in 0..32 {
        let mut r = regs();
        ops::rnd(0, 0x0F, &mut r);
        assert!(r[0] <= 0x0F);
        ops::rnd(1, 0x00, &mut r);
        assert_eq!(r[1], 0);
    }
}

#[test]
fn ld_bcd_stores_decimal_digits() {
    let mut mem = vec![0u8; 4096];
    let mut r = regs();
    r[3] = 234;
    ops::ld_bcd(3, &r, 0x400, &mut mem);
    assert_eq!(mem[0x400], 2);
    assert_eq!(mem[0x401], 3);
    assert_eq!(mem[0x402], 4);
}

#[test]
fn ld_bcd_wraps_addresses() {
    let mut mem = vec![0u8; 4096];
    let mut r = regs();
    r[0] = 105;
    ops::ld_bcd(0, &r, 0xFFF, &mut mem);
    assert_eq!(mem[0xFFF], 1);
    assert_eq!(mem[0x000], 0);
    assert_eq!(mem[0x001], 5);
}

#[test]
fn block_store_then_load_round_trips() {
    let mut mem = vec![0u8; 4096];
    let mut r = regs();
    r[0] = 11;
    r[1] = 22;
    r[2] = 33;
    r[3] = 44;
    ops::ld_regs_to_mem(3, &r, 0x500, &mut mem);
    assert_eq!(&mem[0x500..0x504], &[11, 22, 33, 44]);
    // V4 was not stored.
    assert_eq!(mem[0x504], 0);
    let mut r2 = regs();
    r2[4] = 99;
    ops::ld_x_regs(3, &mut r2, 0x500, &mem);
    assert_eq!(&r2[0..4], &[11, 22, 33, 44]);
    // V4 is untouched by a load up to V3.
    assert_eq!(r2[4], 99);
}

#[test]
fn ld_sprite_points_at_glyph() {
    let mut r = regs();
    r[4] = 0xA;
    let mut index: u16 = 0;
    ops::ld_sprite(4, &r, &mut index);
    assert_eq!(index, 50);
}

#[test]
fn add_reg_index_wraps_at_16_bits() {
    let mut r = regs();
    r[0] = 0xFF;
    let mut index: u16 = 0xFFFF;
    ops::add_reg_index(0, &mut index, &r);
    assert_eq!(index, 0x00FE);
}

#[test]
fn timers_and_simple_loads() {
    let mut r = regs();
    ops::ld(6, 0x42, &mut r);
    assert_eq!(r[6], 0x42);
    ops::ld_regs(7, 6, &mut r);
    assert_eq!(r[7], 0x42);
    let mut delay: u8 = 0;
    ops::ld_reg_to_delay(6, &mut delay, &r);
    assert_eq!(delay, 0x42);
    let mut sound: u8 = 0;
    ops::ld_reg_to_sound(7, &mut sound, &r);
    assert_eq!(sound, 0x42);
    ops::ld_delay_to_reg(8, delay, &mut r);
    assert_eq!(r[8], 0x42);
}

#[test]
fn ld_key_records_wait_state() {
    let mut waiting = false;
    let mut target: usize = 0;
    ops::ld_key(0xB, &mut waiting, &mut target);
    assert!(waiting);
    assert_eq!(target, 0xB);
}

#[test]
fn cls_clears_every_pixel() {
    let mut fb = FrameBuffer::new();
    fb.set(10, 20, true);
    fb.set(0, 0, true);
    ops::cls(&mut fb);
    for x in 0..64 {
        for y in 0..32 {
            assert!(!fb.get(x, y));
        }
    }
}
