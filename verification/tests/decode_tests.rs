use chip8::decode::get_op_code;
use chip8::type_defs::Chip8Error;

fn memory_with_word(hi: u8, lo: u8) -> Vec<u8> {
    let mut mem = vec![0u8; 4096];
    mem[0x200] = hi;
    mem[0x201] = lo;
    mem
}

#[test]
fn decode_ld_immediate() {
    // Word 0x6A0F: x = 0xA, immediate = 0x0F, LD Vx,kk.
    let mem = memory_with_word(0x6A, 0x0F);
    let op = get_op_code(&mem, 0x200).unwrap();
    assert_eq!(op.code, 0x6);
    assert_eq!(op.x, Some(0xA));
    assert_eq!(op.y, Some(0x0F));
    assert_eq!(op.variant, None);
}

#[test]
fn decode_address_group() {
    let mem = memory_with_word(0x2A, 0xBC);
    let op = get_op_code(&mem, 0x200).unwrap();
    assert_eq!(op.code, 0x2);
    assert_eq!(op.x, Some(0xABC));
    assert_eq!(op.y, None);
    assert_eq!(op.variant, None);
}

#[test]
fn decode_register_pair_group() {
    let mem = memory_with_word(0x8A, 0xB4);
    let op = get_op_code(&mem, 0x200).unwrap();
    assert_eq!(op.code, 0x8);
    assert_eq!(op.x, Some(0xA));
    assert_eq!(op.y, Some(0xB));
    assert_eq!(op.variant, Some(0x4));
}

#[test]
fn decode_draw_group() {
    let mem = memory_with_word(0xD1, 0x25);
    let op = get_op_code(&mem, 0x200).unwrap();
    assert_eq!(op.code, 0xD);
    assert_eq!(op.x, Some(0x1));
    assert_eq!(op.y, Some(0x2));
    assert_eq!(op.variant, Some(0x5));
}

#[test]
fn decode_key_and_misc_groups() {
    let mem = memory_with_word(0xE3, 0x9E);
    let op = get_op_code(&mem, 0x200).unwrap();
    assert_eq!(op.code, 0xE);
    assert_eq!(op.x, Some(0x3));
    assert_eq!(op.variant, Some(0x9E));

    let mem = memory_with_word(0xF7, 0x33);
    let op = get_op_code(&mem, 0x200).unwrap();
    assert_eq!(op.code, 0xF);
    assert_eq!(op.x, Some(0x7));
    assert_eq!(op.variant, Some(0x33));
}

#[test]
fn decode_rejects_unknown_variants() {
    // 0x8xyF: no such arithmetic variant.
    let mem = memory_with_word(0x80, 0x0F);
    assert_eq!(
        get_op_code(&mem, 0x200),
        Err(Chip8Error::UnknownInstruction { pc: 0x200, word: 0x800F })
    );
    // 0x5xy1 and 0x9xy2: the compare groups only take variant 0.
    assert!(get_op_code(&memory_with_word(0x51, 0x21), 0x200).is_err());
    assert!(get_op_code(&memory_with_word(0x91, 0x22), 0x200).is_err());
    // 0x0000 is not CLS or RET.
    assert!(get_op_code(&memory_with_word(0x00, 0x00), 0x200).is_err());
    // 0xEx with a variant other than 9E/A1.
    assert!(get_op_code(&memory_with_word(0xE1, 0x9F), 0x200).is_err());
    // 0xFx with an unused variant.
    assert!(get_op_code(&memory_with_word(0xF1, 0x99), 0x200).is_err());
}

#[test]
fn decode_reads_big_endian_word_at_pc() {
    let mut mem = vec![0u8; 4096];
    mem[0x300] = 0x1F;
    mem[0x301] = 0xFE;
    let op = get_op_code(&mem, 0x300).unwrap();
    assert_eq!(op.code, 0x1);
    assert_eq!(op.x, Some(0xFFE));
}
