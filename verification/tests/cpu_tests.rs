use chip8::cpu::Cpu;
use chip8::type_defs::Chip8Error;

fn cpu_with(program: &[u8]) -> Cpu {
    let mut cpu = Cpu::new();
    cpu.load_rom(&program.to_vec());
    cpu
}

#[test]
fn new_machine_seeds_glyphs_and_starts_at_0x200() {
    let cpu = Cpu::new();
    assert_eq!(cpu.get_program_counter(), 0x200);
    assert_eq!(cpu.get_index_register(), 0);
    // Glyph 0 starts with 0xF0, glyph 1 with 0x20, glyph F ends with 0x80.
    assert_eq!(cpu.get_memory(0), 0xF0);
    assert_eq!(cpu.get_memory(5), 0x20);
    assert_eq!(cpu.get_memory(79), 0x80);
    assert_eq!(cpu.get_memory(80), 0x00);
    for i in 0..16 {
        assert_eq!(cpu.get_register(i), 0);
    }
    assert!(cpu.is_delay_timer_zero());
    assert!(cpu.is_sound_timer_zero());
    assert!(!cpu.is_waiting_for_key());
}

#[test]
fn load_rom_copies_from_0x200_and_leaves_the_rest() {
    let mut cpu = Cpu::new();
    let loaded = cpu.load_rom(&vec![0xAA, 0xBB]);
    assert_eq!(loaded, 2);
    assert_eq!(cpu.get_memory(0x200), 0xAA);
    assert_eq!(cpu.get_memory(0x201), 0xBB);
    assert_eq!(cpu.get_memory(0x202), 0x00);
}

#[test]
fn load_rom_truncates_at_end_of_memory() {
    let mut cpu = Cpu::new();
    let loaded = cpu.load_rom(&vec![7u8; 4000]);
    assert_eq!(loaded, 3584);
    assert_eq!(cpu.get_memory(0xFFF), 7);
    // The glyph area is untouched.
    assert_eq!(cpu.get_memory(0), 0xF0);
}

#[test]
fn call_then_ret_round_trips_the_program_counter() {
    // CALL 0x300 at 0x200; RET at 0x300.
    let mut program = vec![0u8; 0x102];
    program[0] = 0x23;
    program[1] = 0x00;
    program[0x100] = 0x00;
    program[0x101] = 0xEE;
    let mut cpu = cpu_with(&program);
    cpu.tick(None).unwrap();
    assert_eq!(cpu.get_program_counter(), 0x300);
    cpu.tick(None).unwrap();
    assert_eq!(cpu.get_program_counter(), 0x202);
}

#[test]
fn tick_runs_immediate_arithmetic() {
    // LD V0,0xFF; ADD V0,0x01 (immediate add wraps, no flag).
    let mut cpu = cpu_with(&[0x60, 0xFF, 0x70, 0x01]);
    cpu.tick(None).unwrap();
    assert_eq!(cpu.get_register(0), 0xFF);
    assert_eq!(cpu.get_program_counter(), 0x202);
    cpu.tick(None).unwrap();
    assert_eq!(cpu.get_register(0), 0x00);
    assert_eq!(cpu.get_register(0xF), 0);
    assert_eq!(cpu.get_program_counter(), 0x204);
}

#[test]
fn tick_add_regs_sets_carry_flag() {
    // LD V0,0xFF; LD V1,0x01; ADD V0,V1.
    let mut cpu = cpu_with(&[0x60, 0xFF, 0x61, 0x01, 0x80, 0x14]);
    cpu.tick(None).unwrap();
    cpu.tick(None).unwrap();
    cpu.tick(None).unwrap();
    assert_eq!(cpu.get_register(0), 0x00);
    assert_eq!(cpu.get_register(0xF), 1);
}

#[test]
fn tick_skip_instructions_step_over() {
    // LD V0,7; SE V0,7 skips the next instruction; LD V1,1 is skipped;
    // LD V2,2 runs.
    let mut cpu = cpu_with(&[0x60, 0x07, 0x30, 0x07, 0x61, 0x01, 0x62, 0x02]);
    cpu.tick(None).unwrap();
    cpu.tick(None).unwrap();
    assert_eq!(cpu.get_program_counter(), 0x206);
    cpu.tick(None).unwrap();
    assert_eq!(cpu.get_register(1), 0);
    assert_eq!(cpu.get_register(2), 2);
}

#[test]
fn tick_jump_sets_pc_directly() {
    let mut cpu = cpu_with(&[0x12, 0x34]);
    cpu.tick(None).unwrap();
    assert_eq!(cpu.get_program_counter(), 0x234);
}

#[test]
fn tick_reports_unknown_instruction_with_pc_and_word() {
    let mut cpu = cpu_with(&[0x80, 0x0F]);
    let err = cpu.tick(None).unwrap_err();
    assert_eq!(err, Chip8Error::UnknownInstruction { pc: 0x200, word: 0x800F });
    // The failing step changed nothing.
    assert_eq!(cpu.get_program_counter(), 0x200);
}

#[test]
fn tick_ret_on_empty_stack_underflows() {
    let mut cpu = cpu_with(&[0x00, 0xEE]);
    assert_eq!(cpu.tick(None), Err(Chip8Error::StackUnderflow));
    assert_eq!(cpu.get_program_counter(), 0x200);
}

#[test]
fn tick_call_overflows_after_stack_capacity() {
    // CALL 0x200 repeatedly: the 33rd call finds the stack full.
    let mut cpu = cpu_with(&[0x22, 0x00]);
    for _ in 0..32 {
        cpu.tick(None).unwrap();
        assert_eq!(cpu.get_program_counter(), 0x200);
    }
    assert_eq!(cpu.tick(None), Err(Chip8Error::StackOverflow));
    assert_eq!(cpu.get_program_counter(), 0x200);
}

#[test]
fn wait_for_key_suspends_until_a_key_arrives() {
    // LD V5,K at 0x200, then CLS at 0x202.
    let mut cpu = cpu_with(&[0xF5, 0x0A, 0x00, 0xE0]);
    cpu.tick(None).unwrap();
    assert!(cpu.is_waiting_for_key());
    assert_eq!(cpu.get_program_counter(), 0x202);
    // Keyless steps change nothing: no PC change, no register writes.
    for _ in 0..3 {
        cpu.tick(None).unwrap();
        assert_eq!(cpu.get_program_counter(), 0x202);
        for i in 0..16 {
            assert_eq!(cpu.get_register(i), 0);
        }
        assert!(cpu.is_waiting_for_key());
    }
    // The first keyed step commits the key and only the key.
    cpu.tick(Some(0x7)).unwrap();
    assert_eq!(cpu.get_register(5), 0x7);
    assert!(!cpu.is_waiting_for_key());
    assert_eq!(cpu.get_program_counter(), 0x202);
    // Normal stepping resumes on the following step.
    cpu.tick(None).unwrap();
    assert_eq!(cpu.get_program_counter(), 0x204);
}

#[test]
fn key_skip_instructions_consult_the_supplied_key() {
    // LD V0,0xA; SKP V0.
    let mut cpu = cpu_with(&[0x60, 0x0A, 0xE0, 0x9E]);
    cpu.tick(None).unwrap();
    cpu.tick(Some(0xA)).unwrap();
    assert_eq!(cpu.get_program_counter(), 0x206);

    // SKNP V0 with no key skips: no key counts as "not pressed".
    let mut cpu = cpu_with(&[0x60, 0x0A, 0xE0, 0xA1]);
    cpu.tick(None).unwrap();
    cpu.tick(None).unwrap();
    assert_eq!(cpu.get_program_counter(), 0x206);
}

#[test]
fn timers_tick_down_to_zero_and_stay_there() {
    // LD V0,5; LD DT,V0; LD ST,V0.
    let mut cpu = cpu_with(&[0x60, 0x05, 0xF0, 0x15, 0xF0, 0x18]);
    cpu.tick(None).unwrap();
    cpu.tick(None).unwrap();
    cpu.tick(None).unwrap();
    assert_eq!(cpu.get_delay_timer(), 5);
    assert_eq!(cpu.get_sound_timer(), 5);
    cpu.tick_timers();
    cpu.tick_timers();
    assert_eq!(cpu.get_delay_timer(), 3);
    // 300 ticks on a timer initialized to 5 leave it at 0: it never goes
    // negative and never wraps.
    for _ in 0..298 {
        cpu.tick_timers();
    }
    assert_eq!(cpu.get_delay_timer(), 0);
    assert_eq!(cpu.get_sound_timer(), 0);
    assert!(cpu.is_delay_timer_zero());
    assert!(cpu.is_sound_timer_zero());
}

#[test]
fn ld_delay_into_register_and_bcd_store() {
    // LD V0,200; LD DT,V0; LD V1,DT; LD I,0x400; LD B,V0.
    let mut cpu = cpu_with(&[0x60, 0xC8, 0xF0, 0x15, 0xF1, 0x07, 0xA4, 0x00, 0xF0, 0x33]);
    for _ in 0..5 {
        cpu.tick(None).unwrap();
    }
    assert_eq!(cpu.get_register(1), 200);
    assert_eq!(cpu.get_index_register(), 0x400);
    assert_eq!(cpu.get_memory(0x400), 2);
    assert_eq!(cpu.get_memory(0x401), 0);
    assert_eq!(cpu.get_memory(0x402), 0);
}

#[test]
fn glyph_sprite_draw_through_the_interpreter() {
    // LD V0,0; LD F,V0; LD V1,0; LD V2,0; DRW V1,V2,5: draws glyph 0.
    let mut cpu = cpu_with(&[0x60, 0x00, 0xF0, 0x29, 0x61, 0x00, 0x62, 0x00, 0xD1, 0x25]);
    for _ in 0..5 {
        cpu.tick(None).unwrap();
    }
    let fb = cpu.get_frame_buffer();
    // Glyph 0 row 0 is 0xF0: pixels (0..4, 0) set, (4..8, 0) clear.
    assert!(fb.get(0, 0));
    assert!(fb.get(3, 0));
    assert!(!fb.get(4, 0));
    // Row 1 is 0x90: pixels 0 and 3 set.
    assert!(fb.get(0, 1));
    assert!(!fb.get(1, 1));
    assert!(fb.get(3, 1));
    assert_eq!(cpu.get_register(0xF), 0);
}

#[test]
fn cls_clears_the_frame_buffer_through_the_interpreter() {
    // LD V0,0; LD F,V0; DRW V1,V2,5; CLS.
    let mut cpu = cpu_with(&[0x60, 0x00, 0xF0, 0x29, 0xD1, 0x25, 0x00, 0xE0]);
    for _ in 0..4 {
        cpu.tick(None).unwrap();
    }
    let fb = cpu.get_frame_buffer();
    for x in 0..64 {
        for y in 0..32 {
            assert!(!fb.get(x, y));
        }
    }
}

#[test]
fn block_store_and_load_through_the_interpreter() {
    // Store V0..V1 at 0x500, zero the registers, then load them back.
    let mut cpu = cpu_with(&[
        0x60, 0x01, // LD V0,1
        0x61, 0x02, // LD V1,2
        0xA5, 0x00, // LD I,0x500
        0xF1, 0x55, // LD [I],V1: store V0..V1
        0x60, 0x00, // LD V0,0
        0x61, 0x00, // LD V1,0
        0xF1, 0x65, // LD Vx,[I]: load V0..V1
    ]);
    for _ in 0..7 {
        cpu.tick(None).unwrap();
    }
    assert_eq!(cpu.get_memory(0x500), 1);
    assert_eq!(cpu.get_memory(0x501), 2);
    assert_eq!(cpu.get_register(0), 1);
    assert_eq!(cpu.get_register(1), 2);
    // The index register is unchanged by block moves.
    assert_eq!(cpu.get_index_register(), 0x500);
}

#[test]
fn rnd_through_the_interpreter_is_masked() {
    // RND V0,0x0F then RND V1,0x00.
    let mut cpu = cpu_with(&[0xC0, 0x0F, 0xC1, 0x00]);
    cpu.tick(None).unwrap();
    cpu.tick(None).unwrap();
    assert!(cpu.get_register(0) <= 0x0F);
    assert_eq!(cpu.get_register(1), 0);
}

#[test]
fn jp_v0_adds_the_register() {
    // LD V0,0x10; JP V0,0x300.
    let mut cpu = cpu_with(&[0x60, 0x10, 0xB3, 0x00]);
    cpu.tick(None).unwrap();
    cpu.tick(None).unwrap();
    assert_eq!(cpu.get_program_counter(), 0x310);
}
