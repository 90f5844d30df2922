use chip8::Emulator;
use chip8::Fault;
use chip8::SCREEN_HEIGHT;
use chip8::SCREEN_WIDTH;

#[test]
fn stack_ops() {
    let mut emulator = Emulator::new();
    Emulator::push(&mut emulator, 1);
    Emulator::push(&mut emulator, 2);
    Emulator::pop(&mut emulator);

    assert_eq!(emulator.stack[0..3], [1u16, 2, 0]);
}

#[test]
fn test_fetch_op() {
    let mut emulator = Emulator::new();
    assert_eq!(emulator.fetch(), 0);
}

#[test]
fn test_nop() {
    let mut emulator = Emulator::new();
    emulator.execute(0).unwrap();
    assert_eq!(emulator, Emulator::new())
}

#[test]
fn test_clear_scr() {
    let mut emulator = Emulator::new();
    emulator.screen = vec![true; SCREEN_WIDTH * SCREEN_HEIGHT];
    emulator.execute(224).unwrap();
    assert_eq!(emulator.screen, Emulator::new().screen)
}

#[test]
fn test_return_from_subroutine() {
    let mut emulator = Emulator::new();
    emulator.push(1);
    emulator.program_counter = 2;
    emulator.execute(238).unwrap();
    assert_eq!(emulator.program_counter, 1)
}

#[test]
fn test_jump_to_subroutine() {
    let mut emulator = Emulator::new();
    emulator.program_counter = 2;
    emulator.execute(4660).unwrap(); // 0x1234
    assert_eq!(emulator.program_counter, 564);
}

#[test]
fn test_call_subroutine() {
    let mut emulator = Emulator::new();
    emulator.program_counter = 2;
    emulator.execute(8756).unwrap(); // 0x2234
    assert_eq!(emulator.program_counter, 564);
    assert_eq!(emulator.stack[0..1], [2u16]);
}

#[test]
fn test_skip_ahead() {
    let mut emulator = Emulator::new();
    emulator.program_counter = 2;
    emulator.v_registers[2] = 52;
    emulator.execute(12852).unwrap(); // 0x3234
    assert_eq!(emulator.program_counter, 4);
}

#[test]
fn stack_round_trip_reverses() {
    let mut emulator = Emulator::new();
    let before = emulator.stack_pointer;
    emulator.push(0x111);
    emulator.push(0x222);
    emulator.push(0x333);
    assert_eq!(emulator.pop(), 0x333);
    assert_eq!(emulator.pop(), 0x222);
    assert_eq!(emulator.pop(), 0x111);
    assert_eq!(emulator.stack_pointer, before);
}

#[test]
fn reset_matches_fresh_machine() {
    let mut emulator = Emulator::new();
    emulator.program_counter = 42;
    emulator.v_registers[3] = 9;
    emulator.screen[100] = true;
    emulator.i_registers = 77;
    emulator.delay_timer = 5;
    emulator.sound_timer = 6;
    emulator.push(0x300);
    emulator.set_key(4, true);
    emulator.reset();
    assert_eq!(emulator, Emulator::new());
}

#[test]
fn fresh_machine_holds_font() {
    let emulator = Emulator::new();
    // The first five bytes are the glyph for the digit zero.
    assert_eq!(emulator.ram[0..5], [0xF0, 0x90, 0x90, 0x90, 0xF0]);
    // The last five font bytes are the glyph for F.
    assert_eq!(emulator.ram[75..80], [0xF0, 0x80, 0xF0, 0x80, 0x80]);
    assert_eq!(emulator.program_counter, 0x200);
    assert!(emulator.ram[80..].iter().all(|b| *b == 0));
}

#[test]
fn fetch_is_pure_on_memory() {
    let mut emulator = Emulator::new();
    emulator.load_program(&[0xAB, 0xCD]).unwrap();
    let ram_before = emulator.ram.clone();
    let op = emulator.fetch();
    assert_eq!(op, 0xABCD);
    assert_eq!(emulator.program_counter, 0x202);
    assert_eq!(emulator.ram, ram_before);
}

#[test]
fn load_program_copies_at_start_address() {
    let mut emulator = Emulator::new();
    emulator.load_program(&[1, 2, 3]).unwrap();
    assert_eq!(emulator.ram[0x200..0x203], [1, 2, 3]);
    assert_eq!(emulator.ram[0x203], 0);
}

#[test]
fn load_program_rejects_too_large() {
    let mut emulator = Emulator::new();
    let oversized = vec![0u8; 4096 - 0x200 + 1];
    assert_eq!(emulator.load_program(&oversized), Err(Fault::ProgramTooLarge));
    assert_eq!(emulator, Emulator::new());
    let largest = vec![7u8; 4096 - 0x200];
    assert_eq!(emulator.load_program(&largest), Ok(()));
    assert_eq!(emulator.ram[4095], 7);
}

#[test]
fn tick_runs_loaded_program() {
    let mut emulator = Emulator::new();
    emulator.load_program(&[0x63, 0x2A]).unwrap(); // V3 := 0x2A
    emulator.tick().unwrap();
    assert_eq!(emulator.program_counter, 0x202);
    assert_eq!(emulator.v_registers[3], 0x2A);
}

#[test]
fn tick_faults_out_of_bounds_fetch() {
    let mut emulator = Emulator::new();
    emulator.program_counter = 4095;
    assert_eq!(emulator.tick(), Err(Fault::OutOfBounds));
    assert_eq!(emulator.program_counter, 4095);
}

#[test]
fn call_depth_limit_overflows() {
    let mut emulator = Emulator::new();
    for _ in 0..16 {
        emulator.execute(0x2234).unwrap();
    }
    assert_eq!(emulator.execute(0x2234), Err(Fault::StackOverflow));
}

#[test]
fn return_on_empty_stack_underflows() {
    let mut emulator = Emulator::new();
    assert_eq!(emulator.execute(0x00EE), Err(Fault::StackUnderflow));
}

#[test]
fn unknown_opcode_faults_with_raw_word() {
    let mut emulator = Emulator::new();
    assert_eq!(emulator.execute(0x5231), Err(Fault::UnimplementedOpcode(0x5231)));
    assert_eq!(emulator.execute(0x8009), Err(Fault::UnimplementedOpcode(0x8009)));
    assert_eq!(emulator.execute(0x9001), Err(Fault::UnimplementedOpcode(0x9001)));
    assert_eq!(emulator.execute(0xE000), Err(Fault::UnimplementedOpcode(0xE000)));
    assert_eq!(emulator.execute(0xF0FF), Err(Fault::UnimplementedOpcode(0xF0FF)));
    assert_eq!(emulator.execute(0x0123), Err(Fault::UnimplementedOpcode(0x0123)));
}

#[test]
fn skip_if_not_equal() {
    let mut emulator = Emulator::new();
    emulator.program_counter = 2;
    emulator.v_registers[2] = 0x34;
    emulator.execute(0x4234).unwrap(); // equal: no skip
    assert_eq!(emulator.program_counter, 2);
    emulator.v_registers[2] = 0x35;
    emulator.execute(0x4234).unwrap(); // unequal: skip
    assert_eq!(emulator.program_counter, 4);
}

#[test]
fn skip_on_register_compare() {
    let mut emulator = Emulator::new();
    emulator.program_counter = 2;
    emulator.v_registers[1] = 7;
    emulator.v_registers[2] = 7;
    emulator.execute(0x5120).unwrap(); // equal: skip
    assert_eq!(emulator.program_counter, 4);
    emulator.execute(0x9120).unwrap(); // equal: no skip
    assert_eq!(emulator.program_counter, 4);
    emulator.v_registers[2] = 8;
    emulator.execute(0x9120).unwrap(); // unequal: skip
    assert_eq!(emulator.program_counter, 6);
}

#[test]
fn assign_immediate() {
    let mut emulator = Emulator::new();
    emulator.execute(0x6ABC).unwrap();
    assert_eq!(emulator.v_registers[0xA], 0xBC);
}

#[test]
fn add_immediate_wraps_without_carry_flag() {
    let mut emulator = Emulator::new();
    emulator.v_registers[4] = 0xFF;
    emulator.v_registers[0xF] = 0;
    emulator.execute(0x7401).unwrap();
    assert_eq!(emulator.v_registers[4], 0x00);
    assert_eq!(emulator.v_registers[0xF], 0);
}

#[test]
fn alu_assign_and_logic() {
    let mut emulator = Emulator::new();
    emulator.v_registers[1] = 0b1100;
    emulator.v_registers[2] = 0b1010;
    emulator.execute(0x8121).unwrap(); // OR
    assert_eq!(emulator.v_registers[1], 0b1110);
    emulator.v_registers[1] = 0b1100;
    emulator.execute(0x8122).unwrap(); // AND
    assert_eq!(emulator.v_registers[1], 0b1000);
    emulator.v_registers[1] = 0b1100;
    emulator.execute(0x8123).unwrap(); // XOR
    assert_eq!(emulator.v_registers[1], 0b0110);
    emulator.execute(0x8120).unwrap(); // assign
    assert_eq!(emulator.v_registers[1], 0b1010);
}

#[test]
fn alu_add_sets_carry() {
    let mut emulator = Emulator::new();
    emulator.v_registers[1] = 200;
    emulator.v_registers[2] = 100;
    emulator.execute(0x8124).unwrap();
    assert_eq!(emulator.v_registers[1], 44);
    assert_eq!(emulator.v_registers[0xF], 1);
    emulator.v_registers[1] = 3;
    emulator.execute(0x8124).unwrap();
    assert_eq!(emulator.v_registers[1], 103);
    assert_eq!(emulator.v_registers[0xF], 0);
}

#[test]
fn alu_sub_sets_not_borrow() {
    let mut emulator = Emulator::new();
    emulator.v_registers[1] = 10;
    emulator.v_registers[2] = 3;
    emulator.execute(0x8125).unwrap();
    assert_eq!(emulator.v_registers[1], 7);
    assert_eq!(emulator.v_registers[0xF], 1);
    emulator.v_registers[1] = 3;
    emulator.v_registers[2] = 10;
    emulator.execute(0x8125).unwrap();
    assert_eq!(emulator.v_registers[1], 249);
    assert_eq!(emulator.v_registers[0xF], 0);
}

#[test]
fn alu_subn_reverses_operands() {
    let mut emulator = Emulator::new();
    emulator.v_registers[1] = 3;
    emulator.v_registers[2] = 10;
    emulator.execute(0x8127).unwrap();
    assert_eq!(emulator.v_registers[1], 7);
    assert_eq!(emulator.v_registers[0xF], 1);
    emulator.v_registers[1] = 10;
    emulator.v_registers[2] = 3;
    emulator.execute(0x8127).unwrap();
    assert_eq!(emulator.v_registers[1], 249);
    assert_eq!(emulator.v_registers[0xF], 0);
}

#[test]
fn alu_shifts_capture_dropped_bit() {
    let mut emulator = Emulator::new();
    emulator.v_registers[1] = 0x05;
    emulator.execute(0x8106).unwrap(); // SHR
    assert_eq!(emulator.v_registers[1], 0x02);
    assert_eq!(emulator.v_registers[0xF], 1);
    emulator.v_registers[1] = 0x81;
    emulator.execute(0x810E).unwrap(); // SHL
    assert_eq!(emulator.v_registers[1], 0x02);
    assert_eq!(emulator.v_registers[0xF], 1);
}

#[test]
fn set_index_register() {
    let mut emulator = Emulator::new();
    emulator.execute(0xA123).unwrap();
    assert_eq!(emulator.i_registers, 0x123);
}

#[test]
fn jump_with_offset() {
    let mut emulator = Emulator::new();
    emulator.v_registers[0] = 0x10;
    emulator.execute(0xB200).unwrap();
    assert_eq!(emulator.program_counter, 0x210);
}

#[test]
fn random_masked_by_zero_is_zero() {
    let mut emulator = Emulator::new();
    emulator.v_registers[5] = 0xAA;
    emulator.execute(0xC500).unwrap();
    assert_eq!(emulator.v_registers[5], 0);
    // A nonzero mask clears at least the bits outside it.
    emulator.execute(0xC50F).unwrap();
    assert_eq!(emulator.v_registers[5] & 0xF0, 0);
}

#[test]
fn draw_sprite_lights_pixels_and_wraps() {
    let mut emulator = Emulator::new();
    // Draw the font glyph for zero (at address 0) at (62, 31): it wraps
    // off the right edge and off the bottom edge.
    emulator.i_registers = 0;
    emulator.v_registers[0] = 62;
    emulator.v_registers[1] = 31;
    emulator.execute(0xD015).unwrap();
    // Top row of the glyph is 0xF0: four lit pixels from (62, 31),
    // wrapping to columns 62, 63, 0, 1.
    assert!(emulator.screen[31 * SCREEN_WIDTH + 62]);
    assert!(emulator.screen[31 * SCREEN_WIDTH + 63]);
    assert!(emulator.screen[31 * SCREEN_WIDTH + 0]);
    assert!(emulator.screen[31 * SCREEN_WIDTH + 1]);
    assert!(!emulator.screen[31 * SCREEN_WIDTH + 2]);
    // The second row wraps to the top of the screen: 0x90 lights the
    // first and fourth of its eight columns.
    assert!(emulator.screen[0 * SCREEN_WIDTH + 62]);
    assert!(!emulator.screen[0 * SCREEN_WIDTH + 63]);
    assert!(emulator.screen[0 * SCREEN_WIDTH + 1]);
    assert_eq!(emulator.v_registers[0xF], 0);
}

#[test]
fn draw_same_sprite_twice_clears_and_collides() {
    let mut emulator = Emulator::new();
    emulator.i_registers = 0;
    emulator.v_registers[0] = 4;
    emulator.v_registers[1] = 2;
    emulator.execute(0xD015).unwrap();
    assert_eq!(emulator.v_registers[0xF], 0);
    assert!(emulator.screen.iter().any(|p| *p));
    emulator.execute(0xD015).unwrap();
    assert_eq!(emulator.v_registers[0xF], 1);
    assert!(emulator.screen.iter().all(|p| !*p));
}

#[test]
fn draw_past_memory_end_faults() {
    let mut emulator = Emulator::new();
    emulator.i_registers = 4095;
    assert_eq!(emulator.execute(0xD012), Err(Fault::OutOfBounds));
}

#[test]
fn skip_on_key_state() {
    let mut emulator = Emulator::new();
    emulator.v_registers[3] = 0xB;
    emulator.set_key(0xB, true);
    emulator.execute(0xE39E).unwrap(); // pressed: skip
    assert_eq!(emulator.program_counter, 0x202);
    emulator.execute(0xE3A1).unwrap(); // pressed: no skip
    assert_eq!(emulator.program_counter, 0x202);
    emulator.set_key(0xB, false);
    emulator.execute(0xE3A1).unwrap(); // released: skip
    assert_eq!(emulator.program_counter, 0x204);
}

#[test]
fn timers_read_write_and_floor() {
    let mut emulator = Emulator::new();
    emulator.v_registers[2] = 3;
    emulator.execute(0xF215).unwrap(); // delay := 3
    emulator.execute(0xF218).unwrap(); // sound := 3
    assert_eq!(emulator.delay_timer, 3);
    assert_eq!(emulator.sound_timer, 3);
    emulator.execute(0xF407).unwrap(); // V4 := delay
    assert_eq!(emulator.v_registers[4], 3);
    for _ in 0..10 {
        emulator.tick_timers();
    }
    assert_eq!(emulator.delay_timer, 0);
    assert_eq!(emulator.sound_timer, 0);
}

#[test]
fn wait_for_key_suspends_until_press() {
    let mut emulator = Emulator::new();
    emulator.load_program(&[0xF1, 0x0A, 0x63, 0x2A]).unwrap();
    emulator.tick().unwrap();
    assert!(emulator.is_waiting_for_key());
    assert_eq!(emulator.program_counter, 0x202);
    // Steps while suspended re-check the keys and change nothing else.
    emulator.tick().unwrap();
    assert!(emulator.is_waiting_for_key());
    assert_eq!(emulator.program_counter, 0x202);
    assert_eq!(emulator.v_registers[3], 0);
    emulator.set_key(7, true);
    emulator.tick().unwrap();
    assert!(!emulator.is_waiting_for_key());
    assert_eq!(emulator.v_registers[1], 7);
    // The next step resumes the program.
    emulator.tick().unwrap();
    assert_eq!(emulator.v_registers[3], 0x2A);
}

#[test]
fn add_to_index_register() {
    let mut emulator = Emulator::new();
    emulator.i_registers = 0x0FFE;
    emulator.v_registers[6] = 4;
    emulator.execute(0xF61E).unwrap();
    assert_eq!(emulator.i_registers, 0x1002);
}

#[test]
fn font_glyph_address() {
    let mut emulator = Emulator::new();
    emulator.v_registers[0] = 0xA;
    emulator.execute(0xF029).unwrap();
    assert_eq!(emulator.i_registers, 50);
    // Only the low nibble selects the glyph.
    emulator.v_registers[0] = 0x1A;
    emulator.execute(0xF029).unwrap();
    assert_eq!(emulator.i_registers, 50);
}

#[test]
fn binary_coded_decimal() {
    let mut emulator = Emulator::new();
    emulator.v_registers[7] = 123;
    emulator.i_registers = 0x300;
    emulator.execute(0xF733).unwrap();
    assert_eq!(emulator.ram[0x300..0x303], [1, 2, 3]);
    assert_eq!(emulator.execute(0xF733), Ok(()));
    emulator.i_registers = 4094;
    assert_eq!(emulator.execute(0xF733), Err(Fault::OutOfBounds));
}

#[test]
fn store_and_load_register_block() {
    let mut emulator = Emulator::new();
    emulator.i_registers = 0x300;
    for v in 0..4 {
        emulator.v_registers[v] = 10 + v as u8;
    }
    emulator.execute(0xF355).unwrap(); // store V0..V3
    assert_eq!(emulator.ram[0x300..0x304], [10, 11, 12, 13]);
    assert_eq!(emulator.ram[0x304], 0);
    for v in 0..4 {
        emulator.v_registers[v] = 0;
    }
    emulator.execute(0xF365).unwrap(); // load V0..V3
    assert_eq!(emulator.v_registers[0..4], [10, 11, 12, 13]);
    assert_eq!(emulator.v_registers[4], 0);
    emulator.i_registers = 4094;
    assert_eq!(emulator.execute(0xF355), Err(Fault::OutOfBounds));
    assert_eq!(emulator.execute(0xF365), Err(Fault::OutOfBounds));
}
