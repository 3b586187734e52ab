use chip8_core::CHIP8_FIRST_BYTE_ADDRESS;
use chip8_core::CHIP8_MEMORY_SIZE;
use chip8_core::CHIP8_SCREEN_WIDTH;
use chip8_core::Chip8Error;
use chip8_core::Emulator;
use chip8_core::Instr;
use chip8_core::PixelStatus;
use chip8_core::parse_opcode;

#[test]
fn test_load_immediate_scenarios() {
    let mut emulator = Emulator::new();
    emulator.load_program(&[0x60, 0x00, 0x6F, 0xFF, 0x67, 0x2A]).unwrap();
    emulator.process_next_instruction().unwrap();
    assert_eq!(emulator.generic_registers[0x0], 0x00);
    assert_eq!(emulator.program_counter, CHIP8_FIRST_BYTE_ADDRESS + 2);
    emulator.process_next_instruction().unwrap();
    assert_eq!(emulator.generic_registers[0xF], 0xFF);
    assert_eq!(emulator.program_counter, CHIP8_FIRST_BYTE_ADDRESS + 4);
    emulator.process_next_instruction().unwrap();
    assert_eq!(emulator.generic_registers[0x7], 0x2A);
    assert_eq!(emulator.program_counter, CHIP8_FIRST_BYTE_ADDRESS + 6);
}

#[test]
fn test_carry_boundary() {
    // 0xFF + 0x01 wraps to 0x00 with the carry flag set.
    let mut emulator = Emulator::new();
    emulator.load_program(&[0x6A, 0xFF, 0x6B, 0x01, 0x8A, 0xB4]).unwrap();
    emulator.process_next_instruction().unwrap();
    emulator.process_next_instruction().unwrap();
    emulator.process_next_instruction().unwrap();
    assert_eq!(emulator.generic_registers[0xA], 0x00);
    assert_eq!(emulator.generic_registers[0xF], 0x01);

    // 0x01 + 0x01 gives 0x02 with the carry flag clear.
    let mut emulator = Emulator::new();
    emulator.load_program(&[0x6A, 0x01, 0x6B, 0x01, 0x8A, 0xB4]).unwrap();
    emulator.process_next_instruction().unwrap();
    emulator.process_next_instruction().unwrap();
    emulator.process_next_instruction().unwrap();
    assert_eq!(emulator.generic_registers[0xA], 0x02);
    assert_eq!(emulator.generic_registers[0xF], 0x00);
}

#[test]
fn test_borrow_boundary() {
    // 0x01 - 0x02 wraps to 0xFF; a borrow occurred, so VF is clear.
    let mut emulator = Emulator::new();
    emulator.load_program(&[0x6A, 0x01, 0x6B, 0x02, 0x8A, 0xB5]).unwrap();
    emulator.process_next_instruction().unwrap();
    emulator.process_next_instruction().unwrap();
    emulator.process_next_instruction().unwrap();
    assert_eq!(emulator.generic_registers[0xA], 0xFF);
    assert_eq!(emulator.generic_registers[0xF], 0x00);
}

#[test]
fn test_shift_ignores_vy() {
    // The same Vx shifted with three different Vy values gives identical
    // results: the y operand of 8XY6/8XYE is decoded but never read.
    let mut results = Vec::new();
    for vy in [0x00u8, 0x7Fu8, 0xFFu8] {
        let mut emulator = Emulator::new();
        emulator.load_program(&[0x8A, 0xB6, 0x8A, 0xBE]).unwrap();
        emulator.generic_registers[0xA] = 0b1010_0101;
        emulator.generic_registers[0xB] = vy;
        emulator.process_next_instruction().unwrap();
        let after_shr = (emulator.generic_registers[0xA], emulator.generic_registers[0xF]);
        emulator.process_next_instruction().unwrap();
        let after_shl = (emulator.generic_registers[0xA], emulator.generic_registers[0xF]);
        results.push((after_shr, after_shl));
    }
    assert_eq!(results[0], results[1]);
    assert_eq!(results[0], results[2]);
    assert_eq!(results[0].0, (0b0101_0010, 0x01));
    assert_eq!(results[0].1, (0b1010_0100, 0x00));
}

#[test]
fn test_store_load_round_trip() {
    // FX55 then FX65 restores V0..=Vx even after the registers were
    // overwritten in between: memory is the source of truth.
    let mut emulator = Emulator::new();
    emulator
        .load_program(&[0xA3, 0x00, 0xF2, 0x55, 0x60, 0x00, 0x61, 0x00, 0x62, 0x00, 0xF2, 0x65])
        .unwrap();
    emulator.generic_registers[0x0] = 0x11;
    emulator.generic_registers[0x1] = 0x22;
    emulator.generic_registers[0x2] = 0x33;
    emulator.process_next_instruction().unwrap();
    emulator.process_next_instruction().unwrap();
    for _ in 0..3 {
        emulator.process_next_instruction().unwrap();
    }
    assert_eq!(emulator.generic_registers[0x0], 0x00);
    assert_eq!(emulator.generic_registers[0x1], 0x00);
    assert_eq!(emulator.generic_registers[0x2], 0x00);
    emulator.process_next_instruction().unwrap();
    assert_eq!(emulator.generic_registers[0x0], 0x11);
    assert_eq!(emulator.generic_registers[0x1], 0x22);
    assert_eq!(emulator.generic_registers[0x2], 0x33);
}

#[test]
fn test_draw_twice_on_lit_background() {
    // When every sprite bit lands on an already-lit cell, the first draw
    // collides and the second does not; the framebuffer is restored either
    // way.
    let mut emulator = Emulator::new();
    emulator.load_program(&[0xD0, 0x11, 0xD0, 0x11]).unwrap();
    emulator.generic_registers[0x0] = 0x00;
    emulator.generic_registers[0x1] = 0x00;
    emulator.memory_register = 0x300;
    emulator.memory[0x300] = 0xFF;
    for c in 0..8 {
        emulator.screen[c] = PixelStatus::White;
    }
    emulator.process_next_instruction().unwrap();
    assert_eq!(emulator.generic_registers[0xF], 0x01);
    for c in 0..8 {
        assert_eq!(emulator.screen[c], PixelStatus::Black);
    }
    emulator.process_next_instruction().unwrap();
    assert_eq!(emulator.generic_registers[0xF], 0x00);
    for c in 0..8 {
        assert_eq!(emulator.screen[c], PixelStatus::White);
    }
}

#[test]
fn test_end_to_end_hand_traced() {
    // V0 := 5; V1 := 6; I := 0x300; V0 := V0 + V2 with carry in VF.
    let mut emulator = Emulator::new();
    emulator
        .load_program(&[0x60, 0x05, 0x61, 0x06, 0xA3, 0x00, 0x80, 0x24])
        .unwrap();
    emulator.process_next_instruction().unwrap();
    emulator.process_next_instruction().unwrap();
    emulator.process_next_instruction().unwrap();
    emulator.process_next_instruction().unwrap();
    assert_eq!(emulator.generic_registers[0x0], 0x05);
    assert_eq!(emulator.generic_registers[0x1], 0x06);
    assert_eq!(emulator.generic_registers[0x2], 0x00);
    assert_eq!(emulator.generic_registers[0xF], 0x00);
    assert_eq!(emulator.memory_register, 0x300);
    assert_eq!(emulator.program_counter, CHIP8_FIRST_BYTE_ADDRESS + 8);
}

#[test]
fn test_stack_underflow() {
    let mut emulator = Emulator::new();
    emulator.load_program(&[0x00, 0xEE]).unwrap();
    let r = emulator.process_next_instruction();
    assert_eq!(r, Err(Chip8Error::StackUnderflow));
    assert_eq!(emulator.program_counter, CHIP8_FIRST_BYTE_ADDRESS);
}

#[test]
fn test_stack_overflow() {
    // A subroutine that calls itself: the 16 nested calls fill the stack and
    // the 17th fails.
    let mut emulator = Emulator::new();
    emulator.load_program(&[0x22, 0x00]).unwrap();
    for _ in 0..16 {
        emulator.process_next_instruction().unwrap();
    }
    assert_eq!(emulator.call_stack_depth, 16);
    let r = emulator.process_next_instruction();
    assert_eq!(r, Err(Chip8Error::StackOverflow));
    assert_eq!(emulator.call_stack_depth, 16);
}

#[test]
fn test_fetch_out_of_bounds() {
    let mut emulator = Emulator::new();
    emulator.program_counter = CHIP8_MEMORY_SIZE - 1;
    let r = emulator.process_next_instruction();
    assert_eq!(r, Err(Chip8Error::MemoryOutOfBounds));
}

#[test]
fn test_block_store_out_of_bounds() {
    let mut emulator = Emulator::new();
    emulator.load_program(&[0xF1, 0x55]).unwrap();
    emulator.memory_register = 0xFFF;
    let r = emulator.process_next_instruction();
    assert_eq!(r, Err(Chip8Error::MemoryOutOfBounds));
}

#[test]
fn test_block_load_out_of_bounds() {
    let mut emulator = Emulator::new();
    emulator.load_program(&[0xF1, 0x65]).unwrap();
    emulator.memory_register = 0xFFF;
    let r = emulator.process_next_instruction();
    assert_eq!(r, Err(Chip8Error::MemoryOutOfBounds));
}

#[test]
fn test_draw_screen_out_of_bounds() {
    // A one-row sprite at x = 60 would cross the right edge.
    let mut emulator = Emulator::new();
    emulator.load_program(&[0xD0, 0x11]).unwrap();
    emulator.generic_registers[0x0] = 60;
    emulator.generic_registers[0x1] = 0;
    emulator.memory_register = 0x300;
    let r = emulator.process_next_instruction();
    assert_eq!(r, Err(Chip8Error::ScreenOutOfBounds));
    for p in 0..CHIP8_SCREEN_WIDTH {
        assert_eq!(emulator.screen[p], PixelStatus::Black);
    }
}

#[test]
fn test_key_skip_out_of_range() {
    let mut emulator = Emulator::new();
    emulator.load_program(&[0xE0, 0x9E]).unwrap();
    emulator.generic_registers[0x0] = 0x10;
    let r = emulator.process_next_instruction();
    assert_eq!(r, Err(Chip8Error::KeyOutOfRange));
}

#[test]
fn test_program_too_large() {
    let mut emulator = Emulator::new();
    let too_long = vec![0u8; CHIP8_MEMORY_SIZE - CHIP8_FIRST_BYTE_ADDRESS + 1];
    let r = emulator.load_program(&too_long);
    assert_eq!(r, Err(Chip8Error::ProgramTooLarge));
    assert_eq!(emulator.program_counter, CHIP8_FIRST_BYTE_ADDRESS);

    let just_fits = vec![0u8; CHIP8_MEMORY_SIZE - CHIP8_FIRST_BYTE_ADDRESS];
    emulator.load_program(&just_fits).unwrap();
}

#[test]
fn test_input_key_updates_key_state() {
    let mut emulator = Emulator::new();
    emulator.input_key(0x3, true);
    assert!(emulator.keys_pressed[0x3]);
    assert!(!emulator.keys_pressed[0x4]);
    emulator.input_key(0x3, false);
    assert!(!emulator.keys_pressed[0x3]);
}

#[test]
fn test_random_masked() {
    // CXNN masks the random byte: with nn == 0 the result is always 0.
    let mut emulator = Emulator::new();
    emulator.load_program(&[0xC0, 0x00]).unwrap();
    emulator.generic_registers[0x0] = 0x11;
    emulator.process_next_instruction().unwrap();
    assert_eq!(emulator.generic_registers[0x0], 0x00);
}

#[test]
fn test_parse_opcode_patterns() {
    assert_eq!(parse_opcode(0x00E0), Some(Instr::ClearScreen));
    assert_eq!(parse_opcode(0x00EE), Some(Instr::Return));
    assert_eq!(parse_opcode(0x0123), Some(Instr::MachineRoutine(0x123)));
    assert_eq!(parse_opcode(0x1ABC), Some(Instr::Jump(0xABC)));
    assert_eq!(parse_opcode(0x2ABC), Some(Instr::Call(0xABC)));
    assert_eq!(parse_opcode(0x3A42), Some(Instr::SkipIfEqImm(0xA, 0x42)));
    assert_eq!(parse_opcode(0x4A42), Some(Instr::SkipIfNeImm(0xA, 0x42)));
    assert_eq!(parse_opcode(0x5AB0), Some(Instr::SkipIfEqReg(0xA, 0xB)));
    assert_eq!(parse_opcode(0x5AB1), None);
    assert_eq!(parse_opcode(0x6A42), Some(Instr::SetImm(0xA, 0x42)));
    assert_eq!(parse_opcode(0x7A42), Some(Instr::AddImm(0xA, 0x42)));
    assert_eq!(parse_opcode(0x8AB0), Some(Instr::Copy(0xA, 0xB)));
    assert_eq!(parse_opcode(0x8AB1), Some(Instr::Or(0xA, 0xB)));
    assert_eq!(parse_opcode(0x8AB2), Some(Instr::And(0xA, 0xB)));
    assert_eq!(parse_opcode(0x8AB3), Some(Instr::Xor(0xA, 0xB)));
    assert_eq!(parse_opcode(0x8AB4), Some(Instr::AddReg(0xA, 0xB)));
    assert_eq!(parse_opcode(0x8AB5), Some(Instr::SubReg(0xA, 0xB)));
    assert_eq!(parse_opcode(0x8AB6), Some(Instr::ShiftRight(0xA, 0xB)));
    assert_eq!(parse_opcode(0x8AB7), Some(Instr::SubFrom(0xA, 0xB)));
    assert_eq!(parse_opcode(0x8ABE), Some(Instr::ShiftLeft(0xA, 0xB)));
    assert_eq!(parse_opcode(0x8AB8), None);
    assert_eq!(parse_opcode(0x9AB0), Some(Instr::SkipIfNeReg(0xA, 0xB)));
    assert_eq!(parse_opcode(0x9AB1), None);
    assert_eq!(parse_opcode(0xAABC), Some(Instr::SetIndex(0xABC)));
    assert_eq!(parse_opcode(0xBABC), None);
    assert_eq!(parse_opcode(0xCA42), Some(Instr::Random(0xA, 0x42)));
    assert_eq!(parse_opcode(0xDAB5), Some(Instr::Draw(0xA, 0xB, 0x5)));
    assert_eq!(parse_opcode(0xEA9E), Some(Instr::SkipIfKey(0xA)));
    assert_eq!(parse_opcode(0xEAA1), Some(Instr::SkipIfNotKey(0xA)));
    assert_eq!(parse_opcode(0xEA00), None);
    assert_eq!(parse_opcode(0xFA07), Some(Instr::ReadTimer(0xA)));
    assert_eq!(parse_opcode(0xFA15), Some(Instr::SetTimer(0xA)));
    assert_eq!(parse_opcode(0xFA18), Some(Instr::SetSound(0xA)));
    assert_eq!(parse_opcode(0xFA1E), Some(Instr::AddIndex(0xA)));
    assert_eq!(parse_opcode(0xFA55), Some(Instr::StoreRegisters(0xA)));
    assert_eq!(parse_opcode(0xFA65), Some(Instr::LoadRegisters(0xA)));
    assert_eq!(parse_opcode(0xFA66), None);
}
