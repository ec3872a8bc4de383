use chip8::cpu::Cpu;

fn cpu_with_opcode(word: u16) -> Cpu {
    let mut c = Cpu::new();
    c.memory[0x200] = (word >> 8) as u8;
    c.memory[0x201] = (word & 0xFF) as u8;
    c
}

#[test]
fn new_cpu_holds_the_font_and_entry_point() {
    let c = Cpu::new();
    assert_eq!(c.pc, 0x200);
    assert_eq!(c.stack_pointer, 0);
    assert_eq!(c.index, 0);
    assert_eq!(c.memory[0x050], 0xF0); // first byte of glyph 0
    assert_eq!(c.memory[0x09F], 0x80); // last byte of glyph F
    assert_eq!(c.memory[0x04F], 0x00);
    assert_eq!(c.memory[0x0A0], 0x00);
    assert_eq!(c.v, vec![0u8; 16]);
    assert!(!c.draw_flag);
}

#[test]
fn load_places_bytes_at_the_entry_point() {
    let mut c = Cpu::new();
    c.read_program(&[0x12, 0x34, 0x56]);
    assert_eq!(c.memory[0x200], 0x12);
    assert_eq!(c.memory[0x201], 0x34);
    assert_eq!(c.memory[0x202], 0x56);
    assert_eq!(c.memory[0x203], 0x00);
    // everything below the entry point, the font included, is untouched
    assert_eq!(c.memory[0x1FF], 0x00);
    assert_eq!(c.memory[0x050], 0xF0);
    assert_eq!(c.memory[0x09F], 0x80);
}

#[test]
fn load_truncates_an_oversized_program() {
    let mut c = Cpu::new();
    let program = vec![7u8; 4000];
    c.read_program(&program);
    // exactly 3584 bytes fit between the entry point and the end
    assert_eq!(c.memory[0x200], 7);
    assert_eq!(c.memory[4095], 7);
    assert_eq!(c.memory.len(), 4096);
}

#[test]
fn jump_sets_the_program_counter_exactly() {
    let mut c = cpu_with_opcode(0x1300);
    c.do_cycle_with(0);
    assert_eq!(c.pc, 0x300);
    // the target does not depend on where the jump sat
    let mut c2 = Cpu::new();
    c2.memory[0x400] = 0x13;
    c2.memory[0x401] = 0x00;
    c2.pc = 0x400;
    c2.do_cycle_with(0);
    assert_eq!(c2.pc, 0x300);
}

#[test]
fn call_and_return_round_trip() {
    let mut c = cpu_with_opcode(0x2400);
    c.do_cycle_with(0);
    assert_eq!(c.pc, 0x400);
    assert_eq!(c.stack_pointer, 1);
    assert_eq!(c.stack[0], 0x202);
    c.memory[0x400] = 0x00;
    c.memory[0x401] = 0xEE;
    c.do_cycle_with(0);
    assert_eq!(c.pc, 0x202);
    assert_eq!(c.stack_pointer, 0);
}

#[test]
fn skip_if_equal_immediate() {
    let mut c = cpu_with_opcode(0x3342);
    c.v[3] = 0x42;
    c.do_cycle_with(0);
    assert_eq!(c.pc, 0x204);
    let mut c2 = cpu_with_opcode(0x3342);
    c2.v[3] = 0x41;
    c2.do_cycle_with(0);
    assert_eq!(c2.pc, 0x202);
}

#[test]
fn skip_if_not_equal_immediate() {
    let mut c = cpu_with_opcode(0x4342);
    c.v[3] = 0x42;
    c.do_cycle_with(0);
    assert_eq!(c.pc, 0x202);
    let mut c2 = cpu_with_opcode(0x4342);
    c2.v[3] = 0x00;
    c2.do_cycle_with(0);
    assert_eq!(c2.pc, 0x204);
}

#[test]
fn skip_if_registers_match_or_differ() {
    let mut c = cpu_with_opcode(0x5120);
    c.v[1] = 9;
    c.v[2] = 9;
    c.do_cycle_with(0);
    assert_eq!(c.pc, 0x204);
    let mut c2 = cpu_with_opcode(0x9120);
    c2.v[1] = 9;
    c2.v[2] = 8;
    c2.do_cycle_with(0);
    assert_eq!(c2.pc, 0x204);
}

#[test]
fn set_and_add_immediate() {
    let mut c = cpu_with_opcode(0x61AB);
    c.do_cycle_with(0);
    assert_eq!(c.v[1], 0xAB);
    let mut c2 = cpu_with_opcode(0x71FF);
    c2.v[1] = 0x02;
    c2.do_cycle_with(0);
    // add-immediate wraps and sets no flag
    assert_eq!(c2.v[1], 0x01);
    assert_eq!(c2.v[15], 0x00);
}

#[test]
fn register_copy_and_bitwise_ops() {
    let mut c = cpu_with_opcode(0x8120);
    c.v[2] = 0x5A;
    c.do_cycle_with(0);
    assert_eq!(c.v[1], 0x5A);

    let mut c2 = cpu_with_opcode(0x8121);
    c2.v[1] = 0xF0;
    c2.v[2] = 0x0F;
    c2.do_cycle_with(0);
    assert_eq!(c2.v[1], 0xFF);

    let mut c3 = cpu_with_opcode(0x8122);
    c3.v[1] = 0xF3;
    c3.v[2] = 0x0F;
    c3.do_cycle_with(0);
    assert_eq!(c3.v[1], 0x03);

    let mut c4 = cpu_with_opcode(0x8123);
    c4.v[1] = 0xFF;
    c4.v[2] = 0x0F;
    c4.do_cycle_with(0);
    assert_eq!(c4.v[1], 0xF0);
}

#[test]
fn add_overflow_sets_the_carry_flag() {
    let mut c = cpu_with_opcode(0x8014);
    c.v[0] = 0xFF;
    c.v[1] = 0x01;
    c.do_cycle_with(0);
    assert_eq!(c.v[0], 0x00);
    assert_eq!(c.v[15], 1);
    let mut c2 = cpu_with_opcode(0x8014);
    c2.v[0] = 0x10;
    c2.v[1] = 0x01;
    c2.do_cycle_with(0);
    assert_eq!(c2.v[0], 0x11);
    assert_eq!(c2.v[15], 0);
}

#[test]
fn subtract_underflow_clears_the_borrow_flag() {
    let mut c = cpu_with_opcode(0x8015);
    c.v[0] = 0x01;
    c.v[1] = 0x02;
    c.do_cycle_with(0);
    assert_eq!(c.v[0], 0xFF);
    assert_eq!(c.v[15], 0);
    let mut c2 = cpu_with_opcode(0x8015);
    c2.v[0] = 0x05;
    c2.v[1] = 0x02;
    c2.do_cycle_with(0);
    assert_eq!(c2.v[0], 0x03);
    assert_eq!(c2.v[15], 1);
}

#[test]
fn reversed_subtract() {
    let mut c = cpu_with_opcode(0x8017);
    c.v[0] = 0x02;
    c.v[1] = 0x05;
    c.do_cycle_with(0);
    assert_eq!(c.v[0], 0x03);
    assert_eq!(c.v[15], 1);
    let mut c2 = cpu_with_opcode(0x8017);
    c2.v[0] = 0x05;
    c2.v[1] = 0x02;
    c2.do_cycle_with(0);
    assert_eq!(c2.v[0], 0xFD);
    assert_eq!(c2.v[15], 0);
}

#[test]
fn shift_right_keeps_the_low_bit() {
    let mut c = cpu_with_opcode(0x8106);
    c.v[1] = 0x05;
    c.do_cycle_with(0);
    assert_eq!(c.v[1], 0x02);
    assert_eq!(c.v[15], 1);
}

#[test]
fn shift_left_flags_bit_three() {
    // this machine's left shift takes the flag from bit 3 of the
    // pre-shift value, not from the conventional bit 7
    let mut c = cpu_with_opcode(0x810E);
    c.v[1] = 0x08;
    c.do_cycle_with(0);
    assert_eq!(c.v[1], 0x10);
    assert_eq!(c.v[15], 1);
    let mut c2 = cpu_with_opcode(0x810E);
    c2.v[1] = 0x80;
    c2.do_cycle_with(0);
    assert_eq!(c2.v[1], 0x00);
    assert_eq!(c2.v[15], 0);
}

#[test]
fn set_index_register() {
    let mut c = cpu_with_opcode(0xA123);
    c.do_cycle_with(0);
    assert_eq!(c.index, 0x123);
}

#[test]
fn jump_with_offset_adds_register_zero() {
    let mut c = cpu_with_opcode(0xB300);
    c.v[0] = 0x10;
    c.do_cycle_with(0);
    assert_eq!(c.pc, 0x310);
}

#[test]
fn random_byte_is_masked_by_the_immediate() {
    let mut c = cpu_with_opcode(0xC10F);
    c.do_cycle_with(0xAB);
    assert_eq!(c.v[1], 0x0B);
    let mut c2 = cpu_with_opcode(0xC1FF);
    c2.do_cycle_with(0xAB);
    assert_eq!(c2.v[1], 0xAB);
}

#[test]
fn draw_instruction_reports_collision_in_the_flag() {
    let mut c = cpu_with_opcode(0xD011);
    c.memory[0x300] = 0x80;
    c.index = 0x300;
    c.v[0] = 4; // x
    c.v[1] = 6; // y
    c.do_cycle_with(0);
    assert!(c.display.get_pixel(4, 6));
    assert_eq!(c.v[15], 0);
    assert!(c.draw_flag);
    // drawing again toggles the pixel off and reports the collision
    c.pc = 0x200;
    c.do_cycle_with(0);
    assert!(!c.display.get_pixel(4, 6));
    assert_eq!(c.v[15], 1);
}

#[test]
fn clear_screen_instruction() {
    let mut c = cpu_with_opcode(0x00E0);
    c.display.set_pixel(1, 2, true);
    c.do_cycle_with(0);
    assert!(!c.display.get_pixel(1, 2));
    assert!(c.draw_flag);
    // the dirty flag belongs to the consumer, who resets it after a redraw
    c.draw_flag = false;
    assert!(!c.draw_flag);
}

#[test]
fn skip_on_key_state() {
    let mut c = cpu_with_opcode(0xE19E);
    c.v[1] = 5;
    c.keypad.set_state(vec![5]);
    c.do_cycle_with(0);
    assert_eq!(c.pc, 0x204);

    let mut c2 = cpu_with_opcode(0xE1A1);
    c2.v[1] = 5;
    c2.do_cycle_with(0);
    assert_eq!(c2.pc, 0x204);

    let mut c3 = cpu_with_opcode(0xE19E);
    c3.v[1] = 5;
    c3.do_cycle_with(0);
    assert_eq!(c3.pc, 0x202);
}

#[test]
fn timers_read_write_and_tick() {
    let mut c = cpu_with_opcode(0xF115);
    c.v[1] = 3;
    c.do_cycle_with(0);
    assert_eq!(c.delay, 3);

    c.pc = 0x200;
    c.memory[0x200] = 0xF2;
    c.memory[0x201] = 0x18;
    c.v[2] = 9;
    c.do_cycle_with(0);
    assert_eq!(c.sound, 9);

    c.pc = 0x200;
    c.memory[0x200] = 0xF3;
    c.memory[0x201] = 0x07;
    c.do_cycle_with(0);
    assert_eq!(c.v[3], 3);

    c.tick_timers();
    assert_eq!(c.delay, 2);
    assert_eq!(c.sound, 8);
    c.delay = 0;
    c.tick_timers();
    // a timer at zero stays clamped there
    assert_eq!(c.delay, 0);
    assert_eq!(c.sound, 7);
}

#[test]
fn add_register_to_index_flags_the_memory_bound() {
    let mut c = cpu_with_opcode(0xF11E);
    c.index = 0x0FFE;
    c.v[1] = 0x01;
    c.do_cycle_with(0);
    assert_eq!(c.index, 0x0FFF);
    assert_eq!(c.v[15], 0);
    c.pc = 0x200;
    c.do_cycle_with(0);
    assert_eq!(c.index, 0x1000);
    assert_eq!(c.v[15], 1);
}

#[test]
fn wait_for_key_rewinds_until_a_release() {
    let mut c = cpu_with_opcode(0xF10A);
    c.do_cycle_with(0);
    // no release: the counter rewinds so the poll repeats next cycle
    assert_eq!(c.pc, 0x200);
    c.keypad.set_state(vec![7]);
    c.do_cycle_with(0);
    assert_eq!(c.pc, 0x200);
    c.keypad.set_state(vec![]);
    c.do_cycle_with(0);
    assert_eq!(c.pc, 0x202);
    assert_eq!(c.v[1], 7);
}

#[test]
fn font_lookup_points_at_the_glyph() {
    let mut c = cpu_with_opcode(0xF129);
    c.v[1] = 0x0A;
    c.do_cycle_with(0);
    assert_eq!(c.index, 0x050 + 10 * 5);
    // only the low nibble of the register selects the glyph
    c.pc = 0x200;
    c.v[1] = 0xF3;
    c.do_cycle_with(0);
    assert_eq!(c.index, 0x050 + 3 * 5);
}

#[test]
fn bcd_decomposition() {
    let mut c = cpu_with_opcode(0xF133);
    c.v[1] = 234;
    c.index = 0x300;
    c.do_cycle_with(0);
    assert_eq!(c.memory[0x300], 2);
    assert_eq!(c.memory[0x301], 3);
    assert_eq!(c.memory[0x302], 4);
    c.pc = 0x200;
    c.v[1] = 7;
    c.do_cycle_with(0);
    assert_eq!(c.memory[0x300], 0);
    assert_eq!(c.memory[0x301], 0);
    assert_eq!(c.memory[0x302], 7);
}

#[test]
fn store_and_recall_registers() {
    let mut c = cpu_with_opcode(0xF255);
    c.v[0] = 10;
    c.v[1] = 20;
    c.v[2] = 30;
    c.v[3] = 40; // beyond X: not stored
    c.index = 0x300;
    c.do_cycle_with(0);
    assert_eq!(c.memory[0x300], 10);
    assert_eq!(c.memory[0x301], 20);
    assert_eq!(c.memory[0x302], 30);
    assert_eq!(c.memory[0x303], 0);

    let mut c2 = cpu_with_opcode(0xF165);
    c2.memory[0x300] = 5;
    c2.memory[0x301] = 6;
    c2.memory[0x302] = 7; // beyond X: not recalled
    c2.index = 0x300;
    c2.v[2] = 99;
    c2.do_cycle_with(0);
    assert_eq!(c2.v[0], 5);
    assert_eq!(c2.v[1], 6);
    assert_eq!(c2.v[2], 99);
}

#[test]
fn unrecognized_words_are_no_ops() {
    let mut c = cpu_with_opcode(0x0123);
    let regs = c.v.clone();
    c.do_cycle_with(0);
    assert_eq!(c.pc, 0x202);
    assert_eq!(c.v, regs);
    let mut c2 = cpu_with_opcode(0x8009);
    c2.do_cycle_with(0);
    assert_eq!(c2.pc, 0x202);
}

#[test]
fn do_cycle_draws_its_own_random_byte() {
    // the random byte only feeds the mask instruction; with mask zero the
    // result is pinned whatever the generator returns
    let mut c = cpu_with_opcode(0xC100);
    c.v[1] = 0xEE;
    c.do_cycle();
    assert_eq!(c.v[1], 0x00);
    assert_eq!(c.pc, 0x202);
}
