use chip8::{Chip8, Chip8Error, FRAME_SIZE, MEMORY_SIZE, NEW_FRAME_START, STACK_LIMIT, STACK_START};

#[test]
fn fresh_machine_layout() {
    let chip8 = Chip8::new();
    assert_eq!(chip8.program_counter(), 0x200);
    assert_eq!(chip8.stack_pointer(), STACK_START);
    assert_eq!(chip8.display_buffer_size(), FRAME_SIZE);
    let mem = chip8.memory_ptr();
    assert_eq!(mem.len(), MEMORY_SIZE);
    // Font glyphs for 0 and F sit in the font region; everything else is zero.
    assert_eq!(mem[0x50], 0xF0);
    assert_eq!(mem[0x50 + 79], 0x80);
    assert_eq!(mem[0x200], 0);
    for x in 0..16 {
        assert_eq!(chip8.register(x), 0);
    }
}

#[test]
fn loads_games() {
    let mut chip8 = Chip8::new();
    chip8.load_rom("TETRIS").unwrap();
    let tetris = chip8::games::Game::new("tetris").unwrap().code;
    let mem = chip8.memory_ptr();
    assert_eq!(&mem[0x200..(0x200 + tetris.len())], &tetris[..]);

    chip8.load_rom("brix").unwrap();
    let brix = chip8::games::Game::new("BRIX").unwrap().code;
    let mem = chip8.memory_ptr();
    assert_eq!(&mem[0x200..(0x200 + brix.len())], &brix[..]);
}

#[test]
fn unknown_title_leaves_memory_untouched() {
    let mut chip8 = Chip8::new();
    chip8.load_rom("TETRIS").unwrap();
    let before = chip8.memory_ptr().clone();
    let r = chip8.load_rom("definitely not a game");
    assert_eq!(r, Err(Chip8Error::UnknownProgram));
    assert_eq!(chip8.memory_ptr(), &before);
    assert_eq!(chip8.program_counter(), 0x200);
}

#[test]
fn title_match_is_case_insensitive_and_exact() {
    assert!(chip8::games::Game::new("PoNg2").is_ok());
    assert!(chip8::games::Game::new("pong 2").is_err());
    assert!(chip8::games::Game::new("pon").is_err());
    assert!(chip8::games::Game::new("").is_err());
    let g = chip8::games::Game::new("OPCODE_TEST").unwrap();
    assert!(g.load_store_quirk);
    assert!(g.shift_quirk);
}

#[test]
fn add_register_overflows_and_sets_flag() {
    let mut chip8 = Chip8::new();
    chip8.load_from_byte(0, 0xF0);
    chip8.add_registers(0, 0x0F);
    assert_eq!(chip8.register(0), 0xFF);
    assert_eq!(chip8.register(0xF), 0);

    chip8.add_registers(0, 0x0F);
    assert_eq!(chip8.register(0), 0x0E);
    assert_eq!(chip8.register(0xF), 1);
}

#[test]
fn add_carry_boundary() {
    let mut chip8 = Chip8::new();
    chip8.load_from_byte(2, 0xFF);
    chip8.add_registers(2, 0xFF);
    assert_eq!(chip8.register(2), 0xFE);
    assert_eq!(chip8.register(0xF), 1);
    chip8.load_from_byte(3, 0x00);
    chip8.add_registers(3, 0x00);
    assert_eq!(chip8.register(3), 0);
    assert_eq!(chip8.register(0xF), 0);
}

#[test]
fn check_sub_vy_from_vx() {
    // Not-borrow semantics: VF is 1 exactly when the minuend is at least the
    // subtrahend; the result wraps modulo 256.
    let mut chip8 = Chip8::new();
    chip8.load_from_byte(0, 2);
    chip8.load_from_byte(1, 1);
    chip8.write_memory(0x200, 0x80);
    chip8.write_memory(0x201, 0x15);
    chip8.tick().unwrap();
    assert_eq!(chip8.register(0), 1);
    assert_eq!(chip8.register(0xF), 1);
    chip8.set_pc(0x200);
    chip8.tick().unwrap();
    assert_eq!(chip8.register(0), 0);
    assert_eq!(chip8.register(0xF), 1);
    chip8.set_pc(0x200);
    chip8.tick().unwrap();
    assert_eq!(chip8.register(0), 0xFF);
    assert_eq!(chip8.register(0xF), 0);
}

#[test]
fn check_sub_vx_from_vy() {
    let mut chip8 = Chip8::new();
    chip8.load_from_byte(0, 1);
    chip8.load_from_byte(1, 2);
    chip8.write_memory(0x200, 0x80);
    chip8.write_memory(0x201, 0x17);
    chip8.tick().unwrap();
    assert_eq!(chip8.register(0), 1);
    assert_eq!(chip8.register(0xF), 1);
    chip8.load_from_byte(0, 3);
    chip8.set_pc(0x200);
    chip8.tick().unwrap();
    assert_eq!(chip8.register(0), 0xFF);
    assert_eq!(chip8.register(0xF), 0);
}

#[test]
fn shift_right_with_quirk_reads_vx_only() {
    let mut chip8 = Chip8::new();
    // The default quirk flags leave the shift quirk on: Vy is ignored.
    chip8.load_from_byte(0, 0x05);
    chip8.load_from_byte(1, 0xFF);
    chip8.shift_right(0, 1);
    assert_eq!(chip8.register(0), 0x02);
    assert_eq!(chip8.register(0xF), 1);
    assert_eq!(chip8.register(1), 0xFF);
}

#[test]
fn shift_left_with_quirk_reads_vx_only() {
    let mut chip8 = Chip8::new();
    chip8.load_from_byte(0, 0x81);
    chip8.load_from_byte(1, 0x00);
    chip8.shift_left(0, 1);
    assert_eq!(chip8.register(0), 0x02);
    assert_eq!(chip8.register(0xF), 1);
}

#[test]
fn shift_without_quirk_derives_from_vy() {
    let mut chip8 = Chip8::new();
    chip8.set_quirks(true, false);
    chip8.load_from_byte(0, 0x05);
    chip8.load_from_byte(1, 0x06);
    chip8.shift_right(0, 1);
    assert_eq!(chip8.register(0), 0x03);
    assert_eq!(chip8.register(0xF), 0);
    assert_eq!(chip8.register(1), 0x06);

    chip8.load_from_byte(2, 0x00);
    chip8.load_from_byte(3, 0xC0);
    chip8.shift_left(2, 3);
    assert_eq!(chip8.register(2), 0x80);
    assert_eq!(chip8.register(0xF), 1);
}

#[test]
fn draws_correctly() {
    let mut chip8 = Chip8::new();
    chip8.set_I(0);
    let e: [u8; 5] = [0xF0, 0x80, 0xF0, 0x80, 0xF0];
    for k in 0..5 {
        chip8.write_memory(k, e[k]);
    }
    chip8.draw(0, 0, 5).unwrap();
    let mem = chip8.memory_ptr();
    for k in 0..5 {
        assert_eq!(mem[NEW_FRAME_START + 8 * k], e[k]);
    }
    assert_eq!(chip8.register(0xF), 0);

    chip8.draw(0, 0, 5).unwrap();
    let mem = chip8.memory_ptr();
    for k in 0..5 {
        assert_eq!(mem[NEW_FRAME_START + 8 * k], 0);
    }
    assert_eq!(chip8.register(0xF), 1);
}

#[test]
fn draw_wraps_coordinates() {
    let mut chip8 = Chip8::new();
    chip8.set_I(0);
    chip8.write_memory(0, 0x80); // a single pixel, top-left bit of the row
    chip8.draw(64, 32, 1).unwrap(); // wraps to (0, 0)
    let mem = chip8.memory_ptr();
    assert_eq!(mem[NEW_FRAME_START], 0x80);
    assert_eq!(chip8.register(0xF), 0);
}

#[test]
fn draw_rejects_sprite_reaching_framebuffer() {
    let mut chip8 = Chip8::new();
    chip8.set_I(0xFFF);
    let r = chip8.draw(0, 0, 5);
    assert_eq!(r, Err(Chip8Error::AddressOutOfBounds));
}

#[test]
fn clear_display_decays_one_step() {
    let mut chip8 = Chip8::new();
    chip8.set_I(0);
    let e: [u8; 5] = [0xF0, 0x80, 0xF0, 0x80, 0xF0];
    for k in 0..5 {
        chip8.write_memory(k, e[k]);
    }
    chip8.draw(0, 0, 5).unwrap();
    chip8.clear_display();
    // Immediately after the clear, the display frame still shows the sprite.
    let disp = chip8.display_buffer_ptr();
    for k in 0..5 {
        assert_eq!(disp[8 * k], e[k]);
    }
    // The authoritative frame is already clear, so one more draw cycle
    // propagates the blend and the display goes all-zero.
    chip8.draw(0, 0, 0).unwrap();
    let disp = chip8.display_buffer_ptr();
    for k in 0..FRAME_SIZE {
        assert_eq!(disp[k], 0);
    }
}

#[test]
fn return_reverts_call() {
    let mut chip8 = Chip8::new();
    chip8.write_memory(0x200, 0x24);
    chip8.write_memory(0x201, 0x00);
    chip8.tick().unwrap();
    assert_eq!(chip8.program_counter(), 0x400);
    chip8.write_memory(0x400, 0x00);
    chip8.write_memory(0x401, 0xEE);
    chip8.tick().unwrap();
    assert_eq!(chip8.program_counter(), 0x202);
    assert_eq!(chip8.stack_pointer(), STACK_START);
}

#[test]
fn stack_overflow_is_fatal_not_corrupting() {
    let mut chip8 = Chip8::new();
    for _ in 0..12 {
        chip8.call_subroutine(0x300).unwrap();
    }
    assert_eq!(chip8.stack_pointer(), STACK_LIMIT);
    let before = chip8.memory_ptr().clone();
    let r = chip8.call_subroutine(0x300);
    assert_eq!(r, Err(Chip8Error::StackOverflow));
    // The failed call changed nothing: no write landed below the stack region.
    assert_eq!(chip8.memory_ptr(), &before);
    assert_eq!(chip8.stack_pointer(), STACK_LIMIT);
}

#[test]
fn return_on_empty_stack_underflows() {
    let mut chip8 = Chip8::new();
    let r = chip8.return_from_subroutine();
    assert_eq!(r, Err(Chip8Error::StackUnderflow));
    assert_eq!(chip8.stack_pointer(), STACK_START);
}

#[test]
fn misaligned_pc_is_fatal() {
    let mut chip8 = Chip8::new();
    chip8.set_pc(0x201);
    assert_eq!(chip8.tick(), Err(Chip8Error::MisalignedProgramCounter));
}

#[test]
fn pc_out_of_memory_is_fatal() {
    let mut chip8 = Chip8::new();
    chip8.set_pc(0x1000);
    assert_eq!(chip8.tick(), Err(Chip8Error::AddressOutOfBounds));
}

#[test]
fn unknown_instruction_is_fatal() {
    let mut chip8 = Chip8::new();
    chip8.write_memory(0x200, 0xF0);
    chip8.write_memory(0x201, 0xFF);
    assert_eq!(chip8.tick(), Err(Chip8Error::UnknownInstruction));

    let mut chip8 = Chip8::new();
    chip8.write_memory(0x200, 0x50);
    chip8.write_memory(0x201, 0x11); // 5xy1 is not in the table
    assert_eq!(chip8.tick(), Err(Chip8Error::UnknownInstruction));

    let mut chip8 = Chip8::new();
    chip8.write_memory(0x200, 0x80);
    chip8.write_memory(0x201, 0x18); // 8xy8 is not in the table
    assert_eq!(chip8.tick(), Err(Chip8Error::UnknownInstruction));
}

#[test]
fn key_out_of_range_is_rejected() {
    let mut chip8 = Chip8::new();
    assert_eq!(chip8.press_key(16), Err(Chip8Error::KeyOutOfRange));
    assert_eq!(chip8.release_key(99), Err(Chip8Error::KeyOutOfRange));
    assert_eq!(chip8.press_key(15), Ok(()));
}

#[test]
fn key_skips_and_block() {
    let mut chip8 = Chip8::new();
    chip8.press_key(5).unwrap();
    chip8.set_pc(0x300);
    chip8.skip_if_key_is_pressed(5);
    assert_eq!(chip8.program_counter(), 0x302);
    chip8.skip_if_key_is_not_pressed(5);
    assert_eq!(chip8.program_counter(), 0x302);
    chip8.release_key(5).unwrap();
    chip8.skip_if_key_is_not_pressed(5);
    assert_eq!(chip8.program_counter(), 0x304);
    // The blocking wait rewinds PC while the key is up, and leaves it alone
    // once the key is down.
    chip8.block_until_key_is_pressed(5);
    assert_eq!(chip8.program_counter(), 0x302);
    chip8.press_key(5).unwrap();
    chip8.block_until_key_is_pressed(5);
    assert_eq!(chip8.program_counter(), 0x302);
}

#[test]
fn timers_saturate_at_zero() {
    let mut chip8 = Chip8::new();
    chip8.set_delay_timer(2);
    chip8.set_sound_timer(1);
    chip8.decrement_timers();
    assert_eq!(chip8.delay_timer(), 1);
    assert_eq!(chip8.sound_timer(), 0);
    chip8.decrement_timers();
    assert_eq!(chip8.delay_timer(), 0);
    assert_eq!(chip8.sound_timer(), 0);
    chip8.decrement_timers();
    assert_eq!(chip8.delay_timer(), 0);
    assert_eq!(chip8.sound_timer(), 0);
}

#[test]
fn store_bcd_decomposes_digits() {
    let mut chip8 = Chip8::new();
    chip8.set_I(0x300);
    chip8.store_bcd(237).unwrap();
    let mem = chip8.memory_ptr();
    assert_eq!(mem[0x300], 2);
    assert_eq!(mem[0x301], 3);
    assert_eq!(mem[0x302], 7);

    chip8.set_I(0xFFE);
    assert_eq!(chip8.store_bcd(5), Err(Chip8Error::AddressOutOfBounds));
}

#[test]
fn bulk_store_and_load_with_quirk_keep_index() {
    let mut chip8 = Chip8::new();
    for x in 0..4 {
        chip8.load_from_byte(x, (x as u8) + 10);
    }
    chip8.set_I(0x320);
    chip8.bulk_store(3).unwrap();
    let mem = chip8.memory_ptr();
    assert_eq!(&mem[0x320..0x324], &[10, 11, 12, 13]);
    // The load/store quirk holds the index register in place.
    assert_eq!(chip8.index_register(), 0x320);

    let mut other = Chip8::new();
    other.write_memory(0x320, 42);
    other.write_memory(0x321, 43);
    other.set_I(0x320);
    other.bulk_load(1).unwrap();
    assert_eq!(other.register(0), 42);
    assert_eq!(other.register(1), 43);
    assert_eq!(other.register(2), 0);
    assert_eq!(other.index_register(), 0x320);
}

#[test]
fn bulk_transfer_without_quirk_advances_index() {
    let mut chip8 = Chip8::new();
    chip8.set_quirks(false, true);
    chip8.load_from_byte(0, 7);
    chip8.set_I(0x320);
    chip8.bulk_store(0).unwrap();
    assert_eq!(chip8.index_register(), 0x321);

    chip8.set_I(0xFFD);
    assert_eq!(chip8.bulk_store(5), Err(Chip8Error::AddressOutOfBounds));
    assert_eq!(chip8.index_register(), 0xFFD);
}

#[test]
fn random_byte_respects_mask() {
    let mut chip8 = Chip8::new();
    for _ in 0..16 {
        chip8.set_random_number(3, 0x0F);
        assert!(chip8.register(3) <= 0x0F);
        chip8.set_random_number(4, 0x00);
        assert_eq!(chip8.register(4), 0);
    }
}

#[test]
fn font_lookup_points_at_glyphs() {
    let mut chip8 = Chip8::new();
    chip8.load_font_location_in_I(0);
    assert_eq!(chip8.index_register(), 0x50);
    let first = chip8.memory_ptr()[chip8.index_register()];
    assert_eq!(first, 0xF0);
    chip8.load_font_location_in_I(0xE);
    assert_eq!(chip8.index_register(), 0x50 + 14 * 5);
}

#[test]
fn jump_and_skip_instructions_move_pc() {
    let mut chip8 = Chip8::new();
    chip8.write_memory(0x200, 0x12); // 1nnn: jump 0x250
    chip8.write_memory(0x201, 0x50);
    chip8.tick().unwrap();
    assert_eq!(chip8.program_counter(), 0x250);

    chip8.load_from_byte(0, 0x33);
    chip8.write_memory(0x250, 0x30); // 3xkk with V0 == 0x33: skip
    chip8.write_memory(0x251, 0x33);
    chip8.tick().unwrap();
    assert_eq!(chip8.program_counter(), 0x254);

    chip8.write_memory(0x254, 0xB0); // Bnnn: jump to 0x080 + V0
    chip8.write_memory(0x255, 0x80);
    chip8.tick().unwrap();
    assert_eq!(chip8.program_counter(), 0x080 + 0x33);
}

#[test]
fn increment_i_wraps_sixteen_bits() {
    let mut chip8 = Chip8::new();
    chip8.set_I(0xFFF);
    chip8.increment_i(0xFF);
    assert_eq!(chip8.index_register(), 0xFFF + 0xFF);
    // Push it past the 16-bit boundary: the index register wraps.
    for _ in 0..246 {
        chip8.increment_i(0xFF);
    }
    assert_eq!(chip8.index_register(), (0xFFF + 247 * 0xFF) % 0x10000);
}
