use rc8::emulator::{Emulator, EmulatorError};

fn run_cycles(emu: &mut Emulator, mut cycles: i32) {
    while cycles > 0 {
        emu.vblank();
        emu.execute().unwrap();
        cycles -= 1;
    }
}

#[test]
fn carry_flag_when_destination_is_flag() {
    let rom: [u8; 6] = [
        0x6F, 0x80, // 0x200: Set VF = 0x80
        0x61, 0x90, // 0x202: Set V1 = 0x90
        0x8F, 0x14, // 0x204: Set VF = VF + V1 (0x110, carries)
    ];

    let mut emu = Emulator::load_rom(&rom[..]);
    run_cycles(&mut emu, 3);
    // the result 0x10 is overwritten by the carry flag, written last
    assert_eq!(emu.V[0xF], 0x01);
}

#[test]
fn no_borrow_on_equal_values() {
    let rom: [u8; 6] = [
        0x60, 0x05, // 0x200: Set V0 = 5
        0x61, 0x05, // 0x202: Set V1 = 5
        0x80, 0x15, // 0x204: Set V0 = V0 - V1
    ];

    let mut emu = Emulator::load_rom(&rom[..]);
    run_cycles(&mut emu, 3);
    assert_eq!(emu.V[0x0], 0x00);
    assert_eq!(emu.V[0xF], 0x01);
}

#[test]
fn bitwise_clears_flag_when_flag_is_destination() {
    let rom: [u8; 6] = [
        0x6F, 0xFF, // 0x200: Set VF = 0xFF
        0x60, 0x0F, // 0x202: Set V0 = 0x0F
        0x8F, 0x03, // 0x204: Set VF = VF ^ V0, then VF = 0
    ];

    let mut emu = Emulator::load_rom(&rom[..]);
    run_cycles(&mut emu, 3);
    assert_eq!(emu.V[0xF], 0x00);
}

#[test]
fn shift_right_same_register() {
    let rom: [u8; 4] = [
        0x60, 0xF0, // 0x200: Set V0 = 0xF0
        0x80, 0x06, // 0x202: Set V0 = V0 >> 1
    ];

    let mut emu = Emulator::load_rom(&rom[..]);
    run_cycles(&mut emu, 2);
    assert_eq!(emu.V[0x0], 0x78);
    assert_eq!(emu.V[0xF], 0x00);
}

#[test]
fn draw_same_sprite_twice_clears() {
    let rom: [u8; 10] = [
        0x60, 0x04, // 0x200: Set V0 = 4
        0x61, 0x00, // 0x202: Set V1 = 0
        0xF2, 0x29, // 0x204: Set I to the glyph of V2 ("0")... V2 = 0
        0xD0, 0x15, // 0x206: Draw[V0, V1], 5 rows
        0xD0, 0x15, // 0x208: Draw[V0, V1], 5 rows again
    ];

    let mut emu = Emulator::load_rom(&rom[..]);
    run_cycles(&mut emu, 4);
    assert!(emu.get_pixel(4, 0));
    assert_eq!(emu.V[0xF], 0x00);

    run_cycles(&mut emu, 1);
    assert_eq!(emu.V[0xF], 0x01);
    for value in emu.screen.iter() {
        assert_eq!(*value, 0x0);
    }
}

#[test]
fn glyph_a_draw_and_redraw() {
    let rom: [u8; 10] = [
        0x60, 0x04, // 0x200: Set V0 = 4
        0x61, 0x00, // 0x202: Set V1 = 0
        0x62, 0x0A, // 0x204: Set V2 = 0xA
        0xF2, 0x29, // 0x206: Set I to the glyph of V2 ("A")
        0xD0, 0x15, // 0x208: Draw[V0, V1], 5 rows
    ];

    let mut emu = Emulator::load_rom(&rom[..]);
    run_cycles(&mut emu, 5);
    assert_eq!(emu.I, 0x032);
    // 5 rows of the "A" glyph, at most 8 columns wide, at x = 4
    assert_eq!(emu.screen[0], 0xF0u64 << 52);
    assert_eq!(emu.screen[1], 0x90u64 << 52);
    assert_eq!(emu.screen[2], 0xF0u64 << 52);
    assert_eq!(emu.screen[3], 0x90u64 << 52);
    assert_eq!(emu.screen[4], 0x90u64 << 52);
    assert_eq!(emu.screen[5], 0);
    assert_eq!(emu.V[0xF], 0x00);

    // drawing the same glyph at the same place again erases it, colliding
    emu.vblank();
    emu.PC = 0x208;
    emu.execute().unwrap();
    assert_eq!(emu.V[0xF], 0x01);
    for value in emu.screen.iter() {
        assert_eq!(*value, 0x0);
    }
}

#[test]
fn sprite_clipped_at_bottom_edge() {
    let rom: [u8; 10] = [
        0x60, 0x00, // 0x200: Set V0 = 0
        0x61, 0x1E, // 0x202: Set V1 = 30
        0x62, 0x00, // 0x204: Set V2 = 0
        0xF2, 0x29, // 0x206: Set I to the glyph of V2 ("0")
        0xD0, 0x15, // 0x208: Draw[V0, V1], 5 rows, 3 fall off the bottom
    ];

    let mut emu = Emulator::load_rom(&rom[..]);
    run_cycles(&mut emu, 5);
    assert_eq!(emu.V[0xF], 0x00);
    assert_eq!(emu.screen[30], 0xF0u64 << 56);
    assert_eq!(emu.screen[31], 0x90u64 << 56);
    for row in 0..30 {
        assert_eq!(emu.screen[row], 0x0);
    }
}

#[test]
fn draw_waits_for_vblank() {
    let rom: [u8; 2] = [
        0xD0, 0x15, // 0x200: Draw[V0, V1], 5 rows
    ];

    let mut emu = Emulator::load_rom(&rom[..]);
    // no vblank pulse yet: the instruction re-schedules itself
    emu.execute().unwrap();
    assert_eq!(emu.PC, 0x200);
    emu.execute().unwrap();
    assert_eq!(emu.PC, 0x200);

    // one pulse lets exactly one draw through
    emu.vblank();
    emu.execute().unwrap();
    assert_eq!(emu.PC, 0x202);
}

#[test]
fn invalid_opcode_reported() {
    let rom: [u8; 2] = [
        0x5A, 0xA1, // 0x200: no such instruction (5xyn with n != 0)
    ];

    let mut emu = Emulator::load_rom(&rom[..]);
    assert!(matches!(
        emu.execute(),
        Err(EmulatorError::InvalidOpcode(0x5A, 0xA1, 0x200))
    ));
    assert_eq!(emu.PC, 0x202);
}

#[test]
fn machine_subroutine_reported() {
    let rom: [u8; 2] = [
        0x01, 0x23, // 0x200: machine-code call, unsupported
    ];

    let mut emu = Emulator::load_rom(&rom[..]);
    assert!(matches!(
        emu.execute(),
        Err(EmulatorError::MachineSubroutine(0x200))
    ));
}

#[test]
fn store_load_round_trip() {
    let rom: [u8; 20] = [
        0x60, 0x0B, // 0x200: Set V0 = 11
        0x61, 0x16, // 0x202: Set V1 = 22
        0x62, 0x21, // 0x204: Set V2 = 33
        0xA3, 0x00, // 0x206: Set I = 0x300
        0xF2, 0x55, // 0x208: Store V0..V2 at I
        0x60, 0x00, // 0x20A: Set V0 = 0
        0x61, 0x00, // 0x20C: Set V1 = 0
        0x62, 0x00, // 0x20E: Set V2 = 0
        0xA3, 0x00, // 0x210: Set I = 0x300
        0xF2, 0x65, // 0x212: Load V0..V2 from I
    ];

    let mut emu = Emulator::load_rom(&rom[..]);
    run_cycles(&mut emu, 5);
    assert_eq!(emu.I, 0x303);
    assert_eq!(emu.memory[0x300], 11);
    assert_eq!(emu.memory[0x301], 22);
    assert_eq!(emu.memory[0x302], 33);

    run_cycles(&mut emu, 4);
    assert_eq!(emu.V[0x0], 0);

    run_cycles(&mut emu, 1);
    assert_eq!(emu.V[0x0], 11);
    assert_eq!(emu.V[0x1], 22);
    assert_eq!(emu.V[0x2], 33);
    assert_eq!(emu.I, 0x303);
}

#[test]
fn sound_gate_needs_timer_above_one() {
    let rom: [u8; 4] = [
        0x60, 0x02, // 0x200: Set V0 = 2
        0xF0, 0x18, // 0x202: Set ST = V0
    ];

    let mut emu = Emulator::load_rom(&rom[..]);
    assert!(!emu.sound_active());
    run_cycles(&mut emu, 2);
    assert_eq!(emu.ST, 2);
    assert!(emu.sound_active());
    emu.decrease_timers();
    // one is not enough for tone, a quirk of the reference hardware
    assert_eq!(emu.ST, 1);
    assert!(!emu.sound_active());
}

#[test]
fn timers_count_down_and_stop_at_zero() {
    let rom: [u8; 4] = [
        0x60, 0x02, // 0x200: Set V0 = 2
        0xF0, 0x15, // 0x202: Set DT = V0
    ];

    let mut emu = Emulator::load_rom(&rom[..]);
    run_cycles(&mut emu, 2);
    assert_eq!(emu.DT, 2);
    assert_eq!(emu.ST, 0);

    emu.decrease_timers();
    assert_eq!(emu.DT, 1);
    emu.decrease_timers();
    assert_eq!(emu.DT, 0);
    emu.decrease_timers();
    assert_eq!(emu.DT, 0);
    assert_eq!(emu.ST, 0);
}

#[test]
fn screen_change_check_updates_snapshot() {
    let rom: [u8; 10] = [
        0x60, 0x00, // 0x200: Set V0 = 0
        0x61, 0x00, // 0x202: Set V1 = 0
        0x62, 0x00, // 0x204: Set V2 = 0
        0xF2, 0x29, // 0x206: Set I to the glyph of V2 ("0")
        0xD0, 0x15, // 0x208: Draw[V0, V1]
    ];

    let mut emu = Emulator::load_rom(&rom[..]);
    assert!(!emu.screen_changed());

    run_cycles(&mut emu, 5);
    assert!(emu.screen_changed());
    assert!(!emu.screen_changed());
}

#[test]
fn pixel_query_wraps_both_coordinates() {
    let rom: [u8; 10] = [
        0x60, 0x04, // 0x200: Set V0 = 4
        0x61, 0x00, // 0x202: Set V1 = 0
        0x62, 0x00, // 0x204: Set V2 = 0
        0xF2, 0x29, // 0x206: Set I to the glyph of V2 ("0")
        0xD0, 0x15, // 0x208: Draw[V0, V1]
    ];

    let mut emu = Emulator::load_rom(&rom[..]);
    run_cycles(&mut emu, 5);
    assert!(emu.get_pixel(4, 0));
    assert!(emu.get_pixel(4 + 64, 0));
    assert!(emu.get_pixel(4, 32));
    assert!(!emu.get_pixel(3, 0));
}

#[test]
fn key_index_is_masked() {
    let rom: [u8; 6] = [
        0x60, 0x0E, // 0x200: Set V0 = 0x0E
        0xE0, 0x9E, // 0x202: Skip if key on V0 is pressed
        0x61, 0x01, // 0x204: Set V1 = 1 (skipped)
    ];

    let mut emu = Emulator::load_rom(&rom[..]);
    // key index 0x1E is masked to 0xE
    emu.set_key(0x1E, true);
    run_cycles(&mut emu, 2);
    assert_eq!(emu.V[0x1], 0x00);
    assert_eq!(emu.PC, 0x206);
}

#[test]
fn released_key_latch_is_masked() {
    let rom: [u8; 2] = [
        0xF0, 0x0A, // 0x200: Set V0 = <released key> (wait)
    ];

    let mut emu = Emulator::load_rom(&rom[..]);
    // key index 0x1A is masked to 0xA, in the latch as in the key flags
    emu.set_key(0x1A, true);
    emu.set_key(0x1A, false);
    run_cycles(&mut emu, 1);
    assert_eq!(emu.V[0x0], 0x0A);
    assert_eq!(emu.PC, 0x202);
}

#[test]
fn step_guard_catches_memory_overrun() {
    let rom: [u8; 4] = [
        0xAF, 0xFF, // 0x200: Set I = 0xFFF
        0xF5, 0x55, // 0x202: Store V0..V5 at I, which would leave memory
    ];

    let mut emu = Emulator::load_rom(&rom[..]);
    assert!(emu.can_step());
    emu.execute().unwrap();
    assert_eq!(emu.I, 0xFFF);
    assert!(!emu.can_step());
}

#[test]
fn empty_program_loads_font_only() {
    let rom: [u8; 0] = [];
    let emu = Emulator::load_rom(&rom[..]);
    assert_eq!(emu.PC, 0x200);
    assert_eq!(emu.memory[0], 0xF0);
    assert_eq!(emu.memory[79], 0x80);
    assert_eq!(emu.memory[80], 0x00);
    assert_eq!(emu.memory[0x200], 0x00);
    assert_eq!(emu.memory[4095], 0x00);
}
