use vga_console::memio::Access;
use vga_console::tty::vgatext::{
    reset, valid_pos, vga_init, vga_init_finish, write_at, write_color_at, writechar, Character,
    TextColor, CELLS, HEIGHT, VIDEO_MEMORY, WIDTH,
};

#[test]
fn display_has_eighty_columns_and_twenty_five_rows() {
    assert_eq!(WIDTH, 80);
    assert_eq!(HEIGHT, 25);
    assert_eq!(CELLS, WIDTH * HEIGHT);
    assert_eq!(VIDEO_MEMORY, 0xb8000);
}

#[test]
fn vga_init_hides_cursor_and_reads_mode_register() {
    assert_eq!(
        vga_init(),
        vec![
            Access::Out { port: 0x3d4, value: 0x0a },
            Access::Out { port: 0x3d5, value: 0x20 },
            Access::In { port: 0x3da },
            Access::Out { port: 0x3c0, value: 0x30 },
            Access::In { port: 0x3c1 },
        ]
    );
}

#[test]
fn vga_init_finish_clears_the_blink_bit() {
    assert_eq!(vga_init_finish(0xff), vec![Access::Out { port: 0x3c0, value: 0xf7 }]);
    assert_eq!(vga_init_finish(0x0c), vec![Access::Out { port: 0x3c0, value: 0x04 }]);
    assert_eq!(vga_init_finish(0x08), vec![Access::Out { port: 0x3c0, value: 0x00 }]);
    assert_eq!(vga_init_finish(0x04), vec![Access::Out { port: 0x3c0, value: 0x04 }]);
}

#[test]
fn vga_init_finish_keeps_every_other_bit() {
    for mode in 0u8..=255 {
        let accesses = vga_init_finish(mode);
        assert_eq!(accesses.len(), 1);
        assert_eq!(accesses[0], Access::Out { port: 0x3c0, value: mode & !0x08 });
    }
}

#[test]
fn writechar_stores_character_then_attribute() {
    assert_eq!(
        writechar((0, 0), Character::new(b'A', TextColor(0x1f))),
        vec![
            Access::Write { address: 0xb8000, value: b'A' },
            Access::Write { address: 0xb8001, value: 0x1f },
        ]
    );
}

#[test]
fn writechar_computes_the_address_of_the_cell() {
    // (1 + 1 * 80) * 2 = 162
    assert_eq!(
        writechar((1, 1), Character::new(b'x', TextColor(0x07))),
        vec![
            Access::Write { address: 0xb80a2, value: b'x' },
            Access::Write { address: 0xb80a3, value: 0x07 },
        ]
    );
    // (79 + 24 * 80) * 2 = 3998
    assert_eq!(
        writechar((79, 24), Character::new(b'y', TextColor(0x70))),
        vec![
            Access::Write { address: 0xb8f9e, value: b'y' },
            Access::Write { address: 0xb8f9f, value: 0x70 },
        ]
    );
}

#[test]
fn write_at_runs_over_the_end_of_a_row() {
    let cells = [
        Character::new(b'a', TextColor(0x01)),
        Character::new(b'b', TextColor(0x02)),
        Character::new(b'c', TextColor(0x03)),
    ];
    // (78 + 3 * 80) * 2 = 636 = 0x27c
    assert_eq!(
        write_at((78, 3), &cells),
        vec![
            Access::Write { address: 0xb827c, value: b'a' },
            Access::Write { address: 0xb827d, value: 0x01 },
            Access::Write { address: 0xb827e, value: b'b' },
            Access::Write { address: 0xb827f, value: 0x02 },
            Access::Write { address: 0xb8280, value: b'c' },
            Access::Write { address: 0xb8281, value: 0x03 },
        ]
    );
}

#[test]
fn write_at_takes_a_run_that_ends_with_the_display() {
    let cells = [Character::new(b'!', TextColor(0x0f)); 2];
    let accesses = write_at((78, 24), &cells);
    assert_eq!(accesses.len(), 4);
    assert_eq!(accesses[0], Access::Write { address: 0xb8f9c, value: b'!' });
    assert_eq!(accesses[3], Access::Write { address: 0xb8f9f, value: 0x0f });
    assert_eq!(write_at((79, 24), &[]), vec![]);
}

#[test]
fn write_color_at_gives_every_character_the_color() {
    assert_eq!(
        write_color_at((2, 0), b"ok", TextColor(0x2a)),
        vec![
            Access::Write { address: 0xb8004, value: b'o' },
            Access::Write { address: 0xb8005, value: 0x2a },
            Access::Write { address: 0xb8006, value: b'k' },
            Access::Write { address: 0xb8007, value: 0x2a },
        ]
    );
    assert_eq!(write_color_at((0, 0), b"", TextColor(0x2a)), vec![]);
}

#[test]
fn write_color_at_agrees_with_write_at() {
    let text = b"same cells";
    let color = TextColor(0x5e);
    let cells: Vec<Character> = text.iter().map(|b| Character::new(*b, color)).collect();
    assert_eq!(write_color_at((75, 10), text, color), write_at((75, 10), &cells));
}

#[test]
fn reset_zeroes_all_of_video_memory() {
    let accesses = reset();
    assert_eq!(accesses.len(), 4000);
    for (i, access) in accesses.iter().enumerate() {
        assert_eq!(*access, Access::Write { address: 0xb8000 + i as u64, value: 0 });
    }
}

#[test]
fn valid_pos_holds_exactly_on_the_display() {
    for x in 0..200 {
        for y in 0..60 {
            assert_eq!(valid_pos((x, y)), x < 80 && y < 25);
        }
    }
    assert!(valid_pos((79, 24)));
    assert!(!valid_pos((80, 0)));
    assert!(!valid_pos((0, 25)));
    assert!(!valid_pos((usize::MAX, 0)));
    assert!(!valid_pos((0, usize::MAX)));
}
