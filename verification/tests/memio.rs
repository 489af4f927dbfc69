use vga_console::memio::{
    cast_pod, cast_slice, mmio_inb, mmio_outb, vmemread, vmemread_into, vmemset, vmemwrite,
    vmemwrite_iter, vwrite, Access,
};
use vga_console::tty::vgatext::{Character, TextColor};

#[test]
fn vmemwrite_stores_bytes_in_address_order() {
    let accesses = vmemwrite(0x1000, &[7, 8, 9], 3);
    assert_eq!(
        accesses,
        vec![
            Access::Write { address: 0x1000, value: 7 },
            Access::Write { address: 0x1001, value: 8 },
            Access::Write { address: 0x1002, value: 9 },
        ]
    );
}

#[test]
fn vmemwrite_stops_after_count_bytes() {
    let accesses = vmemwrite(0x2000, &[1, 2, 3, 4, 5], 2);
    assert_eq!(
        accesses,
        vec![
            Access::Write { address: 0x2000, value: 1 },
            Access::Write { address: 0x2001, value: 2 },
        ]
    );
    assert_eq!(vmemwrite(0x2000, &[1, 2, 3], 0), vec![]);
}

#[test]
fn vmemwrite_reaches_the_last_address() {
    let accesses = vmemwrite(u64::MAX - 1, &[0xaa, 0xbb], 2);
    assert_eq!(
        accesses,
        vec![
            Access::Write { address: u64::MAX - 1, value: 0xaa },
            Access::Write { address: u64::MAX, value: 0xbb },
        ]
    );
}

#[test]
fn vmemwrite_iter_draws_count_bytes() {
    let source = vec![10u8, 20, 30, 40];
    let accesses = vmemwrite_iter(0x3000, source.into_iter(), 3);
    assert_eq!(
        accesses,
        vec![
            Access::Write { address: 0x3000, value: 10 },
            Access::Write { address: 0x3001, value: 20 },
            Access::Write { address: 0x3002, value: 30 },
        ]
    );
}

#[test]
fn vmemwrite_iter_takes_a_lazy_source() {
    let accesses = vmemwrite_iter(0x10, (0u8..200).map(|b| b.wrapping_mul(3)), 4);
    assert_eq!(
        accesses,
        vec![
            Access::Write { address: 0x10, value: 0 },
            Access::Write { address: 0x11, value: 3 },
            Access::Write { address: 0x12, value: 6 },
            Access::Write { address: 0x13, value: 9 },
        ]
    );
}

#[test]
fn vmemread_loads_in_address_order() {
    assert_eq!(
        vmemread(0xb8000, 3),
        vec![
            Access::Read { address: 0xb8000 },
            Access::Read { address: 0xb8001 },
            Access::Read { address: 0xb8002 },
        ]
    );
    assert_eq!(vmemread(0xb8000, 0), vec![]);
}

#[test]
fn vmemread_into_fills_the_front_of_the_buffer() {
    let mut dst = [0xffu8; 5];
    vmemread_into(&mut dst, &[1, 2, 3, 4], 3);
    assert_eq!(dst, [1, 2, 3, 0xff, 0xff]);
}

#[test]
fn vmemset_repeats_the_value() {
    assert_eq!(
        vmemset(0x500, 0x5a, 3),
        vec![
            Access::Write { address: 0x500, value: 0x5a },
            Access::Write { address: 0x501, value: 0x5a },
            Access::Write { address: 0x502, value: 0x5a },
        ]
    );
    assert_eq!(vmemset(0x500, 0x5a, 0), vec![]);
}

#[test]
fn cast_pod_gives_character_then_attribute() {
    assert_eq!(cast_pod(&Character::new(b'A', TextColor(0x1f))), vec![0x41, 0x1f]);
    assert_eq!(cast_pod(&TextColor(0x2e)), vec![0x2e]);
    assert_eq!(cast_pod(&0x77u8), vec![0x77]);
}

#[test]
fn cast_slice_has_count_times_size_bytes() {
    let cells = [
        Character::new(b'a', TextColor(0x01)),
        Character::new(b'b', TextColor(0x02)),
        Character::new(b'c', TextColor(0x03)),
    ];
    let bytes = cast_slice(&cells);
    assert_eq!(bytes.len(), 3 * 2);
    assert_eq!(bytes, vec![b'a', 0x01, b'b', 0x02, b'c', 0x03]);
    let none: [Character; 0] = [];
    assert_eq!(cast_slice(&none), Vec::<u8>::new());
}

#[test]
fn vwrite_stores_the_bytes_of_a_value() {
    assert_eq!(
        vwrite(0xb8000, &Character::new(b'Z', TextColor(0x4f))),
        vec![
            Access::Write { address: 0xb8000, value: b'Z' },
            Access::Write { address: 0xb8001, value: 0x4f },
        ]
    );
}

#[test]
fn port_accesses_name_port_and_value() {
    assert_eq!(mmio_outb(0x3f8, b'!'), Access::Out { port: 0x3f8, value: b'!' });
    assert_eq!(mmio_inb(0x3da), Access::In { port: 0x3da });
}
