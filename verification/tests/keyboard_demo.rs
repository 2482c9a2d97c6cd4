use os_kernel::devices::cga::{CGA, CGA_COLUMNS, CGA_STD_ATTR};
use os_kernel::user::keyboard_demo::{run, KEY_RETURN};

fn cell(cga: &CGA, x: usize, y: usize) -> (u8, u8) {
    let pos = (y * CGA_COLUMNS + x) * 2;
    (cga.cells()[pos], cga.cells()[pos + 1])
}

#[test]
fn printable_keys_are_echoed_in_white_on_black() {
    let mut cga = CGA::new();
    cga.clear();
    run(&mut cga, &vec![b'o', b'k', b' ', b'~']);
    assert_eq!(cell(&cga, 0, 0), (b'o', 0x0f));
    assert_eq!(cell(&cga, 1, 0), (b'k', 0x0f));
    assert_eq!(cell(&cga, 2, 0), (b' ', 0x0f));
    assert_eq!(cell(&cga, 3, 0), (b'~', 0x0f));
    assert_eq!(cga.getpos(), (4, 0));
}

#[test]
fn return_key_starts_a_new_line() {
    assert_eq!(KEY_RETURN, 13);
    let mut cga = CGA::new();
    cga.clear();
    run(&mut cga, &vec![b'a', 13, b'b']);
    assert_eq!(cell(&cga, 0, 0).0, b'a');
    assert_eq!(cell(&cga, 0, 1).0, b'b');
    assert_eq!(cga.getpos(), (1, 1));
}

#[test]
fn other_keys_are_not_echoed() {
    let mut cga = CGA::new();
    cga.clear();
    run(&mut cga, &vec![0, 8, 10, 27, 0x1f, 0x7f, 0x80, 0xff]);
    assert_eq!(cga.getpos(), (0, 0));
    for x in 0..CGA_COLUMNS {
        assert_eq!(cell(&cga, x, 0), (b' ', CGA_STD_ATTR));
    }
    run(&mut cga, &vec![]);
    assert_eq!(cga.getpos(), (0, 0));
}
