use os_kernel::devices::pcspk::{
    Speaker, PIT_FREQUENCY, PIT_RELOAD_1MS, PORT_CTRL, PORT_DATA0, PORT_DATA2, PORT_PPI,
};

#[test]
fn speaker_knows_its_ports() {
    let speaker = Speaker::new();
    assert_eq!(speaker.pit_ctrl_port, 0x43);
    assert_eq!(speaker.pit_data0_port, 0x40);
    assert_eq!(speaker.pit_data2_port, 0x42);
    assert_eq!(speaker.ppi_port, 0x61);
    assert_eq!((PORT_CTRL, PORT_DATA0, PORT_DATA2, PORT_PPI), (0x43, 0x40, 0x42, 0x61));
    assert_eq!(PIT_FREQUENCY, 1193182);
    assert_eq!(PIT_RELOAD_1MS, 1193);
}

#[test]
fn divisor_is_the_length_of_a_period_in_ticks() {
    let speaker = Speaker::new();
    // 1193182 / 440 = 2711 = 0x0a97
    assert_eq!(speaker.divisor(440), Some((0x97, 0x0a)));
    // 1193182 / 1193182 = 1
    assert_eq!(speaker.divisor(1193182), Some((1, 0)));
    assert_eq!(speaker.divisor(2000000), Some((0, 0)));
    // 1193182 / 18 = 66287 = 0x102ef: the third byte is lost
    assert_eq!(speaker.divisor(18), Some((0xef, 0x02)));
}

#[test]
fn frequency_zero_is_silence() {
    assert_eq!(Speaker::new().divisor(0), None);
}

#[test]
fn speaker_is_gated_by_the_two_lowest_bits() {
    let speaker = Speaker::new();
    assert_eq!(speaker.on(0x00), 0x03);
    assert_eq!(speaker.on(0xf0), 0xf3);
    assert_eq!(speaker.on(0x31), 0x33);
    assert_eq!(speaker.off(0xff), 0xfc);
    assert_eq!(speaker.off(0x03), 0x00);
    assert_eq!(speaker.off(0x30), 0x30);
}
