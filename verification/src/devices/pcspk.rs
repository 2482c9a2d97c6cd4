//! The PC speaker: which ports it is driven through, and the values that
//! go to them for a tone. Talking to the ports is left to the caller.

use vstd::prelude::*;

verus! {

/// Control port of the programmable interval timer.
pub const PORT_CTRL: u16 = 0x43;

/// Data port of the timer's counter 0.
pub const PORT_DATA0: u16 = 0x40;

/// Data port of the timer's counter 2, which drives the speaker.
pub const PORT_DATA2: u16 = 0x42;

/// Port of the peripheral interface, whose two lowest bits gate the
/// speaker.
pub const PORT_PPI: u16 = 0x61;

/// The frequency at which the timer counts, in ticks per second.
pub const PIT_FREQUENCY: usize = 1193182;

/// The value from which counter 0 counts down in one millisecond.
pub const PIT_RELOAD_1MS: u16 = 1193;

/// The ports of the PC speaker.
pub struct Speaker {
    pub pit_ctrl_port: u16,
    pub pit_data0_port: u16,
    pub pit_data2_port: u16,
    pub ppi_port: u16,
}

impl Speaker {
    /// Create a new Speaker instance.
    pub fn new() -> (speaker: Speaker)
        ensures
            speaker.pit_ctrl_port == PORT_CTRL,
            speaker.pit_data0_port == PORT_DATA0,
            speaker.pit_data2_port == PORT_DATA2,
            speaker.ppi_port == PORT_PPI,
    {
        Speaker {
            pit_ctrl_port: PORT_CTRL,
            pit_data0_port: PORT_DATA0,
            pit_data2_port: PORT_DATA2,
            ppi_port: PORT_PPI,
        }
    }

    /// The two bytes that set counter 2 to a tone of `frequency` hertz: the
    /// low and the next byte of the number of timer ticks in one period.
    /// None for the frequency 0, which stands for silence.
    pub fn divisor(&self, frequency: usize) -> (bytes: Option<(u8, u8)>)
        ensures
            frequency == 0 ==> bytes.is_none(),
            frequency > 0 ==> bytes == Some(
                (
                    ((PIT_FREQUENCY / frequency) % 256) as u8,
                    ((PIT_FREQUENCY / frequency) / 256 % 256) as u8,
                ),
            ),
    {
        if frequency == 0 {
            return None;
        }
        let divisor: usize = PIT_FREQUENCY / frequency;
        Some(((divisor % 256) as u8, (divisor / 256 % 256) as u8))
    }

    /// The value of the peripheral interface port with the speaker turned
    /// on: the two lowest bits are set, the others stay.
    pub fn on(&self, port_value: u8) -> (value: u8)
        ensures
            value == port_value | 0b11,
    {
        port_value | 0b11
    }

    /// The value of the peripheral interface port with the speaker turned
    /// off: the two lowest bits are cleared, the others stay.
    pub fn off(&self, port_value: u8) -> (value: u8)
        ensures
            value == port_value & !0x03u8,
    {
        port_value & !0x03
    }
}

} // verus!
