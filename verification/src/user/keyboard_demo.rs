//! The keyboard demonstration: every key that is hit is echoed on the text
//! screen.

use crate::devices::cga::{attribute_byte, Color, Screen, CGA};
use vstd::prelude::*;

verus! {

/// The ASCII code that the return key gives.
pub const KEY_RETURN: u8 = 13;

/// The screen after the key with the ASCII code `ascii` was hit: a
/// printable character is printed in white on black, the return key prints
/// a line feed, and any other key leaves the screen as it is.
pub open spec fn echo_key(screen: Screen, ascii: u8) -> Screen {
    if 0x20 <= ascii <= 0x7e {
        screen.print_byte(ascii, attribute_byte(Color::Black, Color::White, false))
    } else if ascii == KEY_RETURN {
        screen.print_byte(0x0a, attribute_byte(Color::Black, Color::White, false))
    } else {
        screen
    }
}

/// The screen after the keys with the ASCII codes `keys` were hit, one
/// after the other.
pub open spec fn echo_keys(screen: Screen, keys: Seq<u8>) -> Screen
    decreases keys.len(),
{
    if keys.len() == 0 {
        screen
    } else {
        echo_key(echo_keys(screen, keys.drop_last()), keys.last())
    }
}

/// Echoes the keys that were hit, given by their ASCII codes in the order
/// in which they were hit.
pub fn run(cga: &mut CGA, keys: &Vec<u8>)
    ensures
        final(cga)@.wf(),
        final(cga)@ == echo_keys(old(cga)@, keys@),
{
    proof {
        use_type_invariant(&*cga);
    }
    let mut i: usize = 0;
    while i < keys.len()
        invariant
            0 <= i <= keys.len(),
            cga@.wf(),
            cga@ == echo_keys(old(cga)@, keys@.take(i as int)),
        decreases keys.len() - i,
    {
        let mut ascii = keys[i];
        if ascii >= 0x20 && ascii <= 0x7e || ascii == KEY_RETURN {
            if ascii == KEY_RETURN {
                ascii = 0x0a;
            }
            cga.print_byte(ascii, Color::Black, Color::White, false);
        }
        proof {
            assert(keys@.take(i + 1).drop_last() == keys@.take(i as int));
        }
        i = i + 1;
    }
    proof {
        assert(keys@.take(keys.len() as int) == keys@);
    }
}

} // verus!
