//! Key presses as the editor sees them.

use crossterm::event::KeyModifiers;
use vstd::prelude::*;

verus! {

/// No modifier held.
pub const NO_MODIFIERS: u8 = 0x00;

/// The control modifier, in the bit layout of crossterm's `KeyModifiers`.
pub const CONTROL: u8 = 0x02;

/// The keys the editor tells apart. Every key it has no use for is `Other`.
#[derive(Clone, Copy, Debug, PartialEq, Eq)]
pub enum Key {
    Char(char),
    Up,
    Down,
    Left,
    Right,
    Escape,
    Backspace,
    Other,
}

/// One key press: the key, and the modifiers held with it as the bits of
/// crossterm's `KeyModifiers`.
#[derive(Clone, Copy, Debug, PartialEq, Eq)]
pub struct KeyPress {
    pub key: Key,
    pub modifiers: u8,
}

/// Whether the control bit is among `modifiers`.
pub open spec fn control_bit_set(modifiers: u8) -> bool {
    modifiers & 0x02 == 0x02
}

/// Asks crossterm whether a set of modifiers holds control:
/// `KeyModifiers::from_bits_truncate(bits).contains(KeyModifiers::CONTROL)`.
/// `from_bits_truncate` keeps the bits of the six known modifiers, `CONTROL`
/// is the bit `0b10`, and `contains` tests that every bit of its argument is
/// set; so the answer is whether bit `0b10` of `bits` is set.
#[verifier::external_body]
fn modifiers_hold_control(bits: u8) -> (held: bool)
    ensures
        held == control_bit_set(bits),
{
    KeyModifiers::from_bits_truncate(bits).contains(KeyModifiers::CONTROL)
}

impl KeyPress {
    /// Whether control was held with the key.
    pub open spec fn control(self) -> bool {
        control_bit_set(self.modifiers)
    }

    /// Whether this is the chord that asks for a save: control with `s`.
    pub open spec fn is_save_chord(self) -> bool {
        self.key == Key::Char('s') && self.control()
    }

    /// A key press with the given modifier bits.
    pub fn new(key: Key, modifiers: u8) -> (press: KeyPress)
        ensures
            press.key == key,
            press.modifiers == modifiers,
    {
        KeyPress { key, modifiers }
    }

    /// A key pressed with no modifier.
    pub fn plain(key: Key) -> (press: KeyPress)
        ensures
            press.key == key,
            press.modifiers == 0,
            !press.control(),
    {
        assert(0u8 & 0x02 != 0x02) by (bit_vector);
        KeyPress { key, modifiers: NO_MODIFIERS }
    }

    /// A key pressed with control alone.
    pub fn with_control(key: Key) -> (press: KeyPress)
        ensures
            press.key == key,
            press.modifiers == 0x02,
            press.control(),
    {
        assert(0x02u8 & 0x02 == 0x02) by (bit_vector);
        KeyPress { key, modifiers: CONTROL }
    }

    /// Whether control was held with the key.
    pub fn holds_control(&self) -> (held: bool)
        ensures
            held == self.control(),
    {
        modifiers_hold_control(self.modifiers)
    }
}

} // verus!
