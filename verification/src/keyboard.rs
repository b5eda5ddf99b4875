//! PS/2 keyboard input: scan codes of set 2 are decoded into key codes of
//! the USB HID usage table, those into characters, and the characters are
//! queued for readers.

use vstd::prelude::*;

verus! {

/// Slots in the ring that queues the characters typed. One slot stays empty.
pub const BUFFER_SIZE: usize = 256;

/// HID key code of each plain scan code; 0 where there is none.
pub const SCANCODE_TO_HID: [u8; 256] = [
    0x00, 0x00, 0x00, 0x00, 0x00, 0x00, 0x00, 0x00, 0x00, 0x00, 0x00, 0x00, 0x00, 0x2B, 0x35, 0x00,
    0x00, 0xE2, 0xE1, 0x00, 0xE0, 0x14, 0x1E, 0x00, 0x00, 0x00, 0x1D, 0x16, 0x04, 0x1A, 0x1F, 0x00,
    0x00, 0x06, 0x1B, 0x07, 0x08, 0x21, 0x20, 0x00, 0x00, 0x2C, 0x19, 0x09, 0x17, 0x15, 0x22, 0x00,
    0x00, 0x11, 0x05, 0x0B, 0x0A, 0x1C, 0x23, 0x00, 0x00, 0x00, 0x10, 0x0D, 0x18, 0x24, 0x25, 0x00,
    0x00, 0x36, 0x0E, 0x0C, 0x12, 0x27, 0x26, 0x00, 0x00, 0x37, 0x38, 0x0F, 0x33, 0x13, 0x2D, 0x00,
    0x00, 0x00, 0x34, 0x00, 0x2F, 0x2E, 0x00, 0x00, 0x39, 0xE5, 0x28, 0x30, 0x00, 0x31, 0x00, 0x00,
    0x00, 0x00, 0x00, 0x00, 0x00, 0x00, 0x2A, 0x00, 0x00, 0x00, 0x00, 0x00, 0x00, 0x00, 0x00, 0x00,
    0x00, 0x00, 0x00, 0x00, 0x00, 0x00, 0x29, 0x00, 0x00, 0x00, 0x00, 0x00, 0x00, 0x00, 0x00, 0x00,
    0x00, 0x00, 0x00, 0x00, 0x00, 0x00, 0x00, 0x00, 0x00, 0x00, 0x00, 0x00, 0x00, 0x00, 0x00, 0x00,
    0x00, 0x00, 0x00, 0x00, 0x00, 0x00, 0x00, 0x00, 0x00, 0x00, 0x00, 0x00, 0x00, 0x00, 0x00, 0x00,
    0x00, 0x00, 0x00, 0x00, 0x00, 0x00, 0x00, 0x00, 0x00, 0x00, 0x00, 0x00, 0x00, 0x00, 0x00, 0x00,
    0x00, 0x00, 0x00, 0x00, 0x00, 0x00, 0x00, 0x00, 0x00, 0x00, 0x00, 0x00, 0x00, 0x00, 0x00, 0x00,
    0x00, 0x00, 0x00, 0x00, 0x00, 0x00, 0x00, 0x00, 0x00, 0x00, 0x00, 0x00, 0x00, 0x00, 0x00, 0x00,
    0x00, 0x00, 0x00, 0x00, 0x00, 0x00, 0x00, 0x00, 0x00, 0x00, 0x00, 0x00, 0x00, 0x00, 0x00, 0x00,
    0x00, 0x00, 0x00, 0x00, 0x00, 0x00, 0x00, 0x00, 0x00, 0x00, 0x00, 0x00, 0x00, 0x00, 0x00, 0x00,
    0x00, 0x00, 0x00, 0x00, 0x00, 0x00, 0x00, 0x00, 0x00, 0x00, 0x00, 0x00, 0x00, 0x00, 0x00, 0x00,
];

/// HID key code of each scan code that follows the prefix 0xE0; 0 where
/// there is none.
pub const SCANCODE_E0_TO_HID: [u8; 256] = [
    0x00, 0x00, 0x00, 0x00, 0x00, 0x00, 0x00, 0x00, 0x00, 0x00, 0x00, 0x00, 0x00, 0x00, 0x00, 0x00,
    0x00, 0xE6, 0x00, 0x00, 0xE4, 0x00, 0x00, 0x00, 0x00, 0x00, 0x00, 0x00, 0x00, 0x00, 0x00, 0xE3,
    0x00, 0x00, 0x00, 0x00, 0x00, 0x00, 0x00, 0xE7, 0x00, 0x00, 0x00, 0x00, 0x00, 0x00, 0x00, 0x65,
    0x00, 0x00, 0x00, 0x00, 0x00, 0x00, 0x00, 0x00, 0x00, 0x00, 0x00, 0x00, 0x00, 0x00, 0x00, 0x00,
    0x00, 0x00, 0x00, 0x00, 0x00, 0x00, 0x00, 0x00, 0x00, 0x00, 0x54, 0x00, 0x00, 0x00, 0x00, 0x00,
    0x00, 0x00, 0x00, 0x00, 0x00, 0x00, 0x00, 0x00, 0x00, 0x00, 0x58, 0x00, 0x00, 0x00, 0x00, 0x00,
    0x00, 0x00, 0x00, 0x00, 0x00, 0x00, 0x00, 0x00, 0x00, 0x4D, 0x00, 0x50, 0x4A, 0x00, 0x00, 0x00,
    0x49, 0x4C, 0x51, 0x00, 0x4F, 0x52, 0x00, 0x00, 0x00, 0x00, 0x00, 0x00, 0x4E, 0x00, 0x00, 0x4B,
    0x00, 0x00, 0x00, 0x00, 0x00, 0x00, 0x00, 0x00, 0x00, 0x00, 0x00, 0x00, 0x00, 0x00, 0x00, 0x00,
    0x00, 0x00, 0x00, 0x00, 0x00, 0x00, 0x00, 0x00, 0x00, 0x00, 0x00, 0x00, 0x00, 0x00, 0x00, 0x00,
    0x00, 0x00, 0x00, 0x00, 0x00, 0x00, 0x00, 0x00, 0x00, 0x00, 0x00, 0x00, 0x00, 0x00, 0x00, 0x00,
    0x00, 0x00, 0x00, 0x00, 0x00, 0x00, 0x00, 0x00, 0x00, 0x00, 0x00, 0x00, 0x00, 0x00, 0x00, 0x00,
    0x00, 0x00, 0x00, 0x00, 0x00, 0x00, 0x00, 0x00, 0x00, 0x00, 0x00, 0x00, 0x00, 0x00, 0x00, 0x00,
    0x00, 0x00, 0x00, 0x00, 0x00, 0x00, 0x00, 0x00, 0x00, 0x00, 0x00, 0x00, 0x00, 0x00, 0x00, 0x00,
    0x00, 0x00, 0x00, 0x00, 0x00, 0x00, 0x00, 0x00, 0x00, 0x00, 0x00, 0x00, 0x00, 0x00, 0x00, 0x00,
    0x00, 0x00, 0x00, 0x00, 0x00, 0x00, 0x00, 0x00, 0x00, 0x00, 0x00, 0x00, 0x00, 0x00, 0x00, 0x00,
];

/// Character of each HID key code without shift; 0 where there is none.
pub const HID_TO_ASCII: [u8; 256] = [
    0x00, 0x00, 0x00, 0x00, 0x61, 0x62, 0x63, 0x64, 0x65, 0x66, 0x67, 0x68, 0x69, 0x6A, 0x6B, 0x6C,
    0x6D, 0x6E, 0x6F, 0x70, 0x71, 0x72, 0x73, 0x74, 0x75, 0x76, 0x77, 0x78, 0x79, 0x7A, 0x31, 0x32,
    0x33, 0x34, 0x35, 0x36, 0x37, 0x38, 0x39, 0x30, 0x0A, 0x1B, 0x08, 0x09, 0x20, 0x2D, 0x3D, 0x5B,
    0x5D, 0x5C, 0x00, 0x3B, 0x27, 0x60, 0x2C, 0x2E, 0x2F, 0x00, 0x00, 0x00, 0x00, 0x00, 0x00, 0x00,
    0x00, 0x00, 0x00, 0x00, 0x00, 0x00, 0x00, 0x00, 0x00, 0x00, 0x00, 0x00, 0x00, 0x00, 0x00, 0x00,
    0x00, 0x00, 0x00, 0x00, 0x2F, 0x2A, 0x2D, 0x2B, 0x0A, 0x31, 0x32, 0x33, 0x34, 0x35, 0x36, 0x37,
    0x38, 0x39, 0x30, 0x2E, 0x00, 0x00, 0x00, 0x3D, 0x00, 0x00, 0x00, 0x00, 0x00, 0x00, 0x00, 0x00,
    0x00, 0x00, 0x00, 0x00, 0x00, 0x00, 0x00, 0x00, 0x00, 0x00, 0x00, 0x00, 0x00, 0x00, 0x00, 0x00,
    0x00, 0x00, 0x00, 0x00, 0x00, 0x00, 0x00, 0x00, 0x00, 0x00, 0x00, 0x00, 0x00, 0x00, 0x00, 0x00,
    0x00, 0x00, 0x00, 0x00, 0x00, 0x00, 0x00, 0x00, 0x00, 0x00, 0x00, 0x00, 0x00, 0x00, 0x00, 0x00,
    0x00, 0x00, 0x00, 0x00, 0x00, 0x00, 0x00, 0x00, 0x00, 0x00, 0x00, 0x00, 0x00, 0x00, 0x00, 0x00,
    0x00, 0x00, 0x00, 0x00, 0x00, 0x00, 0x00, 0x00, 0x00, 0x00, 0x00, 0x00, 0x00, 0x00, 0x00, 0x00,
    0x00, 0x00, 0x00, 0x00, 0x00, 0x00, 0x00, 0x00, 0x00, 0x00, 0x00, 0x00, 0x00, 0x00, 0x00, 0x00,
    0x00, 0x00, 0x00, 0x00, 0x00, 0x00, 0x00, 0x00, 0x00, 0x00, 0x00, 0x00, 0x00, 0x00, 0x00, 0x00,
    0x00, 0x00, 0x00, 0x00, 0x00, 0x00, 0x00, 0x00, 0x00, 0x00, 0x00, 0x00, 0x00, 0x00, 0x00, 0x00,
    0x00, 0x00, 0x00, 0x00, 0x00, 0x00, 0x00, 0x00, 0x00, 0x00, 0x00, 0x00, 0x00, 0x00, 0x00, 0x00,
];

/// Character of each HID key code with shift; 0 where there is none.
pub const HID_TO_ASCII_SHIFT: [u8; 256] = [
    0x00, 0x00, 0x00, 0x00, 0x41, 0x42, 0x43, 0x44, 0x45, 0x46, 0x47, 0x48, 0x49, 0x4A, 0x4B, 0x4C,
    0x4D, 0x4E, 0x4F, 0x50, 0x51, 0x52, 0x53, 0x54, 0x55, 0x56, 0x57, 0x58, 0x59, 0x5A, 0x21, 0x40,
    0x23, 0x24, 0x25, 0x5E, 0x26, 0x2A, 0x28, 0x29, 0x0A, 0x1B, 0x08, 0x09, 0x20, 0x5F, 0x2B, 0x7B,
    0x7D, 0x7C, 0x00, 0x3A, 0x22, 0x7E, 0x3C, 0x3E, 0x3F, 0x00, 0x00, 0x00, 0x00, 0x00, 0x00, 0x00,
    0x00, 0x00, 0x00, 0x00, 0x00, 0x00, 0x00, 0x00, 0x00, 0x00, 0x00, 0x00, 0x00, 0x00, 0x00, 0x00,
    0x00, 0x00, 0x00, 0x00, 0x2F, 0x2A, 0x2D, 0x2B, 0x0A, 0x31, 0x32, 0x33, 0x34, 0x35, 0x36, 0x37,
    0x38, 0x39, 0x30, 0x2E, 0x00, 0x00, 0x00, 0x3D, 0x00, 0x00, 0x00, 0x00, 0x00, 0x00, 0x00, 0x00,
    0x00, 0x00, 0x00, 0x00, 0x00, 0x00, 0x00, 0x00, 0x00, 0x00, 0x00, 0x00, 0x00, 0x00, 0x00, 0x00,
    0x00, 0x00, 0x00, 0x00, 0x00, 0x00, 0x00, 0x00, 0x00, 0x00, 0x00, 0x00, 0x00, 0x00, 0x00, 0x00,
    0x00, 0x00, 0x00, 0x00, 0x00, 0x00, 0x00, 0x00, 0x00, 0x00, 0x00, 0x00, 0x00, 0x00, 0x00, 0x00,
    0x00, 0x00, 0x00, 0x00, 0x00, 0x00, 0x00, 0x00, 0x00, 0x00, 0x00, 0x00, 0x00, 0x00, 0x00, 0x00,
    0x00, 0x00, 0x00, 0x00, 0x00, 0x00, 0x00, 0x00, 0x00, 0x00, 0x00, 0x00, 0x00, 0x00, 0x00, 0x00,
    0x00, 0x00, 0x00, 0x00, 0x00, 0x00, 0x00, 0x00, 0x00, 0x00, 0x00, 0x00, 0x00, 0x00, 0x00, 0x00,
    0x00, 0x00, 0x00, 0x00, 0x00, 0x00, 0x00, 0x00, 0x00, 0x00, 0x00, 0x00, 0x00, 0x00, 0x00, 0x00,
    0x00, 0x00, 0x00, 0x00, 0x00, 0x00, 0x00, 0x00, 0x00, 0x00, 0x00, 0x00, 0x00, 0x00, 0x00, 0x00,
    0x00, 0x00, 0x00, 0x00, 0x00, 0x00, 0x00, 0x00, 0x00, 0x00, 0x00, 0x00, 0x00, 0x00, 0x00, 0x00,
];

/// The bits of the controller's configuration byte that are cleared while
/// the controller is set up: the interrupts of both ports and the
/// translation of scan codes.
pub const CONFIG_SETUP_MASK: u8 = 0x51;

/// What the controller answers when its self test passed.
pub const SELF_TEST_PASSED: u8 = 0x55;

/// The configuration byte to write while the controller is set up: `byte`
/// with interrupts and translation off.
pub fn config_for_setup(byte: u8) -> (r: u8)
    ensures
        r == byte & !CONFIG_SETUP_MASK,
{
    byte & !CONFIG_SETUP_MASK
}

/// The configuration byte to write once the keyboard is set up: `byte` with
/// the interrupt of the first port on.
pub fn config_with_interrupt(byte: u8) -> (r: u8)
    ensures
        r == byte | 1,
{
    byte | 1
}

/// Whether the configuration byte `byte` tells of a second port: its bit 5.
pub fn has_second_port(byte: u8) -> (r: bool)
    ensures
        r == (byte & 0x20 != 0),
{
    (byte & 0x20) != 0
}

/// Which modifier keys are down, which locks are on, and what the scan codes
/// seen so far say of the next one.
#[derive(Clone, Copy, Debug, PartialEq, Eq, Structural)]
pub struct KeyboardKeyState {
    pub left_shift: bool,
    pub right_shift: bool,
    pub left_ctrl: bool,
    pub right_ctrl: bool,
    pub left_alt: bool,
    pub right_alt: bool,
    pub caps_lock: bool,
    pub num_lock: bool,
    /// The prefix 0xE0 came: the next scan code is an extended one.
    pub extended: bool,
    /// The prefix 0xF0 came: the next scan code reports a release.
    pub break_next: bool,
}

/// What the console is to do after a scan code.
#[derive(Clone, Copy, Debug, PartialEq, Eq, Structural)]
pub enum KeyEcho {
    /// Nothing to show.
    Nothing,
    /// Show this character.
    Print(char),
    /// Take back the last character shown.
    Backspace,
}

/// The state with no key down and no lock on.
pub open spec fn all_released() -> KeyboardKeyState {
    KeyboardKeyState {
        left_shift: false,
        right_shift: false,
        left_ctrl: false,
        right_ctrl: false,
        left_alt: false,
        right_alt: false,
        caps_lock: false,
        num_lock: false,
        extended: false,
        break_next: false,
    }
}

/// The lower-case form of an ASCII capital, any other byte unchanged.
pub open spec fn ascii_lower(b: u8) -> u8 {
    if 0x41 <= b <= 0x5A {
        (b + 32) as u8
    } else {
        b
    }
}

/// The capital form of a lower-case ASCII letter, any other byte unchanged.
pub open spec fn ascii_upper(b: u8) -> u8 {
    if 0x61 <= b <= 0x7A {
        (b - 32) as u8
    } else {
        b
    }
}

/// The character that the key `keycode` types in `state`, if it types one.
/// Shift picks the table; on the letter keys caps lock turns the case round
/// once more.
#[verifier::opaque]
pub open spec fn char_of(keycode: u8, state: KeyboardKeyState) -> Option<char> {
    let shift = state.left_shift || state.right_shift;
    let ascii = if shift {
        HID_TO_ASCII_SHIFT[keycode as int]
    } else {
        HID_TO_ASCII[keycode as int]
    };
    if ascii == 0 {
        None
    } else if 0x04 <= keycode <= 0x1D && state.caps_lock {
        if shift {
            Some(ascii_lower(ascii) as char)
        } else {
            Some(ascii_upper(ascii) as char)
        }
    } else {
        Some(ascii as char)
    }
}

/// The HID key code that `code` stands for in `state`.
#[verifier::opaque]
pub open spec fn key_code_of(state: KeyboardKeyState, code: u8) -> u8 {
    if state.extended {
        SCANCODE_E0_TO_HID[code as int]
    } else {
        SCANCODE_TO_HID[code as int]
    }
}

/// The state after the scan code `code`, and the character typed by it, if
/// any. The prefixes 0xF0 and 0xE0 are noted for the next scan code. Any
/// other code uses the prefixes up: a modifier key goes down or up, caps lock
/// turns over when its key goes down, and any other key types its character
/// when it goes down.
pub open spec fn scancode_step(state: KeyboardKeyState, code: u8) -> (
    KeyboardKeyState,
    Option<char>,
) {
    if code == 0xF0 {
        (KeyboardKeyState { break_next: true, ..state }, None)
    } else if code == 0xE0 {
        (KeyboardKeyState { extended: true, ..state }, None)
    } else {
        let down = !state.break_next;
        let key = key_code_of(state, code);
        let rest = KeyboardKeyState { extended: false, break_next: false, ..state };
        if key == 0xE1 {
            (KeyboardKeyState { left_shift: down, ..rest }, None)
        } else if key == 0xE5 {
            (KeyboardKeyState { right_shift: down, ..rest }, None)
        } else if key == 0xE0 {
            (KeyboardKeyState { left_ctrl: down, ..rest }, None)
        } else if key == 0xE4 {
            (KeyboardKeyState { right_ctrl: down, ..rest }, None)
        } else if key == 0xE2 {
            (KeyboardKeyState { left_alt: down, ..rest }, None)
        } else if key == 0xE6 {
            (KeyboardKeyState { right_alt: down, ..rest }, None)
        } else if key == 0x39 && down {
            (KeyboardKeyState { caps_lock: !state.caps_lock, ..rest }, None)
        } else if down {
            (rest, char_of(key, state))
        } else {
            (rest, None)
        }
    }
}

/// The queue after `b` was pushed: `b` stands last, unless the queue was full.
pub open spec fn pushed(queue: Seq<u8>, b: u8) -> Seq<u8> {
    if queue.len() < BUFFER_SIZE - 1 {
        queue.push(b)
    } else {
        queue
    }
}

/// The queue after a pop: without its first byte, if it had one.
pub open spec fn popped(queue: Seq<u8>) -> Seq<u8> {
    if queue.len() > 0 {
        queue.skip(1)
    } else {
        queue
    }
}

/// The queue after the character `ch` was typed, and what the console is to
/// do. A backspace takes a byte off the queue's head; any other character
/// joins the queue and is shown.
pub open spec fn key_press(queue: Seq<u8>, ch: char) -> (Seq<u8>, KeyEcho) {
    if ch as u32 == 0x08 {
        (popped(queue), KeyEcho::Backspace)
    } else {
        (pushed(queue, ch as u8), KeyEcho::Print(ch))
    }
}

impl KeyboardKeyState {
    /// The state with no key down and no lock on.
    pub fn new() -> (r: Self)
        ensures
            r == all_released(),
    {
        KeyboardKeyState {
            left_shift: false,
            right_shift: false,
            left_ctrl: false,
            right_ctrl: false,
            left_alt: false,
            right_alt: false,
            caps_lock: false,
            num_lock: false,
            extended: false,
            break_next: false,
        }
    }

    /// Puts a fresh state into `slot`.
    pub fn init(slot: &mut Option<KeyboardKeyState>)
        ensures
            *final(slot) == Some(all_released()),
    {
        let keyboard_state = Self::new();
        *slot = Some(keyboard_state);
    }

    pub fn shift_pressed(&self) -> (r: bool)
        ensures
            r == (self.left_shift || self.right_shift),
    {
        self.left_shift || self.right_shift
    }

    pub fn ctrl_pressed(&self) -> (r: bool)
        ensures
            r == (self.left_ctrl || self.right_ctrl),
    {
        self.left_ctrl || self.right_ctrl
    }

    pub fn alt_pressed(&self) -> (r: bool)
        ensures
            r == (self.left_alt || self.right_alt),
    {
        self.left_alt || self.right_alt
    }
}

/// The character that the key `keycode` types in `state`, if it types one.
pub fn keycode_to_char(keycode: u8, state: &KeyboardKeyState) -> (r: Option<char>)
    ensures
        r == char_of(keycode, *state),
        r matches Some(ch) ==> (ch as u32) < 256,
{
    reveal(char_of);
    let shift_pressed = state.shift_pressed();
    let caps_lock = state.caps_lock;

    let ascii = if shift_pressed {
        HID_TO_ASCII_SHIFT[keycode as usize]
    } else {
        HID_TO_ASCII[keycode as usize]
    };

    if ascii == 0 {
        return None;
    }
    if keycode >= 0x04 && keycode <= 0x1D {
        if caps_lock {
            if shift_pressed {
                return Some(to_ascii_lowercase(ascii) as char);
            } else {
                return Some(to_ascii_uppercase(ascii) as char);
            }
        }
    }
    Some(ascii as char)
}

fn to_ascii_lowercase(b: u8) -> (r: u8)
    ensures
        r == ascii_lower(b),
{
    if b >= 0x41 && b <= 0x5A {
        b + 32
    } else {
        b
    }
}

fn to_ascii_uppercase(b: u8) -> (r: u8)
    ensures
        r == ascii_upper(b),
{
    if b >= 0x61 && b <= 0x7A {
        b - 32
    } else {
        b
    }
}

/// Slots from position `from` round to position `to` of the ring.
spec fn ring_distance(from: int, to: int) -> int {
    if to >= from {
        to - from
    } else {
        to + BUFFER_SIZE - from
    }
}

/// Position of the slot `i` slots after position `from` of the ring.
spec fn ring_index(from: int, i: int) -> int {
    if from + i < BUFFER_SIZE {
        from + i
    } else {
        from + i - BUFFER_SIZE
    }
}

/// The queue of characters typed: a ring of bytes, read at one place and
/// written at another.
pub struct KeyboardBuffer {
    buffer: [u8; BUFFER_SIZE],
    read_pos: usize,
    write_pos: usize,
}

impl View for KeyboardBuffer {
    type V = Seq<u8>;

    closed spec fn view(&self) -> Seq<u8> {
        Seq::new(
            ring_distance(self.read_pos as int, self.write_pos as int) as nat,
            |i: int| self.buffer@[ring_index(self.read_pos as int, i)],
        )
    }
}

impl KeyboardBuffer {
    #[verifier::type_invariant]
    spec fn positions_fit(&self) -> bool {
        self.read_pos < BUFFER_SIZE && self.write_pos < BUFFER_SIZE
    }

    /// An empty queue.
    pub fn new() -> (r: Self)
        ensures
            r@ == Seq::<u8>::empty(),
    {
        let r = KeyboardBuffer { buffer: [0;BUFFER_SIZE], read_pos: 0, write_pos: 0 };
        assert(r@ =~= Seq::<u8>::empty());
        r
    }

    /// Bytes queued.
    pub fn len(&self) -> (r: usize)
        ensures
            r == self@.len(),
            r < BUFFER_SIZE,
    {
        proof {
            use_type_invariant(self);
        }
        let distance = (self.write_pos + BUFFER_SIZE - self.read_pos) % BUFFER_SIZE;
        assert(distance == ring_distance(self.read_pos as int, self.write_pos as int));
        distance
    }

    /// Bytes queued before the first line feed; all of them if none is
    /// queued.
    pub fn pending_line_len(&self) -> (r: usize)
        ensures
            r == line_len(self@),
            r <= self@.len(),
    {
        proof {
            use_type_invariant(self);
        }
        let length = self.len();
        let mut i: usize = 0;
        while i < length
            invariant
                self.read_pos < BUFFER_SIZE,
                length == self@.len(),
                length < BUFFER_SIZE,
                0 <= i <= length,
                forall|t: int| 0 <= t < i ==> self@[t] != 0x0A,
            decreases length - i,
        {
            let at = (self.read_pos + i) % BUFFER_SIZE;
            assert(at == ring_index(self.read_pos as int, i as int));
            if self.buffer[at] == 0x0A {
                proof {
                    lemma_line_len_skip(self@, i as int);
                }
                return i;
            }
            i += 1;
        }
        proof {
            lemma_line_len_skip(self@, length as int);
        }
        length
    }

    /// Queues `ch`. `false` means that the queue was full and is unchanged.
    pub fn push(&mut self, ch: u8) -> (r: bool)
        ensures
            r == (old(self)@.len() < BUFFER_SIZE - 1),
            final(self)@ == pushed(old(self)@, ch),
    {
        proof {
            use_type_invariant(&*self);
        }
        let next = (self.write_pos + 1) % BUFFER_SIZE;
        assert(next == ring_index(self.write_pos as int, 1));
        if next == self.read_pos {
            return false;
        }
        self.buffer[self.write_pos] = ch;
        self.write_pos = next;
        assert(self@ =~= old(self)@.push(ch));
        true
    }

    /// Takes the oldest byte off the queue. `None` means that it was empty.
    pub fn pop(&mut self) -> (r: Option<u8>)
        ensures
            r == if old(self)@.len() > 0 {
                Some(old(self)@[0])
            } else {
                None
            },
            final(self)@ == popped(old(self)@),
    {
        proof {
            use_type_invariant(&*self);
        }
        if self.read_pos == self.write_pos {
            return None;
        }
        let ch = self.buffer[self.read_pos];
        let next = (self.read_pos + 1) % BUFFER_SIZE;
        assert(next == ring_index(self.read_pos as int, 1));
        self.read_pos = next;
        assert(self@ =~= old(self)@.skip(1));
        Some(ch)
    }
}

/// Takes the character `ch` into the queue, or a byte off it on a backspace,
/// and says what the console is to do.
pub fn handle_key_press(buffer: &mut KeyboardBuffer, ch: char) -> (r: KeyEcho)
    requires
        (ch as u32) < 256,
    ensures
        (final(buffer)@, r) == key_press(old(buffer)@, ch),
{
    if ch == '\x08' {
        buffer.pop();
        return KeyEcho::Backspace;
    }
    buffer.push(ch as u8);
    KeyEcho::Print(ch)
}

/// The HID key code that `code` stands for in `state`.
pub fn scancode_to_keycode(code: u8, state: &KeyboardKeyState) -> (r: u8)
    ensures
        r == key_code_of(*state, code),
{
    reveal(key_code_of);
    if state.extended {
        SCANCODE_E0_TO_HID[code as usize]
    } else {
        SCANCODE_TO_HID[code as usize]
    }
}

/// Takes in one scan code with the state at hand.
fn step_scancode(state: &mut KeyboardKeyState, buffer: &mut KeyboardBuffer, code: u8) -> (r:
    KeyEcho)
    ensures
        *final(state) == scancode_step(*old(state), code).0,
        match scancode_step(*old(state), code).1 {
            Some(ch) => (final(buffer)@, r) == key_press(old(buffer)@, ch),
            None => final(buffer)@ == old(buffer)@ && r == KeyEcho::Nothing,
        },
{
    if code == 0xF0 {
        state.break_next = true;
        return KeyEcho::Nothing;
    }
    if code == 0xE0 {
        state.extended = true;
        return KeyEcho::Nothing;
    }
    let is_released = state.break_next;
    let key_code = scancode_to_keycode(code, state);
    let mut echo = KeyEcho::Nothing;
    if key_code == 0xE1 {
        state.left_shift = !is_released;
    } else if key_code == 0xE5 {
        state.right_shift = !is_released;
    } else if key_code == 0xE0 {
        state.left_ctrl = !is_released;
    } else if key_code == 0xE4 {
        state.right_ctrl = !is_released;
    } else if key_code == 0xE2 {
        state.left_alt = !is_released;
    } else if key_code == 0xE6 {
        state.right_alt = !is_released;
    } else if key_code == 0x39 && !is_released {
        state.caps_lock = !state.caps_lock;
    } else if !is_released {
        match keycode_to_char(key_code, state) {
            Some(ch) => {
                echo = handle_key_press(buffer, ch);
            },
            None => {},
        }
    }
    state.extended = false;
    state.break_next = false;
    echo
}

/// Takes in one scan code from the keyboard. Without a state in `state`
/// nothing happens. Otherwise the state moves on as `scancode_step` says, and
/// a character typed goes the way of `key_press`.
pub fn handle_scancode(
    state: &mut Option<KeyboardKeyState>,
    buffer: &mut KeyboardBuffer,
    code: u8,
) -> (r: KeyEcho)
    ensures
        match *old(state) {
            Some(s) => {
                &&& *final(state) == Some(scancode_step(s, code).0)
                &&& match scancode_step(s, code).1 {
                    Some(ch) => (final(buffer)@, r) == key_press(old(buffer)@, ch),
                    None => final(buffer)@ == old(buffer)@ && r == KeyEcho::Nothing,
                }
            },
            None => *final(state) is None && final(buffer)@ == old(buffer)@ && r
                == KeyEcho::Nothing,
        },
{
    match state {
        Some(state) => step_scancode(state, buffer, code),
        None => KeyEcho::Nothing,
    }
}

/// Takes the oldest character off the queue.
pub fn read_key_from_buffer(buffer: &mut KeyboardBuffer) -> (r: Option<char>)
    ensures
        r == if old(buffer)@.len() > 0 {
            Some(old(buffer)@[0] as char)
        } else {
            None
        },
        final(buffer)@ == popped(old(buffer)@),
{
    match buffer.pop() {
        Some(b) => Some(b as char),
        None => None,
    }
}

/// Bytes of `queue` before its first line feed; all of them if it holds
/// none.
pub open spec fn line_len(queue: Seq<u8>) -> int
    decreases queue.len(),
{
    if queue.len() == 0 || queue[0] == 0x0A {
        0
    } else {
        1 + line_len(queue.skip(1))
    }
}

/// The queue holds a line feed.
pub open spec fn has_line(queue: Seq<u8>) -> bool {
    line_len(queue) < queue.len()
}

/// `before` with `bytes` written over it from index `at` on.
pub open spec fn written_over(before: Seq<u8>, at: int, bytes: Seq<u8>) -> Seq<u8> {
    Seq::new(
        before.len(),
        |j: int|
            if at <= j < at + bytes.len() {
                bytes[j - at]
            } else {
                before[j]
            },
    )
}

/// How far reading a line has come.
#[derive(Clone, Copy, Debug, PartialEq, Eq, Structural)]
pub enum LineRead {
    /// The line is in the buffer, line feed included: so many bytes.
    Complete(usize),
    /// The queue ran dry before a line feed came; so many bytes are in the
    /// buffer so far.
    Pending(usize),
}

proof fn lemma_line_len_skip(queue: Seq<u8>, p: int)
    requires
        0 <= p <= queue.len(),
        forall|t: int| 0 <= t < p ==> queue[t] != 0x0A,
    ensures
        line_len(queue) == p + line_len(queue.skip(p)),
    decreases p,
{
    if p > 0 {
        assert(queue.skip(1).skip(p - 1) =~= queue.skip(p));
        lemma_line_len_skip(queue.skip(1), p - 1);
    } else {
        assert(queue.skip(0) =~= queue);
    }
}

/// Moves the characters queued into `buffer` from index `filled` on, up to
/// and with the first line feed. Characters that come when the buffer is
/// full are dropped. When the queue runs dry first, the caller comes back
/// with the count returned once more keys have been typed.
pub fn read_line_from_buffer_into_buffer(
    keys: &mut KeyboardBuffer,
    buffer: &mut [u8],
    filled: usize,
) -> (r: LineRead)
    requires
        filled <= old(buffer)@.len(),
        has_line(old(keys)@) ==> filled + line_len(old(keys)@) < old(buffer)@.len(),
    ensures
        final(buffer)@.len() == old(buffer)@.len(),
        ({
            let k = line_len(old(keys)@);
            let room = old(buffer)@.len() - filled;
            if has_line(old(keys)@) {
                &&& r == LineRead::Complete((filled + k + 1) as usize)
                &&& final(keys)@ == old(keys)@.skip(k + 1)
                &&& final(buffer)@ == written_over(
                    old(buffer)@,
                    filled as int,
                    old(keys)@.take(k + 1),
                )
            } else {
                let stored = if k <= room {
                    k
                } else {
                    room
                };
                &&& r == LineRead::Pending((filled + stored) as usize)
                &&& final(keys)@ == Seq::<u8>::empty()
                &&& final(buffer)@ == written_over(old(buffer)@, filled as int, old(keys)@.take(stored))
            }
        }),
{
    let mut i = filled;
    let ghost orig = keys@;
    let ghost start = buffer@;
    let ghost mut p: int = 0;
    assert(keys@ =~= orig.skip(0));
    assert(buffer@ =~= written_over(start, filled as int, orig.take(0)));
    loop
        invariant
            orig == old(keys)@,
            start == old(buffer)@,
            0 <= p <= orig.len(),
            keys@ == orig.skip(p),
            forall|t: int| 0 <= t < p ==> orig[t] != 0x0A,
            filled <= i <= buffer@.len(),
            buffer@.len() == start.len(),
            i == if filled + p <= start.len() {
                filled + p
            } else {
                start.len() as int
            },
            buffer@ == written_over(start, filled as int, orig.take(i - filled)),
            has_line(orig) ==> filled + line_len(orig) < start.len(),
        decreases orig.len() - p,
    {
        proof {
            lemma_line_len_skip(orig, p);
        }
        match read_key_from_buffer(keys) {
            Some(ch) => {
                assert(orig.skip(p).skip(1) =~= orig.skip(p + 1));
                if ch == '\n' {
                    assert(orig[p] == 0x0A);
                    buffer[i] = 0x0A;
                    assert(buffer@ =~= written_over(start, filled as int, orig.take(p + 1)));
                    return LineRead::Complete(i + 1);
                }
                assert(orig[p] != 0x0A);
                if i < buffer.len() {
                    buffer[i] = ch as u8;
                    assert(buffer@ =~= written_over(start, filled as int, orig.take(i + 1 - filled)));
                    i += 1;
                }
                proof {
                    p = p + 1;
                }
            },
            None => {
                assert(orig.skip(p).len() == 0);
                assert(keys@ =~= Seq::<u8>::empty());
                return LineRead::Pending(i);
            },
        }
    }
}

} // verus!
