//! Controls: what the keyboard and the mouse of the client's window do.
//!
//! While the pointer is grabbed, motion and buttons go to the host. A click grabs it, and the
//! escape key or a loss of focus releases it.
use vstd::prelude::*;

use crate::bytes::{law_numbers, le16_bytes, little};
use crate::input;
use crate::input::{
    be_i16, message, MouseButton, MAGIC_HSCROLL, MAGIC_KEY_DOWN, MAGIC_KEY_UP, MAGIC_MOUSE_BTN_DOWN,
    MAGIC_MOUSE_BTN_UP, MAGIC_MOUSE_MOVE_REL, MAGIC_SCROLL,
};

verus! {

/// A key by its place on the keyboard.
#[derive(Debug, Clone, Copy, PartialEq, Eq, Structural)]
pub enum Key {
    KeyA,
    KeyB,
    KeyC,
    KeyD,
    KeyE,
    KeyF,
    KeyG,
    KeyH,
    KeyI,
    KeyJ,
    KeyK,
    KeyL,
    KeyM,
    KeyN,
    KeyO,
    KeyP,
    KeyQ,
    KeyR,
    KeyS,
    KeyT,
    KeyU,
    KeyV,
    KeyW,
    KeyX,
    KeyY,
    KeyZ,
    Digit0,
    Digit1,
    Digit2,
    Digit3,
    Digit4,
    Digit5,
    Digit6,
    Digit7,
    Digit8,
    Digit9,
    F1,
    F2,
    F3,
    F4,
    F5,
    F6,
    F7,
    F8,
    F9,
    F10,
    F11,
    F12,
    Escape,
    Space,
    Enter,
    Backspace,
    Tab,
    CapsLock,
    ShiftLeft,
    ShiftRight,
    ControlLeft,
    ControlRight,
    AltLeft,
    AltRight,
    SuperLeft,
    SuperRight,
    ArrowLeft,
    ArrowUp,
    ArrowRight,
    ArrowDown,
    Home,
    End,
    PageUp,
    PageDown,
    Insert,
    Delete,
    Minus,
    Equal,
    BracketLeft,
    BracketRight,
    Backslash,
    Semicolon,
    Quote,
    Backquote,
    Comma,
    Period,
    Slash,
    /// A key that the host has no code for.
    Other,
}

/// The virtual key code that the host knows a key by.
pub open spec fn virtual_key(code: Key) -> Option<u16> {
    match code {
        Key::KeyA => Some(0x41),
        Key::KeyB => Some(0x42),
        Key::KeyC => Some(0x43),
        Key::KeyD => Some(0x44),
        Key::KeyE => Some(0x45),
        Key::KeyF => Some(0x46),
        Key::KeyG => Some(0x47),
        Key::KeyH => Some(0x48),
        Key::KeyI => Some(0x49),
        Key::KeyJ => Some(0x4A),
        Key::KeyK => Some(0x4B),
        Key::KeyL => Some(0x4C),
        Key::KeyM => Some(0x4D),
        Key::KeyN => Some(0x4E),
        Key::KeyO => Some(0x4F),
        Key::KeyP => Some(0x50),
        Key::KeyQ => Some(0x51),
        Key::KeyR => Some(0x52),
        Key::KeyS => Some(0x53),
        Key::KeyT => Some(0x54),
        Key::KeyU => Some(0x55),
        Key::KeyV => Some(0x56),
        Key::KeyW => Some(0x57),
        Key::KeyX => Some(0x58),
        Key::KeyY => Some(0x59),
        Key::KeyZ => Some(0x5A),
        Key::Digit0 => Some(0x30),
        Key::Digit1 => Some(0x31),
        Key::Digit2 => Some(0x32),
        Key::Digit3 => Some(0x33),
        Key::Digit4 => Some(0x34),
        Key::Digit5 => Some(0x35),
        Key::Digit6 => Some(0x36),
        Key::Digit7 => Some(0x37),
        Key::Digit8 => Some(0x38),
        Key::Digit9 => Some(0x39),
        Key::F1 => Some(0x70),
        Key::F2 => Some(0x71),
        Key::F3 => Some(0x72),
        Key::F4 => Some(0x73),
        Key::F5 => Some(0x74),
        Key::F6 => Some(0x75),
        Key::F7 => Some(0x76),
        Key::F8 => Some(0x77),
        Key::F9 => Some(0x78),
        Key::F10 => Some(0x79),
        Key::F11 => Some(0x7A),
        Key::F12 => Some(0x7B),
        Key::Escape => Some(0x1B),
        Key::Space => Some(0x20),
        Key::Enter => Some(0x0D),
        Key::Backspace => Some(0x08),
        Key::Tab => Some(0x09),
        Key::CapsLock => Some(0x14),
        Key::ShiftLeft | Key::ShiftRight => Some(0x10),
        Key::ControlLeft | Key::ControlRight => Some(0x11),
        Key::AltLeft | Key::AltRight => Some(0x12),
        Key::SuperLeft => Some(0x5B),
        Key::SuperRight => Some(0x5C),
        Key::ArrowLeft => Some(0x25),
        Key::ArrowUp => Some(0x26),
        Key::ArrowRight => Some(0x27),
        Key::ArrowDown => Some(0x28),
        Key::Home => Some(0x24),
        Key::End => Some(0x23),
        Key::PageUp => Some(0x21),
        Key::PageDown => Some(0x22),
        Key::Insert => Some(0x2D),
        Key::Delete => Some(0x2E),
        Key::Minus => Some(0xBD),
        Key::Equal => Some(0xBB),
        Key::BracketLeft => Some(0xDB),
        Key::BracketRight => Some(0xDD),
        Key::Backslash => Some(0xDC),
        Key::Semicolon => Some(0xBA),
        Key::Quote => Some(0xDE),
        Key::Backquote => Some(0xC0),
        Key::Comma => Some(0xBC),
        Key::Period => Some(0xBE),
        Key::Slash => Some(0xBF),
        Key::Other => None,
    }
}

/// The virtual key code that the host knows a key by.
pub fn vk_from_keycode(code: Key) -> (r: Option<u16>)
    ensures
        r == virtual_key(code),
{
    match code {
        Key::KeyA => Some(0x41),
        Key::KeyB => Some(0x42),
        Key::KeyC => Some(0x43),
        Key::KeyD => Some(0x44),
        Key::KeyE => Some(0x45),
        Key::KeyF => Some(0x46),
        Key::KeyG => Some(0x47),
        Key::KeyH => Some(0x48),
        Key::KeyI => Some(0x49),
        Key::KeyJ => Some(0x4A),
        Key::KeyK => Some(0x4B),
        Key::KeyL => Some(0x4C),
        Key::KeyM => Some(0x4D),
        Key::KeyN => Some(0x4E),
        Key::KeyO => Some(0x4F),
        Key::KeyP => Some(0x50),
        Key::KeyQ => Some(0x51),
        Key::KeyR => Some(0x52),
        Key::KeyS => Some(0x53),
        Key::KeyT => Some(0x54),
        Key::KeyU => Some(0x55),
        Key::KeyV => Some(0x56),
        Key::KeyW => Some(0x57),
        Key::KeyX => Some(0x58),
        Key::KeyY => Some(0x59),
        Key::KeyZ => Some(0x5A),
        Key::Digit0 => Some(0x30),
        Key::Digit1 => Some(0x31),
        Key::Digit2 => Some(0x32),
        Key::Digit3 => Some(0x33),
        Key::Digit4 => Some(0x34),
        Key::Digit5 => Some(0x35),
        Key::Digit6 => Some(0x36),
        Key::Digit7 => Some(0x37),
        Key::Digit8 => Some(0x38),
        Key::Digit9 => Some(0x39),
        Key::F1 => Some(0x70),
        Key::F2 => Some(0x71),
        Key::F3 => Some(0x72),
        Key::F4 => Some(0x73),
        Key::F5 => Some(0x74),
        Key::F6 => Some(0x75),
        Key::F7 => Some(0x76),
        Key::F8 => Some(0x77),
        Key::F9 => Some(0x78),
        Key::F10 => Some(0x79),
        Key::F11 => Some(0x7A),
        Key::F12 => Some(0x7B),
        Key::Escape => Some(0x1B),
        Key::Space => Some(0x20),
        Key::Enter => Some(0x0D),
        Key::Backspace => Some(0x08),
        Key::Tab => Some(0x09),
        Key::CapsLock => Some(0x14),
        Key::ShiftLeft | Key::ShiftRight => Some(0x10),
        Key::ControlLeft | Key::ControlRight => Some(0x11),
        Key::AltLeft | Key::AltRight => Some(0x12),
        Key::SuperLeft => Some(0x5B),
        Key::SuperRight => Some(0x5C),
        Key::ArrowLeft => Some(0x25),
        Key::ArrowUp => Some(0x26),
        Key::ArrowRight => Some(0x27),
        Key::ArrowDown => Some(0x28),
        Key::Home => Some(0x24),
        Key::End => Some(0x23),
        Key::PageUp => Some(0x21),
        Key::PageDown => Some(0x22),
        Key::Insert => Some(0x2D),
        Key::Delete => Some(0x2E),
        Key::Minus => Some(0xBD),
        Key::Equal => Some(0xBB),
        Key::BracketLeft => Some(0xDB),
        Key::BracketRight => Some(0xDD),
        Key::Backslash => Some(0xDC),
        Key::Semicolon => Some(0xBA),
        Key::Quote => Some(0xDE),
        Key::Backquote => Some(0xC0),
        Key::Comma => Some(0xBC),
        Key::Period => Some(0xBE),
        Key::Slash => Some(0xBF),
        Key::Other => None,
    }
}

/// The bit that a modifier key has in the mask; zero for other keys.
pub open spec fn modifier_bit(vk: u16) -> u8 {
    match vk {
        0x10 => 0x01,
        0x11 => 0x02,
        0x12 => 0x04,
        0x5B => 0x08,
        0x5C => 0x08,
        _ => 0x00,
    }
}

/// The mask after a key went down or up.
pub open spec fn with_modifier(mask: u8, vk: u16, down: bool) -> u8 {
    if down {
        mask | modifier_bit(vk)
    } else {
        mask & !modifier_bit(vk)
    }
}

/// What the window has to do for an event.
#[derive(Debug, PartialEq, Eq)]
pub enum Action {
    Nothing,
    /// Lock and hide the pointer.
    Grab,
    /// Give the pointer back.
    Release,
    /// Fill the screen, or leave it.
    Fullscreen(bool),
    /// Send a message to the host.
    Send(Vec<u8>),
}

/// Whether an action is to send `m`.
pub open spec fn sends(a: Action, m: Seq<u8>) -> bool {
    a matches Action::Send(v) && v@ == m
}

/// The message for a key.
pub open spec fn key_message(vk: u16, modifiers: u8, down: bool) -> Seq<u8> {
    message(
        if down {
            MAGIC_KEY_DOWN
        } else {
            MAGIC_KEY_UP
        },
        seq![0u8] + le16_bytes(vk) + seq![modifiers, 0u8, 0u8],
    )
}

/// The message for a mouse button.
pub open spec fn button_message(button: MouseButton, down: bool) -> Seq<u8> {
    message(
        if down {
            MAGIC_MOUSE_BTN_DOWN
        } else {
            MAGIC_MOUSE_BTN_UP
        },
        seq![button.number()],
    )
}

/// The state of the controls.
#[derive(Debug, Clone, Copy, PartialEq, Eq)]
pub struct Controls {
    /// Whether the pointer is grabbed.
    pub grabbed: bool,
    /// The modifier keys that are down.
    pub modifiers: u8,
    /// Whether the window fills the screen.
    pub fullscreen: bool,
    /// The size of the latest frame, to which positions of the pointer refer.
    pub stream_size: Option<(u32, u32)>,
}

impl Controls {
    /// Nothing grabbed or down, and no frame seen.
    pub fn new(fullscreen: bool) -> (r: Self)
        ensures
            r == (Controls { grabbed: false, modifiers: 0, fullscreen, stream_size: None }),
    {
        Controls { grabbed: false, modifiers: 0, fullscreen, stream_size: None }
    }

    /// Keep the mask of modifier keys.
    fn track_modifier(&mut self, vk: u16, down: bool)
        ensures
            *final(self) == (Controls {
                modifiers: with_modifier(old(self).modifiers, vk, down),
                ..*old(self)
            }),
    {
        let bit: u8 = match vk {
            0x10 => 0x01,
            0x11 => 0x02,
            0x12 => 0x04,
            0x5B => 0x08,
            0x5C => 0x08,
            _ => 0x00,
        };
        if down {
            self.modifiers = self.modifiers | bit;
        } else {
            self.modifiers = self.modifiers & !bit;
        }
    }

    /// A key went down or up. The escape key releases a grabbed pointer, and F11 fills or leaves
    /// the screen: neither goes to the host then.
    pub fn on_key(&mut self, key: Key, down: bool) -> (r: Action)
        ensures
            key == Key::Escape && old(self).grabbed ==> r == Action::Release && *final(self) == (
            Controls { grabbed: false, ..*old(self) }),
            key == Key::F11 && down ==> r == Action::Fullscreen(!old(self).fullscreen) && *final(self)
                == (Controls { fullscreen: !old(self).fullscreen, ..*old(self) }),
            key == Key::F11 && !down ==> r == Action::Nothing && *final(self) == *old(self),
            key != Key::F11 && !(key == Key::Escape && old(self).grabbed) ==> match virtual_key(
                key,
            ) {
                Some(vk) => {
                    let mask = with_modifier(old(self).modifiers, vk, down);
                    &&& sends(r, key_message(vk, mask, down))
                    &&& *final(self) == (Controls { modifiers: mask, ..*old(self) })
                },
                None => r == Action::Nothing && *final(self) == *old(self),
            },
    {
        if key == Key::Escape && self.grabbed {
            self.grabbed = false;
            return Action::Release;
        }
        if key == Key::F11 {
            if down {
                self.fullscreen = !self.fullscreen;
                return Action::Fullscreen(self.fullscreen);
            }
            return Action::Nothing;
        }
        match vk_from_keycode(key) {
            Some(vk) => {
                self.track_modifier(vk, down);
                Action::Send(input::key(vk, self.modifiers, down))
            },
            None => Action::Nothing,
        }
    }

    /// A mouse button went down or up; `None` for one that the host does not know. The click that
    /// grabs the pointer does not go to the host.
    pub fn on_button(&mut self, button: Option<MouseButton>, down: bool) -> (r: Action)
        ensures
            !old(self).grabbed && down ==> r == Action::Grab && *final(self) == (Controls {
                grabbed: true,
                ..*old(self)
            }),
            !old(self).grabbed && !down ==> r == Action::Nothing && *final(self) == *old(self),
            old(self).grabbed ==> *final(self) == *old(self) && match button {
                Some(b) => sends(r, button_message(b, down)),
                None => r == Action::Nothing,
            },
    {
        if !self.grabbed {
            if down {
                self.grabbed = true;
                return Action::Grab;
            }
            return Action::Nothing;
        }
        match button {
            Some(b) => Action::Send(input::mouse_button(b, down)),
            None => Action::Nothing,
        }
    }

    /// The window lost the focus.
    pub fn on_focus_lost(&mut self) -> (r: Action)
        ensures
            r == Action::Release,
            *final(self) == (Controls { grabbed: false, ..*old(self) }),
    {
        self.grabbed = false;
        Action::Release
    }

    /// The mouse moved by whole counts; `moved` says whether it moved at all. Only a grabbed
    /// pointer moves the host's.
    pub fn on_motion(&self, dx: i16, dy: i16, moved: bool) -> (r: Action)
        ensures
            self.grabbed && moved ==> sends(
                r,
                message(MAGIC_MOUSE_MOVE_REL, be_i16(dx) + be_i16(dy)),
            ),
            !(self.grabbed && moved) ==> r == Action::Nothing,
    {
        if self.grabbed && moved {
            Action::Send(input::mouse_move_rel(dx, dy))
        } else {
            Action::Nothing
        }
    }

    /// The wheel turned: the messages for the two axes, without those along which it did not turn.
    pub fn on_scroll(&self, vertical: Option<i16>, horizontal: Option<i16>) -> (r: Vec<Vec<u8>>)
        ensures
            r@.len() == (if vertical is Some {
                1int
            } else {
                0
            }) + (if horizontal is Some {
                1int
            } else {
                0
            }),
            vertical matches Some(dy) ==> r@[0]@ == message(
                MAGIC_SCROLL,
                be_i16(dy) + be_i16(dy) + be_i16(0),
            ),
            horizontal matches Some(dx) ==> r@.last()@ == message(MAGIC_HSCROLL, be_i16(dx)),
    {
        let mut out: Vec<Vec<u8>> = Vec::with_capacity(2);
        if let Some(dy) = vertical {
            out.push(input::scroll_vertical(dy));
        }
        if let Some(dx) = horizontal {
            out.push(input::scroll_horizontal(dx));
        }
        out
    }

    /// The size to which the position of a pointer that is not grabbed refers; `None` if the
    /// position is of no use to the host.
    pub fn cursor_frame(&self) -> (r: Option<(u32, u32)>)
        ensures
            r == if self.grabbed {
                None
            } else {
                self.stream_size
            },
    {
        if self.grabbed {
            None
        } else {
            self.stream_size
        }
    }

    /// A frame of the given size was decoded.
    pub fn on_frame(&mut self, width: u32, height: u32)
        ensures
            *final(self) == (Controls { stream_size: Some((width, height)), ..*old(self) }),
    {
        self.stream_size = Some((width, height));
    }
}

/// A modifier key that went down and up again leaves the mask without its bit, and the other bits
/// as they were.
pub proof fn law_modifier_released(mask: u8, vk: u16)
    ensures
        with_modifier(with_modifier(mask, vk, true), vk, false) == mask & !modifier_bit(vk),
{
    let bit = modifier_bit(vk);
    assert((mask | bit) & !bit == mask & !bit) by (bit_vector);
}

/// The modifiers that hosts know by one bit each, whichever of two keys it is.
pub proof fn law_modifier_bits(mask: u8)
    ensures
        virtual_key(Key::ShiftLeft) == virtual_key(Key::ShiftRight),
        virtual_key(Key::ControlLeft) == virtual_key(Key::ControlRight),
        virtual_key(Key::AltLeft) == virtual_key(Key::AltRight),
        with_modifier(0, virtual_key(Key::ShiftLeft)->0, true) == 1,
        with_modifier(0, virtual_key(Key::ControlLeft)->0, true) == 2,
        with_modifier(0, virtual_key(Key::AltLeft)->0, true) == 4,
        with_modifier(0, virtual_key(Key::SuperLeft)->0, true) == 8,
        with_modifier(0, virtual_key(Key::SuperRight)->0, true) == 8,
        with_modifier(mask, virtual_key(Key::KeyA)->0, true) == mask,
        with_modifier(mask, virtual_key(Key::KeyA)->0, false) == mask,
{
    assert(0u8 | 1 == 1 && 0u8 | 2 == 2 && 0u8 | 4 == 4 && 0u8 | 8 == 8) by (bit_vector);
    assert(mask | 0 == mask && mask & !0u8 == mask) by (bit_vector);
}

/// The message for a key is read back: its code, the modifiers, and whether it went down.
pub proof fn law_key_message(vk: u16, modifiers: u8, down: bool)
    ensures
        ({
            let m = key_message(vk, modifiers, down);
            &&& m.len() == 16
            &&& little(m.subrange(0, 2)) == 0x0206
            &&& little(m.subrange(6, 10)) == if down {
                3
            } else {
                4nat
            }
            &&& m[10] == 0
            &&& little(m.subrange(11, 13)) == vk
            &&& m[13] == modifiers
            &&& m[14] == 0 && m[15] == 0
        }),
{
    let m = key_message(vk, modifiers, down);
    let body = seq![0u8] + le16_bytes(vk) + seq![modifiers, 0u8, 0u8];
    let kind: u32 = if down {
        MAGIC_KEY_DOWN
    } else {
        MAGIC_KEY_UP
    };
    input::law_message(kind, body);
    law_numbers(Seq::empty(), 0, vk, 0);
    assert(m.skip(10) == body);
    assert(m[10] == body[0] && m[13] == body[3] && m[14] == body[4] && m[15] == body[5]);
    assert(m.subrange(11, 13) =~= m.skip(10).subrange(1, 3));
    assert(body.subrange(1, 3) =~= le16_bytes(vk));
}

/// The message for a button is read back: its number, and whether it went down.
pub proof fn law_button_message(button: MouseButton, down: bool)
    ensures
        ({
            let m = button_message(button, down);
            &&& m.len() == 11
            &&& little(m.subrange(0, 2)) == 0x0206
            &&& little(m.subrange(6, 10)) == if down {
                8
            } else {
                9nat
            }
            &&& m[10] == match button {
                MouseButton::Left => 1u8,
                MouseButton::Middle => 2u8,
                MouseButton::Right => 3u8,
                MouseButton::Side1 => 4u8,
                MouseButton::Side2 => 5u8,
            }
        }),
{
    let m = button_message(button, down);
    let body = seq![button.number()];
    let kind: u32 = if down {
        MAGIC_MOUSE_BTN_DOWN
    } else {
        MAGIC_MOUSE_BTN_UP
    };
    input::law_message(kind, body);
    assert(m.skip(10)[0] == m[10]);
}

/// The character that a key of the letter and the digit rows is marked with.
pub open spec fn marking(key: Key) -> Option<char> {
    match key {
        Key::KeyA => Some('A'),
        Key::KeyB => Some('B'),
        Key::KeyC => Some('C'),
        Key::KeyD => Some('D'),
        Key::KeyE => Some('E'),
        Key::KeyF => Some('F'),
        Key::KeyG => Some('G'),
        Key::KeyH => Some('H'),
        Key::KeyI => Some('I'),
        Key::KeyJ => Some('J'),
        Key::KeyK => Some('K'),
        Key::KeyL => Some('L'),
        Key::KeyM => Some('M'),
        Key::KeyN => Some('N'),
        Key::KeyO => Some('O'),
        Key::KeyP => Some('P'),
        Key::KeyQ => Some('Q'),
        Key::KeyR => Some('R'),
        Key::KeyS => Some('S'),
        Key::KeyT => Some('T'),
        Key::KeyU => Some('U'),
        Key::KeyV => Some('V'),
        Key::KeyW => Some('W'),
        Key::KeyX => Some('X'),
        Key::KeyY => Some('Y'),
        Key::KeyZ => Some('Z'),
        Key::Digit0 => Some('0'),
        Key::Digit1 => Some('1'),
        Key::Digit2 => Some('2'),
        Key::Digit3 => Some('3'),
        Key::Digit4 => Some('4'),
        Key::Digit5 => Some('5'),
        Key::Digit6 => Some('6'),
        Key::Digit7 => Some('7'),
        Key::Digit8 => Some('8'),
        Key::Digit9 => Some('9'),
        Key::Space => Some(' '),
        Key::Enter => Some('\r'),
        Key::Tab => Some('\t'),
        _ => None,
    }
}

/// Whether two keys are the left and the right one of a pair that hosts do not tell apart.
pub open spec fn are_twins(a: Key, b: Key) -> bool {
    ||| a is ShiftLeft && b is ShiftRight
    ||| a is ControlLeft && b is ControlRight
    ||| a is AltLeft && b is AltRight
}

/// A key that stands for a character has the code of that character.
pub proof fn law_marked_keys(key: Key)
    ensures
        marking(key) matches Some(c) ==> virtual_key(key) == Some(c as u16),
{
}

/// Keys have different codes, but for the left and the right one of a modifier, and every key that
/// hosts know has one.
pub proof fn law_codes_differ(a: Key, b: Key)
    ensures
        virtual_key(a) is None <==> a is Other,
        virtual_key(a) == virtual_key(b) <==> a == b || are_twins(a, b) || are_twins(b, a),
{
}

/// The codes of the function keys, of the keys that move through a text, and of the keys for
/// punctuation, each in the order of the codes.
pub proof fn law_runs_of_codes(i: int)
    ensures
        ({
            let keys = seq![
                Key::F1,
                Key::F2,
                Key::F3,
                Key::F4,
                Key::F5,
                Key::F6,
                Key::F7,
                Key::F8,
                Key::F9,
                Key::F10,
                Key::F11,
                Key::F12,
            ];
            0 <= i < keys.len() ==> virtual_key(keys[i]) == Some((112 + i) as u16)
        }),
        ({
            let keys = seq![
                Key::PageUp,
                Key::PageDown,
                Key::End,
                Key::Home,
                Key::ArrowLeft,
                Key::ArrowUp,
                Key::ArrowRight,
                Key::ArrowDown,
            ];
            0 <= i < keys.len() ==> virtual_key(keys[i]) == Some((33 + i) as u16)
        }),
        ({
            let keys = seq![
                Key::Semicolon,
                Key::Equal,
                Key::Comma,
                Key::Minus,
                Key::Period,
                Key::Slash,
                Key::Backquote,
            ];
            0 <= i < keys.len() ==> virtual_key(keys[i]) == Some((186 + i) as u16)
        }),
        ({
            let keys = seq![Key::BracketLeft, Key::Backslash, Key::BracketRight, Key::Quote];
            0 <= i < keys.len() ==> virtual_key(keys[i]) == Some((219 + i) as u16)
        }),
{
}

} // verus!
