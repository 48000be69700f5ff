//! Keyboard and mouse events as control messages.
//!
//! A message is the control type in little-endian order, the size of what follows it in
//! big-endian order, the kind of the event in little-endian order and the body of the event.
use vstd::prelude::*;

use crate::bytes::{
    be16_bytes, be32_bytes, big, law_numbers, le16_bytes, le32_bytes, little, push_be16, push_be32,
    push_le16, push_le32, push_slice,
};

verus! {

/// The control type of input messages.
pub const CTRL_TYPE_INPUT: u16 = 0x0206;

pub const MAGIC_MOUSE_MOVE_REL: u32 = 0x07;

pub const MAGIC_MOUSE_MOVE_ABS: u32 = 0x05;

pub const MAGIC_MOUSE_BTN_DOWN: u32 = 0x08;

pub const MAGIC_MOUSE_BTN_UP: u32 = 0x09;

pub const MAGIC_SCROLL: u32 = 0x0A;

pub const MAGIC_HSCROLL: u32 = 0x5500_0001;

pub const MAGIC_KEY_DOWN: u32 = 0x03;

pub const MAGIC_KEY_UP: u32 = 0x04;

/// The buttons of a mouse.
#[derive(Debug, Clone, Copy, PartialEq, Eq, Structural)]
pub enum MouseButton {
    Left,
    Middle,
    Right,
    /// Back.
    Side1,
    /// Forward.
    Side2,
}

impl MouseButton {
    /// The number of the button on the wire.
    pub open spec fn number(self) -> u8 {
        match self {
            MouseButton::Left => 1,
            MouseButton::Middle => 2,
            MouseButton::Right => 3,
            MouseButton::Side1 => 4,
            MouseButton::Side2 => 5,
        }
    }

    /// The number of the button on the wire.
    pub fn to_u8(self) -> (r: u8)
        ensures
            r == self.number(),
    {
        match self {
            MouseButton::Left => 1,
            MouseButton::Middle => 2,
            MouseButton::Right => 3,
            MouseButton::Side1 => 4,
            MouseButton::Side2 => 5,
        }
    }
}

/// The two's complement of `x`.
pub open spec fn twos_complement(x: i16) -> u16 {
    if x >= 0 {
        x as u16
    } else {
        (x + 0x1_0000) as u16
    }
}

/// The message that carries an event.
pub open spec fn message(magic: u32, body: Seq<u8>) -> Seq<u8> {
    le16_bytes(CTRL_TYPE_INPUT) + be32_bytes((4 + body.len()) as u32) + le32_bytes(magic) + body
}

/// A signed number in big-endian order.
pub open spec fn be_i16(x: i16) -> Seq<u8> {
    be16_bytes(twos_complement(x))
}

fn push_i16(out: &mut Vec<u8>, x: i16)
    ensures
        final(out)@ == old(out)@ + be_i16(x),
{
    let n: u16 = if x >= 0 {
        x as u16
    } else {
        (x as i32 + 0x1_0000) as u16
    };
    push_be16(out, n);
}

fn frame(magic: u32, body: &[u8]) -> (r: Vec<u8>)
    requires
        4 + body.len() <= u32::MAX,
    ensures
        r@ == message(magic, body@),
{
    let mut v: Vec<u8> = Vec::with_capacity(10);
    push_le16(&mut v, CTRL_TYPE_INPUT);
    push_be32(&mut v, (4 + body.len()) as u32);
    push_le32(&mut v, magic);
    push_slice(&mut v, body);
    assert(v@ =~= message(magic, body@));
    v
}

/// Relative mouse motion.
pub fn mouse_move_rel(dx: i16, dy: i16) -> (r: Vec<u8>)
    ensures
        r@ == message(MAGIC_MOUSE_MOVE_REL, be_i16(dx) + be_i16(dy)),
{
    let mut body: Vec<u8> = Vec::with_capacity(4);
    push_i16(&mut body, dx);
    push_i16(&mut body, dy);
    assert(body@ =~= be_i16(dx) + be_i16(dy));
    frame(MAGIC_MOUSE_MOVE_REL, &body)
}

/// Mouse position in a viewport of the given size.
pub fn mouse_move_abs(x: i16, y: i16, width: i16, height: i16) -> (r: Vec<u8>)
    ensures
        r@ == message(
            MAGIC_MOUSE_MOVE_ABS,
            be_i16(x) + be_i16(y) + be_i16(0) + be_i16(width) + be_i16(height),
        ),
{
    let mut body: Vec<u8> = Vec::with_capacity(10);
    push_i16(&mut body, x);
    push_i16(&mut body, y);
    push_i16(&mut body, 0);
    push_i16(&mut body, width);
    push_i16(&mut body, height);
    assert(body@ =~= be_i16(x) + be_i16(y) + be_i16(0) + be_i16(width) + be_i16(height));
    frame(MAGIC_MOUSE_MOVE_ABS, &body)
}

/// A mouse button pressed or released.
pub fn mouse_button(button: MouseButton, down: bool) -> (r: Vec<u8>)
    ensures
        r@ == message(
            if down {
                MAGIC_MOUSE_BTN_DOWN
            } else {
                MAGIC_MOUSE_BTN_UP
            },
            seq![button.number()],
        ),
{
    let mut body: Vec<u8> = Vec::with_capacity(1);
    body.push(button.to_u8());
    assert(body@ =~= seq![button.number()]);
    let magic: u32 = if down {
        MAGIC_MOUSE_BTN_DOWN
    } else {
        MAGIC_MOUSE_BTN_UP
    };
    frame(magic, &body)
}

/// Vertical scrolling, upwards if positive, in 120ths of a notch.
pub fn scroll_vertical(amount: i16) -> (r: Vec<u8>)
    ensures
        r@ == message(MAGIC_SCROLL, be_i16(amount) + be_i16(amount) + be_i16(0)),
{
    let mut body: Vec<u8> = Vec::with_capacity(6);
    push_i16(&mut body, amount);
    push_i16(&mut body, amount);
    push_i16(&mut body, 0);
    assert(body@ =~= be_i16(amount) + be_i16(amount) + be_i16(0));
    frame(MAGIC_SCROLL, &body)
}

/// Horizontal scrolling, to the right if positive.
pub fn scroll_horizontal(amount: i16) -> (r: Vec<u8>)
    ensures
        r@ == message(MAGIC_HSCROLL, be_i16(amount)),
{
    let mut body: Vec<u8> = Vec::with_capacity(2);
    push_i16(&mut body, amount);
    assert(body@ =~= be_i16(amount));
    frame(MAGIC_HSCROLL, &body)
}

/// A key pressed or released: its virtual-key code and the modifiers that are held.
pub fn key(vk: u16, modifiers: u8, down: bool) -> (r: Vec<u8>)
    ensures
        r@ == message(
            if down {
                MAGIC_KEY_DOWN
            } else {
                MAGIC_KEY_UP
            },
            seq![0u8] + le16_bytes(vk) + seq![modifiers, 0u8, 0u8],
        ),
{
    let magic: u32 = if down {
        MAGIC_KEY_DOWN
    } else {
        MAGIC_KEY_UP
    };
    let mut body: Vec<u8> = Vec::with_capacity(6);
    body.push(0);
    push_le16(&mut body, vk);
    body.push(modifiers);
    push_le16(&mut body, 0);
    assert(body@ =~= seq![0u8] + le16_bytes(vk) + seq![modifiers, 0u8, 0u8]);
    frame(magic, &body)
}

/// The size field of a message counts the bytes after it.
pub proof fn law_size_field(magic: u32, body: Seq<u8>)
    requires
        4 + body.len() <= u32::MAX,
    ensures
        crate::bytes::be32_at(message(magic, body), 2) == message(magic, body).len() - 6,
{
    let n = (4 + body.len()) as u32;
    let m = message(magic, body);
    assert(m.subrange(2, 6) =~= be32_bytes(n));
    assert(m[2] == be32_bytes(n)[0] && m[3] == be32_bytes(n)[1] && m[4] == be32_bytes(n)[2] && m[5]
        == be32_bytes(n)[3]);
}

/// A message is read back: the control type, the size of what follows it, the kind of the event and
/// its body.
pub proof fn law_message(magic: u32, body: Seq<u8>)
    requires
        4 + body.len() <= u32::MAX,
    ensures
        ({
            let m = message(magic, body);
            &&& little(m.subrange(0, 2)) == 0x0206
            &&& big(m.subrange(2, 6)) == m.len() - 6
            &&& little(m.subrange(6, 10)) == magic
            &&& m.skip(10) == body
        }),
{
    let m = message(magic, body);
    let n = (4 + body.len()) as u32;
    law_numbers(Seq::empty(), 0, CTRL_TYPE_INPUT, n);
    law_numbers(Seq::empty(), 0, 0, magic);
    assert(m.subrange(0, 2) =~= le16_bytes(CTRL_TYPE_INPUT));
    assert(m.subrange(2, 6) =~= be32_bytes(n));
    assert(m.subrange(6, 10) =~= le32_bytes(magic));
    assert(m.skip(10) =~= body);
}

/// The number that two bytes stand for if the first bit is a sign.
pub open spec fn signed(b: Seq<u8>) -> int {
    if big(b) < 0x8000 {
        big(b) as int
    } else {
        big(b) - 0x1_0000
    }
}

/// A signed number is read back.
pub proof fn law_signed(x: i16)
    ensures
        be_i16(x).len() == 2,
        signed(be_i16(x)) == x,
{
    law_numbers(Seq::empty(), 0, twos_complement(x), 0);
}

/// The kinds of events and the numbers of the buttons as hosts know them.
pub proof fn law_kinds()
    ensures
        MAGIC_KEY_DOWN == 3 && MAGIC_KEY_UP == 4,
        MAGIC_MOUSE_MOVE_ABS == 5 && MAGIC_MOUSE_MOVE_REL == 7,
        MAGIC_MOUSE_BTN_DOWN == 8 && MAGIC_MOUSE_BTN_UP == 9,
        MAGIC_SCROLL == 10 && MAGIC_HSCROLL == 0x5500_0001,
        MouseButton::Left.number() == 1 && MouseButton::Middle.number() == 2
            && MouseButton::Right.number() == 3,
        MouseButton::Side1.number() == 4 && MouseButton::Side2.number() == 5,
{
}

} // verus!
