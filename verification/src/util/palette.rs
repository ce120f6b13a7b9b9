//! Colours: the base colours of slots, and colours as text.

use vstd::prelude::*;
use vstd::string::*;

verus! {

/// The number of base colours of each side.
pub const PALETTE_SIZE: usize = 8;

/// The base colour of the input slot number `id`: red, green and blue.
pub open spec fn input_base(id: u32) -> (i32, i32, i32) {
    match id % 8 {
        0 => (10, 62, 226),
        1 => (208, 37, 37),
        2 => (117, 20, 237),
        3 => (10, 62, 226),
        4 => (76, 111, 227),
        5 => (240, 103, 103),
        6 => (174, 121, 240),
        _ => (238, 123, 240),
    }
}

/// The base colour of the output slot number `id`: red, green and blue.
pub open spec fn output_base(id: u32) -> (i32, i32, i32) {
    match id % 8 {
        0 => (25, 231, 83),
        1 => (160, 234, 0),
        2 => (44, 230, 230),
        3 => (226, 219, 19),
        4 => (104, 255, 136),
        5 => (203, 246, 111),
        6 => (126, 237, 237),
        _ => (245, 240, 113),
    }
}

/// The base colour of the input slot number `input_id`.
pub fn input_base_color(input_id: u32) -> (color: (i32, i32, i32))
    ensures
        color == input_base(input_id),
{
    match input_id % 8 {
        0 => (10, 62, 226),
        1 => (208, 37, 37),
        2 => (117, 20, 237),
        3 => (10, 62, 226),
        4 => (76, 111, 227),
        5 => (240, 103, 103),
        6 => (174, 121, 240),
        _ => (238, 123, 240),
    }
}

/// The base colour of the output slot number `output_id`.
pub fn output_base_color(output_id: u32) -> (color: (i32, i32, i32))
    ensures
        color == output_base(output_id),
{
    match output_id % 8 {
        0 => (25, 231, 83),
        1 => (160, 234, 0),
        2 => (44, 230, 230),
        3 => (226, 219, 19),
        4 => (104, 255, 136),
        5 => (203, 246, 111),
        6 => (126, 237, 237),
        _ => (245, 240, 113),
    }
}

/// `v`, but no less than 0 and no more than 255.
pub open spec fn clamped(v: int) -> int {
    if v < 0 {
        0
    } else if v > 255 {
        255
    } else {
        v
    }
}

/// The hexadecimal digit of a number below sixteen.
pub open spec fn hex_digit(d: int) -> &'static str {
    if d == 0 {
        "0"
    } else if d == 1 {
        "1"
    } else if d == 2 {
        "2"
    } else if d == 3 {
        "3"
    } else if d == 4 {
        "4"
    } else if d == 5 {
        "5"
    } else if d == 6 {
        "6"
    } else if d == 7 {
        "7"
    } else if d == 8 {
        "8"
    } else if d == 9 {
        "9"
    } else if d == 10 {
        "a"
    } else if d == 11 {
        "b"
    } else if d == 12 {
        "c"
    } else if d == 13 {
        "d"
    } else if d == 14 {
        "e"
    } else {
        "f"
    }
}

/// The two hexadecimal digits of a colour component.
pub open spec fn hex_pair(v: int) -> Seq<char> {
    hex_digit(clamped(v) / 16)@ + hex_digit(clamped(v) % 16)@
}

/// A colour as text: two hexadecimal digits for red, green and blue each.
pub open spec fn color_text(r: int, g: int, b: int) -> Seq<char> {
    hex_pair(r) + hex_pair(g) + hex_pair(b)
}

/// The hexadecimal digit of a number below sixteen.
fn digit(d: i32) -> (text: &'static str)
    requires
        0 <= d < 16,
    ensures
        text == hex_digit(d as int),
{
    if d == 0 {
        "0"
    } else if d == 1 {
        "1"
    } else if d == 2 {
        "2"
    } else if d == 3 {
        "3"
    } else if d == 4 {
        "4"
    } else if d == 5 {
        "5"
    } else if d == 6 {
        "6"
    } else if d == 7 {
        "7"
    } else if d == 8 {
        "8"
    } else if d == 9 {
        "9"
    } else if d == 10 {
        "a"
    } else if d == 11 {
        "b"
    } else if d == 12 {
        "c"
    } else if d == 13 {
        "d"
    } else if d == 14 {
        "e"
    } else {
        "f"
    }
}

/// Adds the two hexadecimal digits of a colour component to the text.
fn push_pair(text: &mut String, v: i32)
    ensures
        final(text)@ == old(text)@ + hex_pair(v as int),
{
    let c: i32 = if v < 0 {
        0
    } else if v > 255 {
        255
    } else {
        v
    };
    let ghost before = text@;
    text.append(digit(c / 16));
    text.append(digit(c % 16));
    proof {
        assert(text@ =~= before + hex_pair(v as int));
    }
}

/// Writes a colour as text. Each component is taken to be at least 0 and
/// at most 255.
pub fn color_to_string(r: i32, g: i32, b: i32) -> (text: String)
    ensures
        text@ == color_text(r as int, g as int, b as int),
{
    let mut text = String::new();
    push_pair(&mut text, r);
    push_pair(&mut text, g);
    push_pair(&mut text, b);
    proof {
        assert(text@ =~= color_text(r as int, g as int, b as int));
    }
    text
}

} // verus!
