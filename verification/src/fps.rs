//! The diagnostics overlay: the smoothed frame rate, rendered as
//! fixed-format text at a fixed position in a reserved font.
//!
//! The environment samples the frame rate; it reaches this crate as a
//! whole number of tenths of a frame per second, and is formatted here
//! with one decimal digit.

use vstd::prelude::*;

use crate::types::{Alignment, Color, FontHandle, TextDraw, TextDrawV};

verus! {

/// The character of one decimal digit.
pub open spec fn digit_char(d: int) -> char {
    if d == 0 {
        '0'
    } else if d == 1 {
        '1'
    } else if d == 2 {
        '2'
    } else if d == 3 {
        '3'
    } else if d == 4 {
        '4'
    } else if d == 5 {
        '5'
    } else if d == 6 {
        '6'
    } else if d == 7 {
        '7'
    } else if d == 8 {
        '8'
    } else {
        '9'
    }
}

/// The decimal digits of a number, most significant first.
pub open spec fn dec_digits(n: nat) -> Seq<char>
    decreases n,
{
    if n < 10 {
        seq![digit_char(n as int)]
    } else {
        dec_digits(n / 10).push(digit_char((n % 10) as int))
    }
}

/// The overlay text for a frame rate given in tenths of a frame per
/// second: the whole part, a point, and one decimal digit.
pub open spec fn fps_text(tenths: nat) -> Seq<char> {
    "FPS: "@ + dec_digits(tenths / 10) + "."@ + dec_digits(tenths % 10)
}

/// A one-character string for a decimal digit.
fn digit_str(d: u32) -> (r: &'static str)
    requires
        d < 10,
    ensures
        r@ == seq![digit_char(d as int)],
{
    if d == 0 {
        proof { reveal_strlit("0"); }
        assert("0"@ =~= seq![digit_char(0)]);
        "0"
    } else if d == 1 {
        proof { reveal_strlit("1"); }
        assert("1"@ =~= seq![digit_char(1)]);
        "1"
    } else if d == 2 {
        proof { reveal_strlit("2"); }
        assert("2"@ =~= seq![digit_char(2)]);
        "2"
    } else if d == 3 {
        proof { reveal_strlit("3"); }
        assert("3"@ =~= seq![digit_char(3)]);
        "3"
    } else if d == 4 {
        proof { reveal_strlit("4"); }
        assert("4"@ =~= seq![digit_char(4)]);
        "4"
    } else if d == 5 {
        proof { reveal_strlit("5"); }
        assert("5"@ =~= seq![digit_char(5)]);
        "5"
    } else if d == 6 {
        proof { reveal_strlit("6"); }
        assert("6"@ =~= seq![digit_char(6)]);
        "6"
    } else if d == 7 {
        proof { reveal_strlit("7"); }
        assert("7"@ =~= seq![digit_char(7)]);
        "7"
    } else if d == 8 {
        proof { reveal_strlit("8"); }
        assert("8"@ =~= seq![digit_char(8)]);
        "8"
    } else {
        proof { reveal_strlit("9"); }
        assert("9"@ =~= seq![digit_char(9)]);
        "9"
    }
}

/// Appends the decimal digits of `n` to a string.
fn push_digits(s: &mut String, n: u32)
    ensures
        final(s)@ == old(s)@ + dec_digits(n as nat),
    decreases n,
{
    if n < 10 {
        s.append(digit_str(n));
    } else {
        push_digits(s, n / 10);
        s.append(digit_str(n % 10));
        proof {
            assert(old(s)@ + dec_digits((n / 10) as nat) + seq![
                digit_char((n % 10) as int),
            ] =~= old(s)@ + dec_digits(n as nat));
        }
    }
}

/// Formats a frame rate given in tenths of a frame per second with one
/// decimal digit.
pub fn format_fps(tenths: u32) -> (s: String)
    ensures
        s@ == fps_text(tenths as nat),
{
    let mut s = String::from_str("FPS: ");
    push_digits(&mut s, tenths / 10);
    s.append(".");
    push_digits(&mut s, tenths % 10);
    proof {
        assert(s@ =~= fps_text(tenths as nat));
    }
    s
}

/// The overlay's text draw: the formatted rate in the given font, size 8,
/// green, left-aligned at the fixed position (10, 10).
pub open spec fn fps_overlay_spec(tenths: nat, font: FontHandle) -> TextDrawV {
    TextDrawV {
        content: fps_text(tenths),
        font: font,
        font_size: 8,
        color: Color { r: 0, g: 255, b: 0 },
        align: Alignment::Left,
        x: 10,
        y: 10,
        box_width: None,
    }
}

/// Builds the overlay's queued text draw.
pub fn fps_overlay(tenths: u32, font: FontHandle) -> (t: TextDraw)
    ensures
        t@ == fps_overlay_spec(tenths as nat, font),
{
    TextDraw {
        content: format_fps(tenths),
        font: font,
        font_size: 8,
        color: Color { r: 0, g: 255, b: 0 },
        align: Alignment::Left,
        x: 10,
        y: 10,
        box_width: None,
    }
}

} // verus!
