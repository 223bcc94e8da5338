use vstd::prelude::*;
use vstd::string::StrSliceExecFns;

verus! {

/// A color with red, green, blue and alpha components, one byte each.
#[derive(Clone, Copy, PartialEq, Eq, Structural, Debug)]
pub struct Rgba {
    pub r: u8,
    pub g: u8,
    pub b: u8,
    pub a: u8,
}

/// Why a color code string is rejected, component by component, in the
/// order the components are read.
#[derive(Clone, Copy, PartialEq, Eq, Structural, Debug)]
pub enum ColorError {
    /// After leading `#` signs, the code is not 6 or 8 characters long.
    BadLength,
    BadRed,
    BadGreen,
    BadBlue,
    BadAlpha,
}

pub open spec fn is_hex_digit(c: char) -> bool {
    ||| ('0' as u32) <= (c as u32) && (c as u32) <= ('9' as u32)
    ||| ('a' as u32) <= (c as u32) && (c as u32) <= ('f' as u32)
    ||| ('A' as u32) <= (c as u32) && (c as u32) <= ('F' as u32)
}

pub open spec fn hex_digit_val(c: char) -> int {
    if ('0' as u32) <= (c as u32) && (c as u32) <= ('9' as u32) {
        (c as u32) - ('0' as u32)
    } else if ('a' as u32) <= (c as u32) && (c as u32) <= ('f' as u32) {
        10 + (c as u32) - ('a' as u32)
    } else {
        10 + (c as u32) - ('A' as u32)
    }
}

/// A two-character color component, as the byte-radix parse reads it: two
/// hex digits, or a `+` sign followed by one hex digit.
pub open spec fn component_ok(a: char, b: char) -> bool {
    (is_hex_digit(a) || a == '+') && is_hex_digit(b)
}

pub open spec fn component_val(a: char, b: char) -> int {
    if a == '+' {
        hex_digit_val(b)
    } else {
        16 * hex_digit_val(a) + hex_digit_val(b)
    }
}

/// The code with its leading `#` signs removed.
pub open spec fn strip_hashes(s: Seq<char>) -> Seq<char>
    decreases s.len(),
{
    if s.len() > 0 && s[0] == '#' {
        strip_hashes(s.skip(1))
    } else {
        s
    }
}

proof fn lemma_strip_hashes_at(s: Seq<char>, p: int)
    requires
        0 <= p <= s.len(),
        forall|k: int| 0 <= k < p ==> s[k] == '#',
        p == s.len() || s[p] != '#',
    ensures
        strip_hashes(s) == s.skip(p),
    decreases p,
{
    if p == 0 {
        assert(s.skip(0) =~= s);
    } else {
        assert(s[0] == '#');
        lemma_strip_hashes_at(s.skip(1), p - 1);
        assert(s.skip(1).skip(p - 1) =~= s.skip(p));
    }
}

/// A valid color code: after leading `#` signs, 6 or 8 characters forming
/// 3 or 4 valid components.
pub open spec fn valid_hex_color(s: Seq<char>) -> bool {
    let t = strip_hashes(s);
    &&& (t.len() == 6 || t.len() == 8)
    &&& component_ok(t[0], t[1])
    &&& component_ok(t[2], t[3])
    &&& component_ok(t[4], t[5])
    &&& (t.len() == 8 ==> component_ok(t[6], t[7]))
}

/// The color a valid code denotes.
pub open spec fn spec_rgba(s: Seq<char>) -> Rgba {
    let t = strip_hashes(s);
    Rgba {
        r: component_val(t[0], t[1]) as u8,
        g: component_val(t[2], t[3]) as u8,
        b: component_val(t[4], t[5]) as u8,
        a: if t.len() == 8 {
            component_val(t[6], t[7]) as u8
        } else {
            255u8
        },
    }
}

/// The error an invalid code is rejected with, in the same checking order
/// as the parse: length first, then the components left to right.
pub open spec fn spec_color_error(s: Seq<char>) -> ColorError {
    let t = strip_hashes(s);
    if t.len() != 6 && t.len() != 8 {
        ColorError::BadLength
    } else if !component_ok(t[0], t[1]) {
        ColorError::BadRed
    } else if !component_ok(t[2], t[3]) {
        ColorError::BadGreen
    } else if !component_ok(t[4], t[5]) {
        ColorError::BadBlue
    } else {
        ColorError::BadAlpha
    }
}

/// The value of one hex digit, or `None` if the character is not one.
pub fn hex_digit_value(c: char) -> (r: Option<u8>)
    ensures
        r is Some <==> is_hex_digit(c),
        match r {
            Some(v) => v as int == hex_digit_val(c),
            None => true,
        },
{
    let x = c as u32;
    if 48 <= x && x <= 57 {
        Some((x - 48) as u8)
    } else if 97 <= x && x <= 102 {
        Some((x - 97 + 10) as u8)
    } else if 65 <= x && x <= 70 {
        Some((x - 65 + 10) as u8)
    } else {
        None
    }
}

/// The value of one two-character component, or `None` if it is not one.
pub fn component_value(a: char, b: char) -> (r: Option<u8>)
    ensures
        r is Some <==> component_ok(a, b),
        match r {
            Some(v) => v as int == component_val(a, b),
            None => true,
        },
{
    let vb = match hex_digit_value(b) {
        Some(v) => v,
        None => {
            return None;
        },
    };
    if a == '+' {
        return Some(vb);
    }
    match hex_digit_value(a) {
        Some(va) => Some(16 * va + vb),
        None => None,
    }
}

/// Convert a hex color code such as `#FF00AA` or `FF00AA` (optionally with
/// an alpha pair, and ignoring any number of leading `#` signs) to a color.
/// With no alpha pair the color is fully opaque. The result and each error
/// are pinned exactly: the value of each component, and which component is
/// the first bad one.
pub fn hex_to_rgba(hex: &str) -> (r: Result<Rgba, ColorError>)
    ensures
        r is Ok <==> valid_hex_color(hex@),
        match r {
            Ok(c) => c == spec_rgba(hex@),
            Err(e) => e == spec_color_error(hex@),
        },
        match r {
            Ok(c) => {
                let t = strip_hashes(hex@);
                &&& c.r as int == component_val(t[0], t[1])
                &&& c.g as int == component_val(t[2], t[3])
                &&& c.b as int == component_val(t[4], t[5])
                &&& c.a as int == if t.len() == 8 {
                    component_val(t[6], t[7])
                } else {
                    255
                }
            },
            Err(e) => {
                let t = strip_hashes(hex@);
                match e {
                    ColorError::BadLength => t.len() != 6 && t.len() != 8,
                    ColorError::BadRed => (t.len() == 6 || t.len() == 8)
                        && !component_ok(t[0], t[1]),
                    ColorError::BadGreen => (t.len() == 6 || t.len() == 8)
                        && component_ok(t[0], t[1]) && !component_ok(t[2], t[3]),
                    ColorError::BadBlue => (t.len() == 6 || t.len() == 8)
                        && component_ok(t[0], t[1]) && component_ok(t[2], t[3])
                        && !component_ok(t[4], t[5]),
                    ColorError::BadAlpha => t.len() == 8 && component_ok(t[0], t[1])
                        && component_ok(t[2], t[3]) && component_ok(t[4], t[5])
                        && !component_ok(t[6], t[7]),
                }
            },
        },
{
    let len = hex.unicode_len();
    let mut start: usize = 0;
    while start < len && hex.get_char(start) == '#'
        invariant
            start <= len,
            len == hex@.len(),
            forall|k: int| 0 <= k < start ==> hex@[k] == '#',
        decreases len - start,
    {
        start += 1;
    }
    proof {
        lemma_strip_hashes_at(hex@, start as int);
    }
    let ghost t = strip_hashes(hex@);
    let body_len = len - start;
    if body_len != 6 && body_len != 8 {
        return Err(ColorError::BadLength);
    }
    proof {
        assert(t.len() == body_len);
        assert(t[0] == hex@[start as int]);
    }
    let red = match component_value(hex.get_char(start), hex.get_char(start + 1)) {
        Some(v) => v,
        None => {
            return Err(ColorError::BadRed);
        },
    };
    let green = match component_value(hex.get_char(start + 2), hex.get_char(start + 3)) {
        Some(v) => v,
        None => {
            return Err(ColorError::BadGreen);
        },
    };
    let blue = match component_value(hex.get_char(start + 4), hex.get_char(start + 5)) {
        Some(v) => v,
        None => {
            return Err(ColorError::BadBlue);
        },
    };
    let alpha = if body_len == 8 {
        match component_value(hex.get_char(start + 6), hex.get_char(start + 7)) {
            Some(v) => v,
            None => {
                return Err(ColorError::BadAlpha);
            },
        }
    } else {
        255
    };
    Ok(Rgba { r: red, g: green, b: blue, a: alpha })
}

} // verus!
