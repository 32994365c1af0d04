//! Colors written as six hexadecimal digits, such as `#40465B`.

use vstd::prelude::*;
use vstd::string::*;

verus! {

/// An opaque color given by its red, green and blue components.
#[derive(Debug, Clone, Copy, PartialEq, Eq, Structural)]
pub struct Rgb {
    pub r: u8,
    pub g: u8,
    pub b: u8,
}

/// Value of an ASCII hexadecimal digit (either case).
pub open spec fn hex_digit_value(c: u8) -> Option<u8> {
    if 48 <= c <= 57 {
        Some((c - 48) as u8)
    } else if 65 <= c <= 70 {
        Some((c - 55) as u8)
    } else if 97 <= c <= 102 {
        Some((c - 87) as u8)
    } else {
        None
    }
}

/// A byte in the middle of the UTF-8 encoding of a character.
pub open spec fn is_continuation(c: u8) -> bool {
    0x80 <= c < 0xC0
}

/// Value of a two-byte base-16 number: two digits, or a `+` sign and one
/// digit.
pub open spec fn radix16_pair(b0: u8, b1: u8) -> Option<u8> {
    match (hex_digit_value(b0), hex_digit_value(b1)) {
        (Some(h), Some(l)) => Some((16 * h + l) as u8),
        (None, Some(l)) => if b0 == 43 {
            Some(l)
        } else {
            None
        },
        _ => None,
    }
}

/// The text without its leading `#` characters.
pub open spec fn trim_leading_hash(b: Seq<u8>) -> Seq<u8>
    decreases b.len(),
{
    if b.len() > 0 && b[0] == 35 {
        trim_leading_hash(b.drop_first())
    } else {
        b
    }
}

/// Why a color text was refused.
#[derive(Debug, Clone, Copy, PartialEq, Eq, Structural)]
pub enum HexColorError {
    /// Not six bytes once the leading `#` characters are removed.
    Format,
    /// The first pair is no base-16 number.
    Red,
    /// The second pair is no base-16 number.
    Green,
    /// The third pair is no base-16 number.
    Blue,
}

/// The message that reports an error.
pub open spec fn error_message(e: HexColorError) -> Seq<char> {
    match e {
        HexColorError::Format => "Invalid hex color format"@,
        HexColorError::Red => "Invalid red component"@,
        HexColorError::Green => "Invalid green component"@,
        HexColorError::Blue => "Invalid blue component"@,
    }
}

/// The color that the UTF-8 bytes of a color text denote: leading `#`
/// characters are dropped, then exactly six bytes must remain, read as three
/// base-16 pairs (red, green, blue).
pub open spec fn spec_parse_hex_color(text: Seq<u8>) -> Result<Rgb, HexColorError> {
    let t = trim_leading_hash(text);
    if t.len() != 6 {
        Err(HexColorError::Format)
    } else {
        match radix16_pair(t[0], t[1]) {
            None => Err(HexColorError::Red),
            Some(r) => match radix16_pair(t[2], t[3]) {
                None => Err(HexColorError::Green),
                Some(g) => match radix16_pair(t[4], t[5]) {
                    None => Err(HexColorError::Blue),
                    Some(b) => Ok(Rgb { r, g, b }),
                },
            },
        }
    }
}

/// Six bytes remain after the leading `#` characters, and the pairs do not
/// cut a character in two.
pub open spec fn pairs_on_char_boundaries(text: Seq<u8>) -> bool {
    let t = trim_leading_hash(text);
    t.len() == 6 ==> !is_continuation(t[2]) && !is_continuation(t[4])
}

/// Value of one hexadecimal digit.
fn hex_digit(c: u8) -> (v: Option<u8>)
    ensures
        v == hex_digit_value(c),
{
    if 48 <= c && c <= 57 {
        Some(c - 48)
    } else if 65 <= c && c <= 70 {
        Some(c - 55)
    } else if 97 <= c && c <= 102 {
        Some(c - 87)
    } else {
        None
    }
}

/// Value of two bytes read as a base-16 number.
fn pair_value(b0: u8, b1: u8) -> (v: Option<u8>)
    ensures
        v == radix16_pair(b0, b1),
{
    match (hex_digit(b0), hex_digit(b1)) {
        (Some(h), Some(l)) => Some(16 * h + l),
        (None, Some(l)) => if b0 == 43 {
            Some(l)
        } else {
            None
        },
        _ => None,
    }
}

/// Removing the leading `#` bytes skips the first `i` bytes when they are
/// all `#` and the next one is not.
proof fn lemma_trim_skips(b: Seq<u8>, i: int)
    requires
        0 <= i <= b.len(),
        forall|k: int| 0 <= k < i ==> b[k] == 35,
        i == b.len() || b[i] != 35,
    ensures
        trim_leading_hash(b) == b.subrange(i, b.len() as int),
    decreases i,
{
    if i == 0 {
        assert(b.subrange(0, b.len() as int) =~= b);
    } else {
        let d = b.drop_first();
        lemma_trim_skips(d, i - 1);
        assert(d.subrange(i - 1, d.len() as int) =~= b.subrange(i, b.len() as int));
    }
}

/// Reads a color written as six hexadecimal digits, optionally after `#`
/// characters, and reports which part is wrong.
pub fn parse_hex_color_components(hex: &str) -> (r: Result<Rgb, HexColorError>)
    requires
        pairs_on_char_boundaries(hex.spec_bytes()),
    ensures
        r == spec_parse_hex_color(hex.spec_bytes()),
{
    let bytes = hex.as_bytes();
    let n = bytes.len();
    let mut i: usize = 0;
    while i < n && bytes[i] == 35
        invariant
            n == bytes@.len(),
            i <= n,
            forall|k: int| 0 <= k < i ==> bytes@[k] == 35,
        decreases n - i,
    {
        i += 1;
    }
    proof {
        lemma_trim_skips(bytes@, i as int);
    }
    if n - i != 6 {
        return Err(HexColorError::Format);
    }
    let r = match pair_value(bytes[i], bytes[i + 1]) {
        Some(v) => v,
        None => return Err(HexColorError::Red),
    };
    let g = match pair_value(bytes[i + 2], bytes[i + 3]) {
        Some(v) => v,
        None => return Err(HexColorError::Green),
    };
    let b = match pair_value(bytes[i + 4], bytes[i + 5]) {
        Some(v) => v,
        None => return Err(HexColorError::Blue),
    };
    Ok(Rgb { r, g, b })
}

/// The message that reports an error.
pub fn hex_color_error_message(e: HexColorError) -> (s: String)
    ensures
        s@ == error_message(e),
{
    match e {
        HexColorError::Format => String::from_str("Invalid hex color format"),
        HexColorError::Red => String::from_str("Invalid red component"),
        HexColorError::Green => String::from_str("Invalid green component"),
        HexColorError::Blue => String::from_str("Invalid blue component"),
    }
}

/// Reads a color written as six hexadecimal digits, optionally after `#`
/// characters, such as a map's background color `#40465B`; an error comes
/// with the message that describes it.
pub fn parse_hex_color(hex: &str) -> (r: Result<Rgb, String>)
    requires
        pairs_on_char_boundaries(hex.spec_bytes()),
    ensures
        match spec_parse_hex_color(hex.spec_bytes()) {
            Ok(c) => r == Ok::<Rgb, String>(c),
            Err(e) => r is Err && r->Err_0@ == error_message(e),
        },
{
    match parse_hex_color_components(hex) {
        Ok(c) => Ok(c),
        Err(e) => Err(hex_color_error_message(e)),
    }
}

/// Upper-case hexadecimal digit of a value below 16.
pub open spec fn upper_hex_digit(d: u8) -> u8 {
    if d < 10 {
        (48 + d) as u8
    } else {
        (55 + d) as u8
    }
}

/// The text `#RRGGBB` of a color, in upper-case digits, as bytes.
pub open spec fn hex_color_text(c: Rgb) -> Seq<u8> {
    seq![
        35u8,
        upper_hex_digit(c.r / 16),
        upper_hex_digit(c.r % 16),
        upper_hex_digit(c.g / 16),
        upper_hex_digit(c.g % 16),
        upper_hex_digit(c.b / 16),
        upper_hex_digit(c.b % 16),
    ]
}

/// The two upper-case digits of a byte read back as the byte.
proof fn lemma_pair_of_byte(v: u8)
    ensures
        radix16_pair(upper_hex_digit(v / 16), upper_hex_digit(v % 16)) == Some(v),
{
    assert(hex_digit_value(upper_hex_digit(v / 16)) == Some((v / 16) as u8));
    assert(hex_digit_value(upper_hex_digit(v % 16)) == Some((v % 16) as u8));
}

/// Reading the text `#RRGGBB` of a color gives the color back.
pub proof fn lemma_hex_color_round_trip(c: Rgb)
    ensures
        spec_parse_hex_color(hex_color_text(c)) == Ok::<Rgb, HexColorError>(c),
        pairs_on_char_boundaries(hex_color_text(c)),
{
    let text = hex_color_text(c);
    lemma_pair_of_byte(c.r);
    lemma_pair_of_byte(c.g);
    lemma_pair_of_byte(c.b);
    lemma_trim_skips(text, 1);
    assert(trim_leading_hash(text) =~= text.subrange(1, 7));
}


/// Lower-case hexadecimal digit of a value below 16.
pub open spec fn lower_hex_digit(d: u8) -> u8 {
    if d < 10 {
        (48 + d) as u8
    } else {
        (87 + d) as u8
    }
}

/// The text `#rrggbb` of a color, in lower-case digits, as bytes.
pub open spec fn hex_color_text_lower(c: Rgb) -> Seq<u8> {
    seq![
        35u8,
        lower_hex_digit(c.r / 16),
        lower_hex_digit(c.r % 16),
        lower_hex_digit(c.g / 16),
        lower_hex_digit(c.g % 16),
        lower_hex_digit(c.b / 16),
        lower_hex_digit(c.b % 16),
    ]
}

/// Reading the text `#rrggbb` of a color, in lower-case digits, gives the
/// color back.
pub proof fn lemma_hex_color_round_trip_lower(c: Rgb)
    ensures
        spec_parse_hex_color(hex_color_text_lower(c)) == Ok::<Rgb, HexColorError>(c),
        pairs_on_char_boundaries(hex_color_text_lower(c)),
{
    let text = hex_color_text_lower(c);
    assert forall|v: u8|
        radix16_pair(#[trigger] lower_hex_digit(v / 16), lower_hex_digit(v % 16)) == Some(v) by {
        assert(hex_digit_value(lower_hex_digit(v / 16)) == Some((v / 16) as u8));
        assert(hex_digit_value(lower_hex_digit(v % 16)) == Some((v % 16) as u8));
    }
    assert(radix16_pair(lower_hex_digit(c.r / 16), lower_hex_digit(c.r % 16)) == Some(c.r));
    assert(radix16_pair(lower_hex_digit(c.g / 16), lower_hex_digit(c.g % 16)) == Some(c.g));
    assert(radix16_pair(lower_hex_digit(c.b / 16), lower_hex_digit(c.b % 16)) == Some(c.b));
    lemma_trim_skips(text, 1);
    assert(trim_leading_hash(text) =~= text.subrange(1, 7));
}

/// An ASCII upper-case letter turned to lower case; every other byte as it
/// is.
pub open spec fn ascii_lower(b: u8) -> u8 {
    if 65 <= b <= 90 {
        (b + 32) as u8
    } else {
        b
    }
}

/// Turning letters to lower case keeps the leading `#` bytes apart from the
/// rest.
proof fn lemma_trim_leading_hash_lower(b: Seq<u8>)
    ensures
        trim_leading_hash(b.map_values(|x: u8| ascii_lower(x))) == trim_leading_hash(b).map_values(
            |x: u8| ascii_lower(x),
        ),
    decreases b.len(),
{
    let f = |x: u8| ascii_lower(x);
    if b.len() > 0 && b[0] == 35 {
        lemma_trim_leading_hash_lower(b.drop_first());
        assert(b.map_values(f).drop_first() =~= b.drop_first().map_values(f));
    }
}

/// Reading a color text does not depend on the case of its letters: the
/// text with every ASCII letter turned to lower case reads as the text
/// itself, the same color or the same error.
pub proof fn lemma_hex_color_case_insensitive(text: Seq<u8>)
    ensures
        spec_parse_hex_color(text.map_values(|x: u8| ascii_lower(x))) == spec_parse_hex_color(
            text,
        ),
        pairs_on_char_boundaries(text.map_values(|x: u8| ascii_lower(x)))
            == pairs_on_char_boundaries(text),
{
    let f = |x: u8| ascii_lower(x);
    lemma_trim_leading_hash_lower(text);
    let t = trim_leading_hash(text);
    let lt = trim_leading_hash(text.map_values(f));
    assert forall|c: u8| #[trigger] hex_digit_value(ascii_lower(c)) == hex_digit_value(c) by {}
    if t.len() == 6 {
        assert(lt[0] == ascii_lower(t[0]));
        assert(lt[1] == ascii_lower(t[1]));
        assert(lt[2] == ascii_lower(t[2]));
        assert(lt[3] == ascii_lower(t[3]));
        assert(lt[4] == ascii_lower(t[4]));
        assert(lt[5] == ascii_lower(t[5]));
        assert(hex_digit_value(lt[0]) == hex_digit_value(t[0]));
        assert(hex_digit_value(lt[1]) == hex_digit_value(t[1]));
        assert(hex_digit_value(lt[2]) == hex_digit_value(t[2]));
        assert(hex_digit_value(lt[3]) == hex_digit_value(t[3]));
        assert(hex_digit_value(lt[4]) == hex_digit_value(t[4]));
        assert(hex_digit_value(lt[5]) == hex_digit_value(t[5]));
    }
}

} // verus!
