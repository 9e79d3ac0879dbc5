use vstd::prelude::*;

verus! {

/// An RGB color with u8 components.
#[derive(Debug, Clone, Copy, PartialEq, Eq, Structural)]
pub struct Color {
    pub r: u8,
    pub g: u8,
    pub b: u8,
}

/// The lower-case hexadecimal digit for a value in 0..16.
pub open spec fn hex_digit(n: u8) -> char {
    if n < 10 {
        (48 + n) as char
    } else {
        (87 + n) as char
    }
}

/// The two hexadecimal digits of a byte, most significant first.
pub open spec fn hex_byte(b: u8) -> Seq<char> {
    seq![hex_digit(b / 16), hex_digit(b % 16)]
}

/// The CSS hex notation of a color: `#rrggbb` in lower case.
pub open spec fn color_hex(c: Color) -> Seq<char> {
    seq!['#'] + hex_byte(c.r) + hex_byte(c.g) + hex_byte(c.b)
}

/// `String::push`: appends `c` at the end of `s`. The contract claims exactly that: the
/// characters of `s` become its former characters followed by `c`.
#[verifier::external_body]
pub(crate) fn push_char(s: &mut String, c: char)
    ensures
        final(s)@ == old(s)@.push(c),
{
    s.push(c);
}

fn hex_digit_char(n: u8) -> (c: char)
    requires
        n < 16,
    ensures
        c == hex_digit(n),
{
    if n < 10 {
        (48 + n) as char
    } else {
        (87 + n) as char
    }
}

fn push_hex_byte(s: &mut String, b: u8)
    ensures
        final(s)@ == old(s)@ + hex_byte(b),
{
    let hi = hex_digit_char(b / 16);
    let lo = hex_digit_char(b % 16);
    push_char(s, hi);
    push_char(s, lo);
    assert(final(s)@ =~= old(s)@ + hex_byte(b));
}

impl Color {
    /// Construct a color from u8 red, green, blue components.
    pub fn rgb(r: u8, g: u8, b: u8) -> (c: Self)
        ensures
            c.r == r,
            c.g == g,
            c.b == b,
    {
        Color { r, g, b }
    }

    /// Convert to CSS hex string (e.g., "#ff0000").
    pub fn to_hex(self) -> (s: String)
        ensures
            s@ == color_hex(self),
            s@.len() == 7,
    {
        let mut s = String::new();
        push_char(&mut s, '#');
        push_hex_byte(&mut s, self.r);
        push_hex_byte(&mut s, self.g);
        push_hex_byte(&mut s, self.b);
        assert(s@ =~= color_hex(self));
        s
    }

    /// Pure red.
    pub fn red() -> (c: Color)
        ensures
            c == (Color { r: 255, g: 0, b: 0 }),
    {
        Color { r: 255, g: 0, b: 0 }
    }

    /// Pure green.
    pub fn green() -> (c: Color)
        ensures
            c == (Color { r: 0, g: 255, b: 0 }),
    {
        Color { r: 0, g: 255, b: 0 }
    }

    /// Pure blue.
    pub fn blue() -> (c: Color)
        ensures
            c == (Color { r: 0, g: 0, b: 255 }),
    {
        Color { r: 0, g: 0, b: 255 }
    }

    /// White.
    pub fn white() -> (c: Color)
        ensures
            c == (Color { r: 255, g: 255, b: 255 }),
    {
        Color { r: 255, g: 255, b: 255 }
    }

    /// Black.
    pub fn black() -> (c: Color)
        ensures
            c == (Color { r: 0, g: 0, b: 0 }),
    {
        Color { r: 0, g: 0, b: 0 }
    }

    /// Yellow.
    pub fn yellow() -> (c: Color)
        ensures
            c == (Color { r: 255, g: 255, b: 0 }),
    {
        Color { r: 255, g: 255, b: 0 }
    }

    /// Cyan.
    pub fn cyan() -> (c: Color)
        ensures
            c == (Color { r: 0, g: 255, b: 255 }),
    {
        Color { r: 0, g: 255, b: 255 }
    }

    /// Magenta.
    pub fn magenta() -> (c: Color)
        ensures
            c == (Color { r: 255, g: 0, b: 255 }),
    {
        Color { r: 255, g: 0, b: 255 }
    }

    /// Middle gray.
    pub fn gray() -> (c: Color)
        ensures
            c == (Color { r: 128, g: 128, b: 128 }),
    {
        Color { r: 128, g: 128, b: 128 }
    }

    /// Fully black; meant to be drawn with opacity 0.0.
    pub fn transparent() -> (c: Color)
        ensures
            c == (Color { r: 0, g: 0, b: 0 }),
    {
        Color { r: 0, g: 0, b: 0 }
    }
}

/// The value of a lower-case hexadecimal digit (`0`..`9`, `a`..`f`), or -1 for any
/// other character.
pub open spec fn hex_digit_value(c: char) -> int {
    let v = c as u32;
    if 48 <= v <= 57 {
        v - 48
    } else if 97 <= v <= 102 {
        v - 87
    } else {
        -1
    }
}

/// The digit written for a nibble is the lower-case hexadecimal digit of that value.
pub proof fn lemma_hex_digit_reads_back(n: u8)
    requires
        n < 16,
    ensures
        hex_digit_value(hex_digit(n)) == n,
{
}

/// The CSS notation of a color is `#` followed by three pairs of lower-case hexadecimal
/// digits that read back, most significant digit first, as the red, green and blue
/// components.
pub proof fn lemma_color_hex_reads_back(c: Color)
    ensures
        color_hex(c).len() == 7,
        color_hex(c)[0] == '#',
        forall|j: int| 1 <= j < 7 ==> 0 <= #[trigger] hex_digit_value(color_hex(c)[j]) < 16,
        hex_digit_value(color_hex(c)[1]) * 16 + hex_digit_value(color_hex(c)[2]) == c.r,
        hex_digit_value(color_hex(c)[3]) * 16 + hex_digit_value(color_hex(c)[4]) == c.g,
        hex_digit_value(color_hex(c)[5]) * 16 + hex_digit_value(color_hex(c)[6]) == c.b,
{
    lemma_hex_digit_reads_back(c.r / 16);
    lemma_hex_digit_reads_back(c.r % 16);
    lemma_hex_digit_reads_back(c.g / 16);
    lemma_hex_digit_reads_back(c.g % 16);
    lemma_hex_digit_reads_back(c.b / 16);
    lemma_hex_digit_reads_back(c.b % 16);
    let s = color_hex(c);
    assert(s[1] == hex_digit(c.r / 16) && s[2] == hex_digit(c.r % 16));
    assert(s[3] == hex_digit(c.g / 16) && s[4] == hex_digit(c.g % 16));
    assert(s[5] == hex_digit(c.b / 16) && s[6] == hex_digit(c.b % 16));
}

} // verus!
