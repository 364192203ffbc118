//! Colors as the wire carries them: `#rrggbb` texts.

use crate::json_parse::hex_val;
use crate::json_print::hex_char;
use vstd::prelude::*;

verus! {

/// One 8-bit-per-channel color.
#[derive(Debug, Clone, Copy, PartialEq, Eq, Structural)]
pub struct Rgb8 {
    pub r: u8,
    pub g: u8,
    pub b: u8,
}

/// The `#rrggbb` text of a color, lower-case.
pub open spec fn color_text(c: Rgb8) -> Seq<char> {
    seq![
        '#',
        hex_char(c.r as int / 16),
        hex_char(c.r as int % 16),
        hex_char(c.g as int / 16),
        hex_char(c.g as int % 16),
        hex_char(c.b as int / 16),
        hex_char(c.b as int % 16),
    ]
}

/// A text some color can be read from: `#` and six hexadecimal digits of
/// either case.
pub open spec fn is_color_text(s: Seq<char>) -> bool {
    s.len() == 7 && s[0] == '#' && hex_val(s[1]) >= 0 && hex_val(s[2]) >= 0 && hex_val(s[3]) >= 0
        && hex_val(s[4]) >= 0 && hex_val(s[5]) >= 0 && hex_val(s[6]) >= 0
}

/// The color a text stands for.
pub open spec fn color_of(s: Seq<char>) -> Rgb8 {
    Rgb8 {
        r: (hex_val(s[1]) * 16 + hex_val(s[2])) as u8,
        g: (hex_val(s[3]) * 16 + hex_val(s[4])) as u8,
        b: (hex_val(s[5]) * 16 + hex_val(s[6])) as u8,
    }
}

proof fn lemma_hex_char_val_local(n: int)
    requires
        0 <= n < 16,
    ensures
        hex_val(hex_char(n)) == n,
{
}

/// Printing a color and reading the text back gives the color.
pub proof fn lemma_color_text_reads_back(c: Rgb8)
    ensures
        is_color_text(color_text(c)),
        color_of(color_text(c)) == c,
{
    lemma_hex_char_val_local(c.r as int / 16);
    lemma_hex_char_val_local(c.r as int % 16);
    lemma_hex_char_val_local(c.g as int / 16);
    lemma_hex_char_val_local(c.g as int % 16);
    lemma_hex_char_val_local(c.b as int / 16);
    lemma_hex_char_val_local(c.b as int % 16);
    assert(c.r as int == c.r as int / 16 * 16 + c.r as int % 16);
    assert(c.g as int == c.g as int / 16 * 16 + c.g as int % 16);
    assert(c.b as int == c.b as int / 16 * 16 + c.b as int % 16);
}

impl Rgb8 {
    /// The `#rrggbb` text of this color.
    pub fn to_text(&self) -> (s: String)
        ensures
            s@ == color_text(*self),
    {
        let mut out: Vec<char> = Vec::new();
        out.push('#');
        out.push(hex_nibble(self.r / 16));
        out.push(hex_nibble(self.r % 16));
        out.push(hex_nibble(self.g / 16));
        out.push(hex_nibble(self.g % 16));
        out.push(hex_nibble(self.b / 16));
        out.push(hex_nibble(self.b % 16));
        proof {
            assert(out@ =~= color_text(*self));
        }
        crate::text::chars_to_string(&out)
    }

    /// Read a color from its hex text: `Some` exactly for `#` followed by
    /// six hexadecimal digits, of either case.
    pub fn parse_text(s: &Vec<char>) -> (r: Option<Rgb8>)
        ensures
            match r {
                Some(c) => is_color_text(s@) && c == color_of(s@),
                None => !is_color_text(s@),
            },
    {
        if s.len() != 7 || s[0] != '#' {
            return None;
        }
        let n1 = read_nibble(s[1]);
        let n2 = read_nibble(s[2]);
        let n3 = read_nibble(s[3]);
        let n4 = read_nibble(s[4]);
        let n5 = read_nibble(s[5]);
        let n6 = read_nibble(s[6]);
        match (n1, n2, n3, n4, n5, n6) {
            (Some(a), Some(b2), Some(c2), Some(d), Some(e), Some(f)) => {
                let col = Rgb8 { r: a * 16 + b2, g: c2 * 16 + d, b: e * 16 + f };
                Some(col)
            },
            _ => None,
        }
    }
}

/// The hexadecimal character of a value below sixteen, lower-case.
fn hex_nibble(n: u8) -> (c: char)
    requires
        n < 16,
    ensures
        c == hex_char(n as int),
{
    if n == 0 {
        '0'
    } else if n == 1 {
        '1'
    } else if n == 2 {
        '2'
    } else if n == 3 {
        '3'
    } else if n == 4 {
        '4'
    } else if n == 5 {
        '5'
    } else if n == 6 {
        '6'
    } else if n == 7 {
        '7'
    } else if n == 8 {
        '8'
    } else if n == 9 {
        '9'
    } else if n == 10 {
        'a'
    } else if n == 11 {
        'b'
    } else if n == 12 {
        'c'
    } else if n == 13 {
        'd'
    } else if n == 14 {
        'e'
    } else {
        'f'
    }
}

/// The value of one hexadecimal character, either case.
fn read_nibble(c: char) -> (r: Option<u8>)
    ensures
        match r {
            Some(v) => v < 16 && hex_val(c) == v as int,
            None => hex_val(c) == -1,
        },
{
    if '0' <= c && c <= '9' {
        Some(((c as u32) - 48) as u8)
    } else if 'a' <= c && c <= 'f' {
        Some((((c as u32) - ('a' as u32)) + 10) as u8)
    } else if 'A' <= c && c <= 'F' {
        Some((((c as u32) - ('A' as u32)) + 10) as u8)
    } else {
        None
    }
}

} // verus!