//! RGBA colors: blending, grayscale, averaging, and parsing from hex codes.

use std::num::ParseIntError;

use vstd::prelude::*;
use vstd::string::{is_ascii, StrSliceExecFns};
use vstd::utf8::{encode_utf8, is_ascii_chars};

use crate::random::random_below;

verus! {

/// Declares `std::num::ParseIntError`, the error of `u8::from_str_radix`, which
/// `ColorParseError` carries unchanged.
#[verifier::external_type_specification]
#[verifier::external_body]
pub struct ExParseIntError(ParseIntError);

/// Why a hex color code was rejected.
#[derive(Debug)]
pub enum ColorParseError {
    /// Without its leading `#`, the code was not 6 or 8 bytes long; holds the
    /// length found.
    InvalidLength(usize),
    /// A channel (`"R"`, `"G"`, `"B"` or `"A"`) was not a hexadecimal byte.
    InvalidHex(&'static str, ParseIntError),
}

/// Whether `c` is a base-16 digit, of either case.
pub open spec fn is_hex_digit(c: char) -> bool {
    ('0' <= c <= '9') || ('a' <= c <= 'f') || ('A' <= c <= 'F')
}

/// The value of a base-16 digit.
pub open spec fn digit_value(c: char) -> int {
    if '0' <= c <= '9' {
        c as int - '0' as int
    } else if 'a' <= c <= 'f' {
        c as int - 'a' as int + 10
    } else {
        c as int - 'A' as int + 10
    }
}

/// The digits of a number's text: the text without an optional leading `+`.
pub open spec fn digits_of(s: Seq<char>) -> Seq<char> {
    if s.len() > 0 && s[0] == '+' {
        s.skip(1)
    } else {
        s
    }
}

/// Whether `s` is an optional `+` followed by one or more base-16 digits.
pub open spec fn hex_text(s: Seq<char>) -> bool {
    let d = digits_of(s);
    d.len() > 0 && forall|i: int| 0 <= i < d.len() ==> is_hex_digit(#[trigger] d[i])
}

/// The value of a string of base-16 digits.
pub open spec fn hex_value(d: Seq<char>) -> int
    decreases d.len(),
{
    if d.len() == 0 {
        0
    } else {
        hex_value(d.drop_last()) * 16 + digit_value(d.last())
    }
}

/// Relies on `u8::from_str_radix` in base 16: the text must be an optional
/// `+` then one or more digits `0-9`, `a-f` or `A-F`, whose value fits in a
/// byte; anything else is an error.
#[verifier::external_body]
fn parse_hex_byte(s: &str) -> (r: Result<u8, ParseIntError>)
    ensures
        r.is_ok() == (hex_text(s@) && hex_value(digits_of(s@)) <= 255),
        r.is_ok() ==> r->Ok_0 == hex_value(digits_of(s@)),
{
    u8::from_str_radix(s, 16)
}

/// The number of `#` characters that `s` starts with.
pub open spec fn leading_hashes(s: Seq<char>) -> int
    decreases s.len(),
{
    if s.len() > 0 && s[0] == '#' {
        1 + leading_hashes(s.skip(1))
    } else {
        0
    }
}

/// Relies on `str::trim_start_matches` with the pattern `'#'`: `s` without
/// the `#` characters it starts with.
#[verifier::external_body]
fn trim_hashes(s: &str) -> (r: &str)
    ensures
        r@ == s@.skip(leading_hashes(s@)),
{
    s.trim_start_matches('#')
}

/// The name of channel `c` in error reports.
pub open spec fn channel_name(c: int) -> &'static str {
    if c == 0 {
        "R"
    } else if c == 1 {
        "G"
    } else if c == 2 {
        "B"
    } else {
        "A"
    }
}

/// The two characters of channel `c` in the text `t`.
pub open spec fn pair(t: Seq<char>, c: int) -> Seq<char> {
    t.subrange(2 * c, 2 * c + 2)
}

/// Whether the two characters of a channel read as a byte: two digits, or
/// `+` and one digit.
pub open spec fn pair_ok(p: Seq<char>) -> bool {
    if p[0] == '+' {
        is_hex_digit(p[1])
    } else {
        is_hex_digit(p[0]) && is_hex_digit(p[1])
    }
}

/// The byte that the two characters of a channel read as.
pub open spec fn pair_value(p: Seq<char>) -> int {
    if p[0] == '+' {
        digit_value(p[1])
    } else {
        digit_value(p[0]) * 16 + digit_value(p[1])
    }
}

/// The number of channels a code of `n` characters holds.
pub open spec fn channel_count(n: int) -> int {
    if n == 8 {
        4
    } else {
        3
    }
}

/// Whether channels `0..k` of `t` all read as bytes.
pub open spec fn channels_ok(t: Seq<char>, k: int) -> bool {
    forall|c: int| 0 <= c < k ==> pair_ok(#[trigger] pair(t, c))
}

proof fn lemma_pair(p: Seq<char>)
    requires
        p.len() == 2,
    ensures
        (hex_text(p) && hex_value(digits_of(p)) <= 255) == pair_ok(p),
        pair_ok(p) ==> hex_value(digits_of(p)) == pair_value(p) && 0 <= pair_value(p) <= 255,
{
    let d = digits_of(p);
    if p[0] == '+' {
        assert(d.len() == 1 && d[0] == p[1]);
        assert(d.drop_last().len() == 0);
        assert(hex_value(d.drop_last()) == 0);
    } else {
        assert(d == p);
        let e = d.drop_last();
        assert(e.drop_last().len() == 0);
        assert(hex_value(e.drop_last()) == 0);
        assert(e.last() == p[0]);
        assert(hex_value(e) == digit_value(p[0]));
        if hex_text(p) {
            assert(is_hex_digit(d[0]) && is_hex_digit(d[1]));
        }
    }
}

/// A color with red, green, blue and alpha channels, in that order.
#[derive(PartialEq, Eq, Hash, Copy, Clone, Debug)]
pub struct Color(pub [u8; 4]);

/// Opaque black.
pub fn black() -> (r: Color)
    ensures
        r.0@ == seq![0u8, 0u8, 0u8, 255u8],
{
    let r = Color([0, 0, 0, 255]);
    assert(r.0@ =~= seq![0u8, 0u8, 0u8, 255u8]);
    r
}

/// Opaque white.
pub fn white() -> (r: Color)
    ensures
        r.0@ == seq![255u8, 255u8, 255u8, 255u8],
{
    let r = Color([255, 255, 255, 255]);
    assert(r.0@ =~= seq![255u8, 255u8, 255u8, 255u8]);
    r
}

/// One channel of `a` blended towards `b`: weight `255 - opacity` on `a` and
/// `opacity` on `b`, rounded down.
pub open spec fn mix(a: u8, b: u8, opacity: u8) -> int {
    (a * (255 - opacity) + b * opacity) / 255
}

/// The perceptual luma of a color, rounded down.
pub open spec fn luma(r: u8, g: u8, b: u8) -> int {
    (299 * r + 587 * g + 114 * b) / 1000
}

/// The sum of one channel over a list of colors.
pub open spec fn channel_sum(colors: Seq<Color>, channel: int) -> int
    decreases colors.len(),
{
    if colors.len() == 0 {
        0
    } else {
        channel_sum(colors.drop_last(), channel) + colors.last().0@[channel]
    }
}

proof fn lemma_channel_sum_bound(colors: Seq<Color>, channel: int)
    requires
        0 <= channel < 4,
    ensures
        0 <= channel_sum(colors, channel) <= 255 * colors.len(),
    decreases colors.len(),
{
    if colors.len() > 0 {
        lemma_channel_sum_bound(colors.drop_last(), channel);
    }
}

fn mix_channel(a: u8, b: u8, opacity: u8) -> (r: u8)
    ensures
        r == mix(a, b, opacity),
{
    let w = 255 - opacity as u16;
    assert(a * w + b * opacity <= 255 * 255) by (nonlinear_arith)
        requires
            a <= 255,
            b <= 255,
            w + opacity == 255,
            0 <= w,
            0 <= opacity,
    ;
    ((a as u16 * w + b as u16 * opacity as u16) / 255) as u8
}

fn mean_channel(colors: &Vec<Color>, channel: usize) -> (r: u8)
    requires
        colors@.len() > 0,
        channel < 4,
    ensures
        r == channel_sum(colors@, channel as int) / colors@.len() as int,
{
    let mut sum: u128 = 0;
    let mut k: usize = 0;
    while k < colors.len()
        invariant
            0 <= k <= colors@.len(),
            channel < 4,
            sum == channel_sum(colors@.take(k as int), channel as int),
            sum <= 255 * k,
        decreases colors@.len() - k,
    {
        assert(colors@.take(k + 1).drop_last() =~= colors@.take(k as int));
        sum = sum + colors[k].0[channel] as u128;
        k = k + 1;
    }
    assert(colors@.take(k as int) =~= colors@);
    let n = colors.len() as u128;
    assert(sum / n <= 255) by (nonlinear_arith)
        requires
            sum <= 255 * n,
            n > 0,
    ;
    (sum / n) as u8
}

/// Reads channel `c` of the ASCII text `hex`.
fn read_channel(hex: &str, c: usize) -> (r: Result<u8, ColorParseError>)
    requires
        is_ascii(hex),
        c < 4,
        2 * c + 2 <= hex@.len(),
    ensures
        r is Ok <==> pair_ok(pair(hex@, c as int)),
        r is Ok ==> r->Ok_0 == pair_value(pair(hex@, c as int)),
        r is Err ==> r->Err_0 is InvalidHex && r->Err_0->InvalidHex_0 == channel_name(c as int),
{
    let piece = hex.substring_ascii(2 * c, 2 * c + 2);
    proof {
        lemma_pair(piece@);
    }
    match parse_hex_byte(piece) {
        Ok(v) => Ok(v),
        Err(e) => {
            let name = if c == 0 {
                "R"
            } else if c == 1 {
                "G"
            } else if c == 2 {
                "B"
            } else {
                "A"
            };
            Err(ColorParseError::InvalidHex(name, e))
        },
    }
}

impl Color {
    /// Parses a hex color code, `RRGGBB` or `RRGGBBAA`, after dropping any
    /// leading `#`; alpha is 255 when it is not given.
    ///
    /// Let `t` be the code without its leading `#`s. A `t` that is not 6 or 8
    /// bytes long is an `InvalidLength`. An ASCII `t` is read two characters
    /// per channel, each pair being two hex digits (or `+` and one digit); the
    /// first channel that does not read is an `InvalidHex`. A `t` that holds
    /// other characters is an `InvalidHex`.
    pub fn hex(hex_code: &str) -> (r: Result<Self, ColorParseError>)
        ensures
            ({
                let t = hex_code@.skip(leading_hashes(hex_code@));
                let n = encode_utf8(t).len() as int;
                &&& n != 6 && n != 8 ==> r is Err && r->Err_0 == ColorParseError::InvalidLength(
                    n as usize,
                )
                &&& (n == 6 || n == 8) && !is_ascii_chars(t) ==> r is Err && r->Err_0 is InvalidHex
                &&& (n == 6 || n == 8) && is_ascii_chars(t) ==> {
                    &&& (r is Ok <==> channels_ok(t, channel_count(n)))
                    &&& r is Ok ==> (r->Ok_0).0@ == seq![
                        pair_value(pair(t, 0)) as u8,
                        pair_value(pair(t, 1)) as u8,
                        pair_value(pair(t, 2)) as u8,
                        if n == 8 {
                            pair_value(pair(t, 3)) as u8
                        } else {
                            255u8
                        },
                    ]
                    &&& r is Err ==> r->Err_0 is InvalidHex && exists|c: int|
                        0 <= c < channel_count(n) && channels_ok(t, c) && !pair_ok(
                            #[trigger] pair(t, c),
                        ) && r->Err_0->InvalidHex_0 == channel_name(c)
                }
            }),
    {
        let hex = trim_hashes(hex_code);
        let len = hex.as_bytes().len();
        if len != 6 && len != 8 {
            return Err(ColorParseError::InvalidLength(len));
        }
        if !hex.is_ascii() {
            let e = match parse_hex_byte(hex) {
                Err(e) => e,
                Ok(_) => {
                    proof {
                        let d = digits_of(hex@);
                        let k = choose|k: int| 0 <= k < hex@.len() && !('\0' <= #[trigger] hex@[k] <= '\u{7f}');
                        if hex@.len() > 0 && hex@[0] == '+' {
                            assert(k > 0);
                            assert(d[k - 1] == hex@[k]);
                        } else {
                            assert(d[k] == hex@[k]);
                        }
                    }
                    return Err(ColorParseError::InvalidLength(len));
                },
            };
            return Err(ColorParseError::InvalidHex("R", e));
        }
        proof {
            vstd::utf8::is_ascii_chars_encode_utf8(hex@);
        }
        let red = match read_channel(hex, 0) {
            Ok(v) => v,
            Err(e) => {
                assert(channels_ok(hex@, 0));
                assert(!pair_ok(pair(hex@, 0)));
                return Err(e);
            },
        };
        let green = match read_channel(hex, 1) {
            Ok(v) => v,
            Err(e) => {
                assert(channels_ok(hex@, 1));
                return Err(e);
            },
        };
        let blue = match read_channel(hex, 2) {
            Ok(v) => v,
            Err(e) => {
                assert(channels_ok(hex@, 2));
                return Err(e);
            },
        };
        let alpha = if len == 8 {
            match read_channel(hex, 3) {
                Ok(v) => v,
                Err(e) => {
                    assert(channels_ok(hex@, 3));
                    return Err(e);
                },
            }
        } else {
            255
        };
        let r = Color([red, green, blue, alpha]);
        proof {
            assert(channels_ok(hex@, channel_count(len as int)));
            assert(r.0@ =~= seq![
                pair_value(pair(hex@, 0)) as u8,
                pair_value(pair(hex@, 1)) as u8,
                pair_value(pair(hex@, 2)) as u8,
                if len == 8 {
                    pair_value(pair(hex@, 3)) as u8
                } else {
                    255u8
                },
            ]);
        }
        Ok(r)
    }

    /// Blends this color towards `color`: `opacity = 0` keeps this color and
    /// `opacity = 255` gives `color`.
    pub fn blend(&self, color: Color, opacity: u8) -> (r: Self)
        ensures
            forall|i: int| 0 <= i < 4 ==> r.0@[i] == mix(self.0@[i], color.0@[i], opacity),
    {
        let c0 = mix_channel(self.0[0], color.0[0], opacity);
        let c1 = mix_channel(self.0[1], color.0[1], opacity);
        let c2 = mix_channel(self.0[2], color.0[2], opacity);
        let c3 = mix_channel(self.0[3], color.0[3], opacity);
        let r = Color([c0, c1, c2, c3]);
        assert forall|i: int| 0 <= i < 4 implies r.0@[i] == mix(self.0@[i], color.0@[i], opacity) by {
            if i == 0 {
            } else if i == 1 {
            } else if i == 2 {
            } else {
            }
        }
        r
    }

    /// This color in perceptual grayscale, with its alpha kept.
    pub fn grayscale(self) -> (r: Self)
        ensures
            r.0@ == seq![
                luma(self.0@[0], self.0@[1], self.0@[2]) as u8,
                luma(self.0@[0], self.0@[1], self.0@[2]) as u8,
                luma(self.0@[0], self.0@[1], self.0@[2]) as u8,
                self.0@[3],
            ],
            luma(self.0@[0], self.0@[1], self.0@[2]) <= 255,
    {
        let r = self.0[0] as u32;
        let g = self.0[1] as u32;
        let b = self.0[2] as u32;
        let l = ((299 * r) + (587 * g) + (114 * b)) / 1000;
        let l = l as u8;
        let out = Color([l, l, l, self.0[3]]);
        assert(out.0@ =~= seq![l, l, l, self.0@[3]]);
        out
    }

    /// A random opaque color, each of red, green and blue drawn uniformly.
    pub fn random() -> (r: Self)
        ensures
            r.0@[3] == 255,
    {
        let red = random_below(256) as u8;
        let green = random_below(256) as u8;
        let blue = random_below(256) as u8;
        Color([red, green, blue, 255])
    }

    /// The average of `colors`, channel by channel and rounded down; `None`
    /// for an empty list.
    pub fn mean(colors: &Vec<Color>) -> (r: Option<Self>)
        ensures
            colors@.len() == 0 ==> r is None,
            colors@.len() > 0 ==> r is Some && forall|i: int|
                0 <= i < 4 ==> (r->0).0@[i] == channel_sum(colors@, i) / colors@.len() as int,
    {
        if colors.len() == 0 {
            return None;
        }
        let c = Color(
            [
                mean_channel(colors, 0),
                mean_channel(colors, 1),
                mean_channel(colors, 2),
                mean_channel(colors, 3),
            ],
        );
        assert forall|i: int| 0 <= i < 4 implies c.0@[i] == channel_sum(colors@, i)
            / colors@.len() as int by {
            if i == 0 {
            } else if i == 1 {
            } else if i == 2 {
            } else {
            }
        }
        Some(c)
    }
}

impl From<[u8; 4]> for Color {
    fn from(value: [u8; 4]) -> (r: Self) {
        Color(value)
    }
}

impl vstd::std_specs::convert::FromSpecImpl<[u8; 4]> for Color {
    open spec fn obeys_from_spec() -> bool {
        true
    }

    open spec fn from_spec(v: [u8; 4]) -> Self {
        Color(v)
    }
}

impl From<Color> for [u8; 4] {
    fn from(value: Color) -> (r: Self) {
        value.0
    }
}

impl vstd::std_specs::convert::FromSpecImpl<Color> for [u8; 4] {
    open spec fn obeys_from_spec() -> bool {
        true
    }

    open spec fn from_spec(v: Color) -> Self {
        v.0
    }
}

} // verus!
