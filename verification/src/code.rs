//! The sixel control items that an encoded image is made of, and their bytes.
use control_code::DEC::SIXEL;
use vstd::prelude::*;

verus! {

/// One item of a sixel data stream.
#[derive(Clone, Copy, Debug, PartialEq, Eq)]
pub enum Code {
    /// One column of six pixels, bit `i` standing for line `i` of the band.
    Value(u8),
    /// The same column repeated the given number of times.
    Repeat(u32, u8),
    /// Select the color register with the given id.
    Enable(u32),
    /// Define a color register from red, green, blue and alpha channels.
    DefineRgba(u32, u8, u8, u8, u8),
    /// Define a color register from hue, saturation and lightness.
    DefineHsl(u32, u16, u8, u8),
    /// Go back to the start of the current band.
    CarriageReturn,
    /// Go down to the next band.
    LineFeed,
}

/// The ASCII digit of `d`.
pub open spec fn digit(d: nat) -> u8 {
    (48 + d % 10) as u8
}

/// The decimal notation of `n`, as `{}` writes an unsigned integer.
pub open spec fn decimal(n: nat) -> Seq<u8>
    decreases n,
{
    if n < 10 {
        seq![digit(n)]
    } else {
        decimal(n / 10).push(digit(n % 10))
    }
}

/// The byte that carries a six-pixel column.
pub open spec fn column_byte(map: u8) -> u8 {
    (map + 0x3F) as u8
}

/// A column fits in one byte of the stream when adding the offset does not overflow.
pub open spec fn code_fits(code: Code) -> bool {
    match code {
        Code::Value(map) => map <= 0xC0,
        Code::Repeat(_, map) => map <= 0xC0,
        _ => true,
    }
}

/// The bytes that the control-code crate writes for each item.
pub open spec fn code_bytes(code: Code) -> Seq<u8> {
    match code {
        Code::Value(map) => seq![column_byte(map)],
        Code::Repeat(times, map) => seq![33u8] + decimal(times as nat) + seq![column_byte(map)],
        Code::Enable(id) => seq![35u8] + decimal(id as nat),
        Code::DefineRgba(id, r, g, b, a) => seq![35u8] + decimal(id as nat) + seq![59u8, 51u8, 59u8]
            + decimal(r as nat) + seq![59u8] + decimal(g as nat) + seq![59u8] + decimal(b as nat)
            + seq![59u8] + decimal(a as nat),
        Code::DefineHsl(id, h, s, l) => seq![35u8] + decimal(id as nat) + seq![59u8, 49u8, 59u8]
            + decimal(h as nat) + seq![59u8] + decimal(l as nat) + seq![59u8] + decimal(s as nat),
        Code::CarriageReturn => seq![36u8],
        Code::LineFeed => seq![45u8],
    }
}

/// Formats one item with `control_code::format`.
///
/// Trusted: the contract says that the bytes are those that the crate's
/// `Format` impl for `DEC::SIXEL::Sixel` writes: `#` and the id for a
/// register, `;3;r;g;b;a` or `;1;h;l;s` (lightness before saturation) for a
/// definition, `!` and the count before a repeated column, `0x3F` added to a
/// column's bits, `$` and `-` for the two moves, every number in decimal.
/// A column above `0xC0` would overflow that addition, so it is left out.
#[verifier::external_body]
pub(crate) fn format_code(code: &Code) -> (bytes: Vec<u8>)
    requires
        code_fits(*code),
    ensures
        bytes@ == code_bytes(*code),
{
    let item = match *code {
        Code::Value(map) => SIXEL::Value(SIXEL::Map(map)),
        Code::Repeat(times, map) => SIXEL::Repeat(times, SIXEL::Map(map)),
        Code::Enable(id) => SIXEL::Enable(id),
        Code::DefineRgba(id, r, g, b, a) => SIXEL::Define(id, SIXEL::Color::Rgba(r, g, b, a)),
        Code::DefineHsl(id, h, s, l) => SIXEL::Define(id, SIXEL::Color::Hsl(h, s, l)),
        Code::CarriageReturn => SIXEL::CarriageReturn,
        Code::LineFeed => SIXEL::LineFeed,
    };
    control_code::format(&item)
}

} // verus!
