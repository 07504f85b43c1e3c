//! Byte-level helpers shared by the NBNS and mDNS codecs: big-endian 16-bit
//! packing and unpacking, the printable-ASCII filter both response parsers
//! apply to name bytes, and string building.

use vstd::prelude::*;

verus! {

/// The value of a big-endian 16-bit field with high byte `hi` and low byte `lo`.
pub open spec fn spec_be16(hi: u8, lo: u8) -> int {
    256 * (hi as int) + (lo as int)
}

/// High byte of `x` on the wire (big-endian).
pub open spec fn spec_u16_hi(x: u16) -> u8 {
    (x / 256) as u8
}

/// Low byte of `x` on the wire (big-endian).
pub open spec fn spec_u16_lo(x: u16) -> u8 {
    (x % 256) as u8
}

/// Reads a big-endian 16-bit field.
pub fn read_be16(hi: u8, lo: u8) -> (r: u16)
    ensures
        r as int == spec_be16(hi, lo),
{
    (hi as u16) * 256 + (lo as u16)
}

/// High byte of `x` on the wire (big-endian).
pub fn u16_hi(x: u16) -> (r: u8)
    ensures
        r == spec_u16_hi(x),
{
    (x / 256) as u8
}

/// Low byte of `x` on the wire (big-endian).
pub fn u16_lo(x: u16) -> (r: u8)
    ensures
        r == spec_u16_lo(x),
{
    (x % 256) as u8
}

/// A byte both parsers keep when building a name: a graphic ASCII character,
/// the union of the ASCII alphanumeric and ASCII punctuation ranges.
pub open spec fn printable_byte(b: u8) -> bool {
    0x21 <= b <= 0x7e
}

/// Tests whether a name byte is kept by the parsers.
pub fn is_printable_byte(b: u8) -> (r: bool)
    ensures
        r == printable_byte(b),
{
    0x21 <= b && b <= 0x7e
}

/// The bytes of `s` read as characters, one for one.
pub open spec fn chars_of(s: Seq<u8>) -> Seq<char> {
    Seq::new(s.len(), |i: int| s[i] as char)
}

/// How many decimal digits the octet `o` prints as.
pub open spec fn dec_len(o: u8) -> int {
    if o < 10 {
        1
    } else if o < 100 {
        2
    } else {
        3
    }
}

/// The ASCII decimal digits of the octet `o`, most significant first, with
/// no leading zeros.
pub open spec fn dec_digits(o: u8) -> Seq<u8> {
    if o < 10 {
        seq![(0x30 + o) as u8]
    } else if o < 100 {
        seq![(0x30 + o / 10) as u8, (0x30 + o % 10) as u8]
    } else {
        seq![(0x30 + o / 100) as u8, (0x30 + (o / 10) % 10) as u8, (0x30 + o % 10) as u8]
    }
}

/// An ASCII decimal digit.
pub open spec fn is_digit(b: u8) -> bool {
    0x30 <= b <= 0x39
}

/// Appends the decimal digits of `o`, most significant first, to `out`.
pub fn push_dec_digits(o: u8, out: &mut Vec<u8>)
    ensures
        final(out)@ == old(out)@ + dec_digits(o),
{
    if o < 10 {
        out.push(0x30 + o);
    } else if o < 100 {
        out.push(0x30 + o / 10);
        out.push(0x30 + o % 10);
    } else {
        out.push(0x30 + o / 100);
        out.push(0x30 + (o / 10) % 10);
        out.push(0x30 + o % 10);
    }
    proof {
        assert(out@ =~= old(out)@ + dec_digits(o));
    }
}

/// Relies on `String::push`: appends the given character to the end of the
/// string.
#[verifier::external_body]
pub fn push_char(s: &mut String, c: char)
    ensures
        final(s)@ == old(s)@.push(c),
{
    s.push(c)
}

} // verus!
