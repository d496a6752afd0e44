//! Coordinate tokens: parsing to a finite double, carried as IEEE 754 bits.
use crate::error::ParseError;
use crate::text::chars_of;
use byteorder::ByteOrder;
use vstd::prelude::*;
use vstd::string::StringExecFns;

verus! {

/// A spatial coordinate: the bits of a finite IEEE 754 double-precision
/// value. Holding the bits keeps the value exact while every accepted
/// coordinate is provably finite (never a NaN or an infinity).
#[derive(Debug, Clone, Copy, PartialEq, Eq, Structural)]
pub struct Coord {
    pub bits: u64,
}

/// A double is finite exactly when its exponent bits are not all ones; all
/// ones encode an infinity or a NaN.
pub open spec fn finite_bits(b: u64) -> bool {
    (b >> 52) & 0x7ff != 0x7ff
}

impl Coord {
    /// A well-formed coordinate holds the bits of a finite value.
    pub open spec fn wf(self) -> bool {
        finite_bits(self.bits)
    }
}

/// What parsing a token as a double-precision float yields, as an IEEE 754
/// bit pattern: `None` where the parse fails, `Some` of the bits otherwise.
/// The result depends on the characters of the token alone.
pub uninterp spec fn f64_bits_of(s: Seq<char>) -> Option<u64>;

/// Relies on `str::parse` to a double-precision float; the value is carried
/// out as its IEEE 754 bits through `byteorder::BigEndian::write_f64` and
/// `byteorder::BigEndian::read_u64`.
#[verifier::external_body]
fn parse_f64_bits(s: &str) -> (r: Option<u64>)
    ensures
        r == f64_bits_of(s@),
{
    match s.parse() {
        Ok(v) => {
            let mut buf = [0u8; 8];
            byteorder::BigEndian::write_f64(&mut buf, v);
            Some(byteorder::BigEndian::read_u64(&buf))
        },
        Err(_) => None,
    }
}

fn is_finite_bits(b: u64) -> (r: bool)
    ensures
        r == finite_bits(b),
{
    (b >> 52) & 0x7ff != 0x7ff
}

/// The textual NaN and infinity spellings that are rejected before any
/// numeric parse is attempted: `nan`, `inf`, `-inf` and `+inf`, each letter
/// in either case.
pub open spec fn special_coord_lit(t: Seq<char>) -> bool {
    ||| (t.len() == 3 && (t[0] == 'n' || t[0] == 'N') && (t[1] == 'a' || t[1] == 'A') && (t[2]
        == 'n' || t[2] == 'N'))
    ||| (t.len() == 3 && (t[0] == 'i' || t[0] == 'I') && (t[1] == 'n' || t[1] == 'N') && (t[2]
        == 'f' || t[2] == 'F'))
    ||| (t.len() == 4 && (t[0] == '-' || t[0] == '+') && (t[1] == 'i' || t[1] == 'I') && (t[2]
        == 'n' || t[2] == 'N') && (t[3] == 'f' || t[3] == 'F'))
}

fn is_special_coord_lit(t: &str) -> (r: bool)
    ensures
        r == special_coord_lit(t@),
{
    let c = chars_of(t);
    if c.len() == 3 {
        let nan = (c[0] == 'n' || c[0] == 'N') && (c[1] == 'a' || c[1] == 'A') && (c[2] == 'n'
            || c[2] == 'N');
        let inf = (c[0] == 'i' || c[0] == 'I') && (c[1] == 'n' || c[1] == 'N') && (c[2] == 'f'
            || c[2] == 'F');
        nan || inf
    } else if c.len() == 4 {
        (c[0] == '-' || c[0] == '+') && (c[1] == 'i' || c[1] == 'I') && (c[2] == 'n' || c[2] == 'N')
            && (c[3] == 'f' || c[3] == 'F')
    } else {
        false
    }
}

/// The coordinate encoded by a token: `None` where the token spells NaN or
/// an infinity, fails the numeric parse, or parses to a non-finite value;
/// otherwise the bits of the finite value it denotes.
pub open spec fn coord_bits(t: Seq<char>) -> Option<u64> {
    if special_coord_lit(t) {
        None
    } else {
        match f64_bits_of(t) {
            Some(b) => if finite_bits(b) {
                Some(b)
            } else {
                None
            },
            None => None,
        }
    }
}

/// Parses one coordinate token, rejecting every NaN or infinity, whether
/// spelled out or produced by the numeric parse. `line_num` is the
/// 1-indexed physical line the token stands on, for the diagnostic.
pub fn parse_coordinate(s: &str, line_num: usize) -> (r: Result<Coord, ParseError>)
    ensures
        match r {
            Ok(c) => coord_bits(s@) == Some(c.bits) && c.wf(),
            Err(e) => coord_bits(s@) is None && e@ == crate::error::ErrorView::InvalidCoordinate(
                line_num as int,
            ),
        },
{
    if is_special_coord_lit(s) {
        let mut m = String::from_str("'");
        m.append(s);
        m.append("' is not a valid coordinate (NaN/Inf not allowed)");
        return Err(ParseError::InvalidCoordinate(line_num, m));
    }
    match parse_f64_bits(s) {
        Some(b) => {
            if is_finite_bits(b) {
                Ok(Coord { bits: b })
            } else {
                let mut m = String::from_str("'");
                m.append(s);
                m.append("' resulted in NaN or Infinity");
                Err(ParseError::InvalidCoordinate(line_num, m))
            }
        },
        None => {
            let mut m = String::from_str("'");
            m.append(s);
            m.append("' is not a valid number");
            Err(ParseError::InvalidCoordinate(line_num, m))
        },
    }
}

} // verus!
