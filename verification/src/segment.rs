//! Orchestration: classify an input, dispatch to the matching mode
//! encoder, and return the packed payload.

use vstd::prelude::*;
use crate::bits::BitStreamWriter;
use crate::bits::EncodeError;
use crate::bits::bit_string;
use crate::mode::Mode;
use crate::mode::all_numeric;
use crate::mode::all_alnum;
use crate::mode::all_byte;
use crate::mode::is_digit_char;
use crate::mode::is_alnum_char;
use crate::mode::classify;
use crate::mode::get_mode;
use crate::encode::all_kanji;
use crate::encode::alnum_code;
use crate::encode::numeric_bits;
use crate::encode::alnum_bits;
use crate::encode::byte_bits;
use crate::encode::kanji_bits;
use crate::encode::encode_numeric;
use crate::encode::encode_alphanumeric;
use crate::encode::encode_byte;
use crate::encode::encode_kanji;

verus! {

/// `s` lies entirely inside `m`'s character set, so encoding it in mode
/// `m` succeeds.
pub open spec fn mode_valid(m: Mode, s: Seq<char>) -> bool {
    match m {
        Mode::Numeric => all_numeric(s),
        Mode::Alphanumeric => all_alnum(s),
        Mode::Byte => all_byte(s),
        Mode::Kanji => all_kanji(s),
    }
}

/// The bit-packed payload of `s` in mode `m`.
pub open spec fn mode_bits(m: Mode, s: Seq<char>) -> Seq<bool> {
    match m {
        Mode::Numeric => numeric_bits(s),
        Mode::Alphanumeric => alnum_bits(s),
        Mode::Byte => byte_bits(s),
        Mode::Kanji => kanji_bits(s),
    }
}

/// One encoding pass's output: the chosen mode, the number of source
/// characters, and the packed payload. Immutable once produced; the
/// (external) header and codeword stages consume it.
pub struct Segment {
    pub mode: Mode,
    pub char_count: usize,
    pub payload: BitStreamWriter,
}

/// Classifies `data`, encodes it in the chosen mode into a fresh stream,
/// and returns the segment. Any encoder error aborts the whole call; no
/// partial segment is returned. The three denser modes accept everything
/// the classifier sends them, so only a `Kanji`-classified input can be
/// rejected, and then only when some character falls outside both
/// supported Shift JIS ranges.
pub fn encode_segment(data: &str) -> (r: Result<Segment, EncodeError>)
    ensures
        r is Ok <==> mode_valid(classify(data@), data@),
        classify(data@) != Mode::Kanji ==> r is Ok,
        r is Ok ==> r->Ok_0.mode == classify(data@),
        r is Ok ==> r->Ok_0.char_count == data@.len(),
        r is Ok ==> r->Ok_0.payload@ == mode_bits(classify(data@), data@),
        r is Err ==> r == Err::<Segment, EncodeError>(EncodeError::InvalidCharacter),
{
    let mode = get_mode(data);
    let count = data.unicode_len();
    let mut w = BitStreamWriter::new();
    let res = match mode {
        Mode::Numeric => encode_numeric(data, &mut w),
        Mode::Alphanumeric => encode_alphanumeric(data, &mut w),
        Mode::Byte => encode_byte(data, &mut w),
        Mode::Kanji => encode_kanji(data, &mut w),
    };
    match res {
        Ok(_) => {
            proof {
                assert(w@ =~= mode_bits(classify(data@), data@));
            }
            Ok(Segment { mode, char_count: count, payload: w })
        },
        Err(e) => Err(e),
    }
}

/// The error-correction capacity a symbol is built with. Retained for
/// the (external) codeword stage; this core always selects `L`.
#[derive(Debug, PartialEq, Eq, Structural, Clone, Copy)]
pub enum ErrorCorrectionLevel {
    /// Recovers 7% of data
    L,
    /// Recovers 15% of data
    M,
    /// Recovers 25% of data
    Q,
    /// Recovers 30% of data
    H,
}

/// A symbol under construction: the fixed small-version context plus the
/// rendered data-segment payload.
pub struct QRCode {
    pub version: u8,
    pub mode: Mode,
    pub ec_level: ErrorCorrectionLevel,
    pub mask_pattern: u8,
    pub data: String,
}

impl QRCode {
    /// Classifies `data`, encodes it, and wraps the rendered payload with
    /// the fixed small-version parameters. Fails, with no partial result,
    /// exactly when the chosen mode rejects a character, which only a
    /// `Kanji`-classified input can suffer.
    pub fn new(data: &str) -> (r: Result<QRCode, EncodeError>)
        ensures
            r is Ok <==> mode_valid(classify(data@), data@),
            classify(data@) != Mode::Kanji ==> r is Ok,
            r is Ok ==> r->Ok_0.mode == classify(data@),
            r is Ok ==> r->Ok_0.data@ == bit_string(mode_bits(classify(data@), data@)),
            r is Ok ==> r->Ok_0.version == 1 && r->Ok_0.mask_pattern == 0 && r->Ok_0.ec_level
                == ErrorCorrectionLevel::L,
            r is Err ==> r == Err::<QRCode, EncodeError>(EncodeError::InvalidCharacter),
    {
        let mode = get_mode(data);
        let version: u8 = 1;
        let ec_level = ErrorCorrectionLevel::L;
        let mask_pattern: u8 = 0;
        match Self::encode(&mode, data) {
            Ok(encoded) => Ok(
                QRCode { version, mode, ec_level, mask_pattern, data: encoded },
            ),
            Err(e) => Err(e),
        }
    }

    /// Encodes `data` in the given mode and renders the payload as a
    /// string of `'0'` and `'1'` characters. The output is a pure function
    /// of the mode and the characters: the same input always yields the
    /// same bits. Fails exactly when a character falls outside the mode's
    /// character set.
    pub fn encode(mode: &Mode, data: &str) -> (r: Result<String, EncodeError>)
        ensures
            r is Ok <==> mode_valid(*mode, data@),
            r is Ok ==> r->Ok_0@ == bit_string(mode_bits(*mode, data@)),
            r is Err ==> r == Err::<String, EncodeError>(EncodeError::InvalidCharacter),
    {
        let mut w = BitStreamWriter::new();
        let res = match mode {
            Mode::Numeric => encode_numeric(data, &mut w),
            Mode::Alphanumeric => encode_alphanumeric(data, &mut w),
            Mode::Byte => encode_byte(data, &mut w),
            Mode::Kanji => encode_kanji(data, &mut w),
        };
        match res {
            Ok(_) => {
                proof {
                    assert(w@ =~= mode_bits(*mode, data@));
                }
                Ok(w.render())
            },
            Err(e) => Err(e),
        }
    }

    /// The alphanumeric-mode character code, per the mode's table:
    /// digits map to 0-9, `A`-`Z` to 10-35, then space `$` `%` `*` `+`
    /// `-` `.` `/` `:` to 36 through 44. `None` exactly when `c` has no
    /// table entry.
    pub fn encoding_for_alphanumeric(c: char) -> (r: Option<u32>)
        ensures
            r is Some <==> is_alnum_char(c),
            r is Some ==> r->0 == alnum_code(c),
    {
        let u = c as u32;
        if 48 <= u && u <= 57 {
            Some(u - 48)
        } else if 65 <= u && u <= 90 {
            Some(u - 55)
        } else if c == ' ' {
            Some(36)
        } else if c == '$' {
            Some(37)
        } else if c == '%' {
            Some(38)
        } else if c == '*' {
            Some(39)
        } else if c == '+' {
            Some(40)
        } else if c == '-' {
            Some(41)
        } else if c == '.' {
            Some(42)
        } else if c == '/' {
            Some(43)
        } else if c == ':' {
            Some(44)
        } else {
            proof {
                assert(!is_digit_char(c));
            }
            None
        }
    }
}

} // verus!
