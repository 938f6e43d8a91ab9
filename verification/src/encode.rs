//! The four mode encoders: each validates its input against the mode's
//! character set and appends the mode's bit-packed form to a stream.

use vstd::prelude::*;
use vstd::arithmetic::power2::pow2;
use vstd::arithmetic::power2::lemma2_to64;
use crate::bits::BitStreamWriter;
use crate::bits::EncodeError;
use crate::bits::bits_of;
use crate::bits::lemma_bits_of_len;
use crate::mode::all_numeric;
use crate::mode::all_alnum;
use crate::mode::all_byte;
use crate::mode::is_digit_char;
use crate::mode::is_alnum_char;
use crate::mode::is_byte_char;
use crate::segment::QRCode;

verus! {

/// The numeric value of a decimal digit character.
pub open spec fn digit_val(c: char) -> int
    recommends
        is_digit_char(c),
{
    c as int - 48
}

/// A run of digits read as one decimal integer.
pub open spec fn numeric_group_val(g: Seq<char>) -> int
    decreases g.len(),
{
    if g.len() == 0 {
        0
    } else {
        numeric_group_val(g.drop_last()) * 10 + digit_val(g.last())
    }
}

/// Numeric-mode packing: groups of three digits become 10-bit fields; a
/// trailing pair becomes 7 bits, a trailing single digit 4 bits.
pub open spec fn numeric_bits(s: Seq<char>) -> Seq<bool>
    decreases s.len(),
{
    if s.len() >= 3 {
        bits_of(numeric_group_val(s.take(3)), 10) + numeric_bits(s.skip(3))
    } else if s.len() == 2 {
        bits_of(numeric_group_val(s), 7)
    } else if s.len() == 1 {
        bits_of(numeric_group_val(s), 4)
    } else {
        Seq::empty()
    }
}

/// The alphanumeric-mode character code: digits 0-9, letters 10-35,
/// then space `$` `%` `*` `+` `-` `.` `/` `:` as 36 through 44.
pub open spec fn alnum_code(c: char) -> int
    recommends
        is_alnum_char(c),
{
    if is_digit_char(c) {
        c as int - 48
    } else if 65 <= c as int <= 90 {
        c as int - 55
    } else if c == ' ' {
        36
    } else if c == '$' {
        37
    } else if c == '%' {
        38
    } else if c == '*' {
        39
    } else if c == '+' {
        40
    } else if c == '-' {
        41
    } else if c == '.' {
        42
    } else if c == '/' {
        43
    } else {
        44
    }
}

/// Alphanumeric-mode packing: pairs become 11-bit fields holding
/// `code(a) * 45 + code(b)`; a trailing unpaired character becomes 6 bits.
pub open spec fn alnum_bits(s: Seq<char>) -> Seq<bool>
    decreases s.len(),
{
    if s.len() >= 2 {
        bits_of(alnum_code(s[0]) * 45 + alnum_code(s[1]), 11) + alnum_bits(s.skip(2))
    } else if s.len() == 1 {
        bits_of(alnum_code(s[0]), 6)
    } else {
        Seq::empty()
    }
}

/// Byte-mode packing: each character's code point as one 8-bit field,
/// in input order.
pub open spec fn byte_bits(s: Seq<char>) -> Seq<bool>
    decreases s.len(),
{
    if s.len() == 0 {
        Seq::empty()
    } else {
        bits_of(s[0] as int, 8) + byte_bits(s.skip(1))
    }
}

/// `c`'s code lies in one of the two supported Shift JIS ranges.
pub open spec fn is_kanji_char(c: char) -> bool {
    ||| 0x8140 <= c as int <= 0x9FFC
    ||| 0xE040 <= c as int <= 0xEBBF
}

pub open spec fn all_kanji(s: Seq<char>) -> bool {
    forall|i: int| 0 <= i < s.len() ==> is_kanji_char(s[i])
}

/// The 13-bit value of one kanji character: subtract the range's base
/// from its Shift JIS code, then multiply the high byte by `0xC0` and
/// add the low byte.
pub open spec fn kanji_val(c: char) -> int
    recommends
        is_kanji_char(c),
{
    let base: int = if c as int <= 0x9FFC {
        0x8140
    } else {
        0xC140
    };
    let d = c as int - base;
    (d / 256) * 0xC0 + d % 256
}

/// Kanji-mode packing: each character as one 13-bit field.
pub open spec fn kanji_bits(s: Seq<char>) -> Seq<bool>
    decreases s.len(),
{
    if s.len() == 0 {
        Seq::empty()
    } else {
        bits_of(kanji_val(s[0]), 13) + kanji_bits(s.skip(1))
    }
}

/// Appends the numeric-mode packing of `data` to `w`. Succeeds exactly
/// when every character is a decimal digit; on failure the stream is
/// unchanged and the error is `InvalidCharacter`.
pub fn encode_numeric(data: &str, w: &mut BitStreamWriter) -> (r: Result<(), EncodeError>)
    ensures
        r is Ok <==> all_numeric(data@),
        r is Ok ==> final(w)@ == old(w)@ + numeric_bits(data@),
        r is Err ==> final(w)@ == old(w)@ && r == Err::<(), EncodeError>(
            EncodeError::InvalidCharacter,
        ),
{
    let n = data.unicode_len();
    let mut i: usize = 0;
    while i < n
        invariant
            i <= n,
            n == data@.len(),
            all_numeric(data@.take(i as int)),
        decreases n - i,
    {
        let c = data.get_char(i);
        let u = c as u32;
        if !(48 <= u && u <= 57) {
            proof {
                assert(!is_digit_char(data@[i as int]));
            }
            return Err(EncodeError::InvalidCharacter);
        }
        proof {
            assert(data@.take(i + 1).drop_last() =~= data@.take(i as int));
            assert forall|j: int| 0 <= j < i + 1 implies #[trigger] is_digit_char(
                data@.take(i + 1)[j],
            ) by {
                if j < i {
                    assert(data@.take(i as int)[j] == data@.take(i + 1)[j]);
                }
            }
        }
        i = i + 1;
    }
    proof {
        assert(data@.take(n as int) =~= data@);
        lemma2_to64();
    }
    let mut i: usize = 0;
    while n - i >= 3
        invariant
            i <= n,
            n == data@.len(),
            all_numeric(data@),
            old(w)@ + numeric_bits(data@) == w@ + numeric_bits(data@.skip(i as int)),
            pow2(10) == 1024,
        decreases n - i,
    {
        let d0 = data.get_char(i) as u32 - 48;
        let d1 = data.get_char(i + 1) as u32 - 48;
        let d2 = data.get_char(i + 2) as u32 - 48;
        proof {
            assert(is_digit_char(data@[i as int]));
            assert(is_digit_char(data@[i + 1]));
            assert(is_digit_char(data@[i + 2]));
        }
        let v = d0 * 100 + d1 * 10 + d2;
        let ghost rest = data@.skip(i as int);
        proof {
            assert(rest.take(3)[0] == data@[i as int]);
            assert(rest.take(3)[1] == data@[i + 1]);
            assert(rest.take(3)[2] == data@[i + 2]);
            lemma_group3_val(rest.take(3));
            assert(numeric_group_val(rest.take(3)) == v);
            assert(rest.skip(3) =~= data@.skip(i + 3));
        }
        match w.append_bits(v, 10) {
            Ok(_) => {},
            Err(e) => {
                return Err(e);
            },
        }
        i = i + 3;
    }
    let rem = n - i;
    if rem == 2 {
        let d0 = data.get_char(i) as u32 - 48;
        let d1 = data.get_char(i + 1) as u32 - 48;
        proof {
            assert(is_digit_char(data@[i as int]));
            assert(is_digit_char(data@[i + 1]));
        }
        let v = d0 * 10 + d1;
        let ghost rest = data@.skip(i as int);
        proof {
            assert(rest[0] == data@[i as int]);
            assert(rest[1] == data@[i + 1]);
            lemma_group2_val(rest);
            assert(numeric_group_val(rest) == v);
        }
        match w.append_bits(v, 7) {
            Ok(_) => {},
            Err(e) => {
                return Err(e);
            },
        }
    } else if rem == 1 {
        let d0 = data.get_char(i) as u32 - 48;
        proof {
            assert(is_digit_char(data@[i as int]));
        }
        let ghost rest = data@.skip(i as int);
        proof {
            assert(rest[0] == data@[i as int]);
            lemma_group1_val(rest);
            assert(numeric_group_val(rest) == d0);
        }
        match w.append_bits(d0, 4) {
            Ok(_) => {},
            Err(e) => {
                return Err(e);
            },
        }
    } else {
        proof {
            assert(data@.skip(i as int).len() == 0);
        }
    }
    proof {
        assert(w@ =~= old(w)@ + numeric_bits(data@));
    }
    Ok(())
}

/// A three-digit group reads as `100 a + 10 b + c`.
proof fn lemma_group3_val(g: Seq<char>)
    requires
        g.len() == 3,
    ensures
        numeric_group_val(g) == digit_val(g[0]) * 100 + digit_val(g[1]) * 10 + digit_val(g[2]),
{
    let g2 = g.drop_last();
    assert(g2.len() == 2 && g2[0] == g[0] && g2[1] == g[1]);
    lemma_group2_val(g2);
}

/// A two-digit group reads as `10 a + b`.
proof fn lemma_group2_val(g: Seq<char>)
    requires
        g.len() == 2,
    ensures
        numeric_group_val(g) == digit_val(g[0]) * 10 + digit_val(g[1]),
{
    let g1 = g.drop_last();
    assert(g1.len() == 1 && g1[0] == g[0]);
    lemma_group1_val(g1);
}

/// A one-digit group reads as the digit itself.
proof fn lemma_group1_val(g: Seq<char>)
    requires
        g.len() == 1,
    ensures
        numeric_group_val(g) == digit_val(g[0]),
{
    assert(g.drop_last().len() == 0);
    assert(numeric_group_val(g.drop_last()) == 0);
}

/// Appends the alphanumeric-mode packing of `data` to `w`. Succeeds
/// exactly when every character has a table entry; on failure the stream
/// is unchanged and the error is `InvalidCharacter`.
pub fn encode_alphanumeric(data: &str, w: &mut BitStreamWriter) -> (r: Result<(), EncodeError>)
    ensures
        r is Ok <==> all_alnum(data@),
        r is Ok ==> final(w)@ == old(w)@ + alnum_bits(data@),
        r is Err ==> final(w)@ == old(w)@ && r == Err::<(), EncodeError>(
            EncodeError::InvalidCharacter,
        ),
{
    let n = data.unicode_len();
    let mut i: usize = 0;
    while i < n
        invariant
            i <= n,
            n == data@.len(),
            all_alnum(data@.take(i as int)),
        decreases n - i,
    {
        let c = data.get_char(i);
        match QRCode::encoding_for_alphanumeric(c) {
            Some(_) => {},
            None => {
                proof {
                    assert(!is_alnum_char(data@[i as int]));
                }
                return Err(EncodeError::InvalidCharacter);
            },
        }
        proof {
            assert forall|j: int| 0 <= j < i + 1 implies #[trigger] is_alnum_char(
                data@.take(i + 1)[j],
            ) by {
                if j < i {
                    assert(data@.take(i as int)[j] == data@.take(i + 1)[j]);
                }
            }
        }
        i = i + 1;
    }
    proof {
        assert(data@.take(n as int) =~= data@);
        lemma2_to64();
    }
    let mut i: usize = 0;
    while n - i >= 2
        invariant
            i <= n,
            n == data@.len(),
            all_alnum(data@),
            old(w)@ + alnum_bits(data@) == w@ + alnum_bits(data@.skip(i as int)),
            pow2(11) == 2048,
        decreases n - i,
    {
        proof {
            assert(is_alnum_char(data@[i as int]));
            assert(is_alnum_char(data@[i + 1]));
        }
        let a = match QRCode::encoding_for_alphanumeric(data.get_char(i)) {
            Some(v) => v,
            None => {
                return Err(EncodeError::InvalidCharacter);
            },
        };
        let b = match QRCode::encoding_for_alphanumeric(data.get_char(i + 1)) {
            Some(v) => v,
            None => {
                return Err(EncodeError::InvalidCharacter);
            },
        };
        let v = a * 45 + b;
        let ghost rest = data@.skip(i as int);
        proof {
            assert(rest[0] == data@[i as int]);
            assert(rest[1] == data@[i + 1]);
            assert(rest.skip(2) =~= data@.skip(i + 2));
        }
        match w.append_bits(v, 11) {
            Ok(_) => {},
            Err(e) => {
                return Err(e);
            },
        }
        i = i + 2;
    }
    if i < n {
        proof {
            assert(is_alnum_char(data@[i as int]));
        }
        let a = match QRCode::encoding_for_alphanumeric(data.get_char(i)) {
            Some(v) => v,
            None => {
                return Err(EncodeError::InvalidCharacter);
            },
        };
        let ghost rest = data@.skip(i as int);
        proof {
            assert(rest.len() == 1);
            assert(rest[0] == data@[i as int]);
        }
        match w.append_bits(a, 6) {
            Ok(_) => {},
            Err(e) => {
                return Err(e);
            },
        }
    } else {
        proof {
            assert(data@.skip(i as int).len() == 0);
        }
    }
    proof {
        assert(w@ =~= old(w)@ + alnum_bits(data@));
    }
    Ok(())
}

/// Appends the byte-mode packing of `data` to `w`. Succeeds exactly when
/// every code point fits in one byte; on failure the stream is unchanged
/// and the error is `InvalidCharacter`.
pub fn encode_byte(data: &str, w: &mut BitStreamWriter) -> (r: Result<(), EncodeError>)
    ensures
        r is Ok <==> all_byte(data@),
        r is Ok ==> final(w)@ == old(w)@ + byte_bits(data@),
        r is Err ==> final(w)@ == old(w)@ && r == Err::<(), EncodeError>(
            EncodeError::InvalidCharacter,
        ),
{
    let n = data.unicode_len();
    let mut i: usize = 0;
    while i < n
        invariant
            i <= n,
            n == data@.len(),
            all_byte(data@.take(i as int)),
        decreases n - i,
    {
        let c = data.get_char(i);
        if (c as u32) > 255 {
            proof {
                assert(!is_byte_char(data@[i as int]));
            }
            return Err(EncodeError::InvalidCharacter);
        }
        proof {
            assert forall|j: int| 0 <= j < i + 1 implies #[trigger] is_byte_char(
                data@.take(i + 1)[j],
            ) by {
                if j < i {
                    assert(data@.take(i as int)[j] == data@.take(i + 1)[j]);
                }
            }
        }
        i = i + 1;
    }
    proof {
        assert(data@.take(n as int) =~= data@);
        lemma2_to64();
    }
    let mut i: usize = 0;
    while i < n
        invariant
            i <= n,
            n == data@.len(),
            all_byte(data@),
            old(w)@ + byte_bits(data@) == w@ + byte_bits(data@.skip(i as int)),
            pow2(8) == 256,
        decreases n - i,
    {
        let c = data.get_char(i);
        proof {
            assert(is_byte_char(data@[i as int]));
        }
        let ghost rest = data@.skip(i as int);
        proof {
            assert(rest[0] == data@[i as int]);
            assert(rest.skip(1) =~= data@.skip(i + 1));
        }
        match w.append_bits(c as u32, 8) {
            Ok(_) => {},
            Err(e) => {
                return Err(e);
            },
        }
        i = i + 1;
    }
    proof {
        assert(w@ =~= old(w)@ + byte_bits(data@));
    }
    Ok(())
}

/// Appends the kanji-mode packing of `data` to `w`. Succeeds exactly when
/// every character's Shift JIS code lies in one of the two supported
/// ranges; on failure the stream is unchanged and the error is
/// `InvalidCharacter`.
pub fn encode_kanji(data: &str, w: &mut BitStreamWriter) -> (r: Result<(), EncodeError>)
    ensures
        r is Ok <==> all_kanji(data@),
        r is Ok ==> final(w)@ == old(w)@ + kanji_bits(data@),
        r is Err ==> final(w)@ == old(w)@ && r == Err::<(), EncodeError>(
            EncodeError::InvalidCharacter,
        ),
{
    let n = data.unicode_len();
    let mut i: usize = 0;
    while i < n
        invariant
            i <= n,
            n == data@.len(),
            all_kanji(data@.take(i as int)),
        decreases n - i,
    {
        let c = data.get_char(i);
        let u = c as u32;
        if !((0x8140 <= u && u <= 0x9FFC) || (0xE040 <= u && u <= 0xEBBF)) {
            proof {
                assert(!is_kanji_char(data@[i as int]));
            }
            return Err(EncodeError::InvalidCharacter);
        }
        proof {
            assert forall|j: int| 0 <= j < i + 1 implies #[trigger] is_kanji_char(
                data@.take(i + 1)[j],
            ) by {
                if j < i {
                    assert(data@.take(i as int)[j] == data@.take(i + 1)[j]);
                }
            }
        }
        i = i + 1;
    }
    proof {
        assert(data@.take(n as int) =~= data@);
        lemma2_to64();
    }
    let mut i: usize = 0;
    while i < n
        invariant
            i <= n,
            n == data@.len(),
            all_kanji(data@),
            old(w)@ + kanji_bits(data@) == w@ + kanji_bits(data@.skip(i as int)),
            pow2(13) == 8192,
        decreases n - i,
    {
        let c = data.get_char(i);
        proof {
            assert(is_kanji_char(data@[i as int]));
        }
        let u = c as u32;
        let base: u32 = if u <= 0x9FFC {
            0x8140
        } else {
            0xC140
        };
        let d = u - base;
        let v = (d / 256) * 0xC0 + d % 256;
        let ghost rest = data@.skip(i as int);
        proof {
            assert(rest[0] == data@[i as int]);
            assert(rest.skip(1) =~= data@.skip(i + 1));
            assert(kanji_val(rest[0]) == v);
        }
        match w.append_bits(v, 13) {
            Ok(_) => {},
            Err(e) => {
                return Err(e);
            },
        }
        i = i + 1;
    }
    proof {
        assert(w@ =~= old(w)@ + kanji_bits(data@));
    }
    Ok(())
}

/// Numeric-mode output length: `10` bits per full group of three digits,
/// then `4` or `7` bits for a trailing group of one or two.
pub proof fn lemma_numeric_bits_len(s: Seq<char>)
    ensures
        numeric_bits(s).len() == 10 * (s.len() / 3) + (if s.len() % 3 == 0 {
            0int
        } else if s.len() % 3 == 1 {
            4int
        } else {
            7int
        }),
    decreases s.len(),
{
    if s.len() >= 3 {
        lemma_bits_of_len(numeric_group_val(s.take(3)), 10);
        lemma_numeric_bits_len(s.skip(3));
        assert(s.skip(3).len() == s.len() - 3);
    } else if s.len() == 2 {
        lemma_bits_of_len(numeric_group_val(s), 7);
    } else if s.len() == 1 {
        lemma_bits_of_len(numeric_group_val(s), 4);
    }
}

/// Alphanumeric-mode output length: `11` bits per pair, `6` for a
/// trailing unpaired character.
pub proof fn lemma_alnum_bits_len(s: Seq<char>)
    ensures
        alnum_bits(s).len() == 11 * (s.len() / 2) + 6 * (s.len() % 2),
    decreases s.len(),
{
    if s.len() >= 2 {
        lemma_bits_of_len(alnum_code(s[0]) * 45 + alnum_code(s[1]), 11);
        lemma_alnum_bits_len(s.skip(2));
        assert(s.skip(2).len() == s.len() - 2);
    } else if s.len() == 1 {
        lemma_bits_of_len(alnum_code(s[0]), 6);
    }
}

/// Byte-mode output length: exactly `8` bits per character.
pub proof fn lemma_byte_bits_len(s: Seq<char>)
    ensures
        byte_bits(s).len() == 8 * s.len(),
    decreases s.len(),
{
    if s.len() > 0 {
        lemma_bits_of_len(s[0] as int, 8);
        lemma_byte_bits_len(s.skip(1));
    }
}

/// Kanji-mode output length: exactly `13` bits per character.
pub proof fn lemma_kanji_bits_len(s: Seq<char>)
    ensures
        kanji_bits(s).len() == 13 * s.len(),
    decreases s.len(),
{
    if s.len() > 0 {
        lemma_bits_of_len(kanji_val(s[0]), 13);
        lemma_kanji_bits_len(s.skip(1));
    }
}

} // verus!
