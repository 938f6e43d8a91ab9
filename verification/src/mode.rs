//! The four segment modes and the classifier that picks one for an input.

use vstd::prelude::*;

verus! {

/// One of the four segment encodings. The classifier orders them from the
/// densest (`Numeric`) to the loosest (`Kanji`) and always picks the most
/// restrictive mode the whole input satisfies.
#[derive(Debug, PartialEq, Eq, Structural, Clone, Copy)]
pub enum Mode {
    /// The decimal digits `0` through `9`.
    Numeric,
    /// Digits, uppercase ASCII letters, and the symbols
    /// space, `$`, `%`, `*`, `+`, `-`, `.`, `/`, `:`.
    Alphanumeric,
    /// Characters whose code points fit in a single byte.
    Byte,
    /// Double-byte characters of the Shift JIS character set.
    Kanji,
}

/// `c` is a decimal digit.
pub open spec fn is_digit_char(c: char) -> bool {
    48 <= c as int <= 57
}

/// `c` belongs to the alphanumeric-mode character set.
pub open spec fn is_alnum_char(c: char) -> bool {
    ||| is_digit_char(c)
    ||| 65 <= c as int <= 90
    ||| c == ' '
    ||| c == '$'
    ||| c == '%'
    ||| c == '*'
    ||| c == '+'
    ||| c == '-'
    ||| c == '.'
    ||| c == '/'
    ||| c == ':'
}

/// `c`'s code point fits in a single byte.
pub open spec fn is_byte_char(c: char) -> bool {
    c as int <= 255
}

pub open spec fn all_numeric(s: Seq<char>) -> bool {
    forall|i: int| 0 <= i < s.len() ==> is_digit_char(s[i])
}

pub open spec fn all_alnum(s: Seq<char>) -> bool {
    forall|i: int| 0 <= i < s.len() ==> is_alnum_char(s[i])
}

pub open spec fn all_byte(s: Seq<char>) -> bool {
    forall|i: int| 0 <= i < s.len() ==> is_byte_char(s[i])
}

/// The mode chosen for an input: the first predicate, in order of
/// decreasing density, that every character satisfies. `Kanji` is the
/// final catch-all, so every input gets exactly one mode.
pub open spec fn classify(s: Seq<char>) -> Mode {
    if all_numeric(s) {
        Mode::Numeric
    } else if all_alnum(s) {
        Mode::Alphanumeric
    } else if all_byte(s) {
        Mode::Byte
    } else {
        Mode::Kanji
    }
}

impl Mode {
    /// The mode-indicator bit pattern, used by the (external) header stage.
    pub fn to_bits(&self) -> (r: u32)
        ensures
            r == self.indicator(),
    {
        match self {
            Mode::Numeric => 0b0001,
            Mode::Alphanumeric => 0b0010,
            Mode::Byte => 0b0100,
            Mode::Kanji => 0b1000,
        }
    }

    pub open spec fn indicator(self) -> u32 {
        match self {
            Mode::Numeric => 1,
            Mode::Alphanumeric => 2,
            Mode::Byte => 4,
            Mode::Kanji => 8,
        }
    }

    /// The character-count-indicator width for small symbol versions, used
    /// by the (external) header stage.
    pub fn character_count(&self) -> (r: u32)
        ensures
            r == self.count_width(),
    {
        match self {
            Mode::Numeric => 10,
            Mode::Alphanumeric => 9,
            Mode::Byte => 8,
            Mode::Kanji => 8,
        }
    }

    pub open spec fn count_width(self) -> u32 {
        match self {
            Mode::Numeric => 10,
            Mode::Alphanumeric => 9,
            Mode::Byte => 8,
            Mode::Kanji => 8,
        }
    }
}

/// Selects the mode for `data`. Total: every string, the empty one
/// included, gets exactly one mode, and the result depends on the
/// characters alone, so repeated calls agree.
pub fn get_mode(data: &str) -> (m: Mode)
    ensures
        m == classify(data@),
{
    let n = data.unicode_len();
    let mut numeric = true;
    let mut alnum = true;
    let mut byte = true;
    let mut i: usize = 0;
    while i < n
        invariant
            i <= n,
            n == data@.len(),
            numeric == all_numeric(data@.take(i as int)),
            alnum == all_alnum(data@.take(i as int)),
            byte == all_byte(data@.take(i as int)),
        decreases n - i,
    {
        let c = data.get_char(i);
        let u = c as u32;
        let c_numeric = 48 <= u && u <= 57;
        let c_alnum = c_numeric || (65 <= u && u <= 90) || c == ' ' || c == '$' || c == '%'
            || c == '*' || c == '+' || c == '-' || c == '.' || c == '/' || c == ':';
        let c_byte = u <= 255;
        proof {
            assert(data@.take(i + 1).drop_last() =~= data@.take(i as int));
            assert(data@.take(i + 1).last() == data@[i as int]);
        }
        numeric = numeric && c_numeric;
        alnum = alnum && c_alnum;
        byte = byte && c_byte;
        proof {
            lemma_all_split();
        }
        i = i + 1;
    }
    proof {
        assert(data@.take(n as int) =~= data@);
    }
    if numeric {
        Mode::Numeric
    } else if alnum {
        Mode::Alphanumeric
    } else if byte {
        Mode::Byte
    } else {
        Mode::Kanji
    }
}

/// Extending a sequence by one character narrows each "all characters
/// satisfy" predicate by exactly that character's membership.
proof fn lemma_all_split()
    ensures
        forall|s: Seq<char>|
            s.len() > 0 ==> (#[trigger] all_numeric(s) <==> all_numeric(s.drop_last())
                && is_digit_char(s.last())),
        forall|s: Seq<char>|
            s.len() > 0 ==> (#[trigger] all_alnum(s) <==> all_alnum(s.drop_last()) && is_alnum_char(
                s.last(),
            )),
        forall|s: Seq<char>|
            s.len() > 0 ==> (#[trigger] all_byte(s) <==> all_byte(s.drop_last()) && is_byte_char(
                s.last(),
            )),
{
    assert forall|s: Seq<char>| s.len() > 0 implies (all_numeric(s) <==> all_numeric(s.drop_last())
        && is_digit_char(s.last())) by {
        if all_numeric(s.drop_last()) && is_digit_char(s.last()) {
            assert forall|i: int| 0 <= i < s.len() implies is_digit_char(s[i]) by {
                if i < s.len() - 1 {
                    assert(s.drop_last()[i] == s[i]);
                }
            }
        }
        if all_numeric(s) {
            assert forall|i: int| 0 <= i < s.drop_last().len() implies is_digit_char(
                s.drop_last()[i],
            ) by {
                assert(s.drop_last()[i] == s[i]);
            }
        }
    }
    assert forall|s: Seq<char>| s.len() > 0 implies (all_alnum(s) <==> all_alnum(s.drop_last())
        && is_alnum_char(s.last())) by {
        if all_alnum(s.drop_last()) && is_alnum_char(s.last()) {
            assert forall|i: int| 0 <= i < s.len() implies is_alnum_char(s[i]) by {
                if i < s.len() - 1 {
                    assert(s.drop_last()[i] == s[i]);
                }
            }
        }
        if all_alnum(s) {
            assert forall|i: int| 0 <= i < s.drop_last().len() implies is_alnum_char(
                s.drop_last()[i],
            ) by {
                assert(s.drop_last()[i] == s[i]);
            }
        }
    }
    assert forall|s: Seq<char>| s.len() > 0 implies (all_byte(s) <==> all_byte(s.drop_last())
        && is_byte_char(s.last())) by {
        if all_byte(s.drop_last()) && is_byte_char(s.last()) {
            assert forall|i: int| 0 <= i < s.len() implies is_byte_char(s[i]) by {
                if i < s.len() - 1 {
                    assert(s.drop_last()[i] == s[i]);
                }
            }
        }
        if all_byte(s) {
            assert forall|i: int| 0 <= i < s.drop_last().len() implies is_byte_char(
                s.drop_last()[i],
            ) by {
                assert(s.drop_last()[i] == s[i]);
            }
        }
    }
}

/// Every character that can appear in numeric mode can appear in
/// alphanumeric mode too, so a string of digits satisfies both
/// predicates; the classifier's fixed priority still returns `Numeric`.
pub proof fn lemma_all_digits_classify_numeric(s: Seq<char>)
    requires
        all_numeric(s),
    ensures
        all_alnum(s),
        classify(s) == Mode::Numeric,
{
    assert forall|i: int| 0 <= i < s.len() implies is_alnum_char(s[i]) by {
        assert(is_digit_char(s[i]));
    }
}

} // verus!
