//! An append-only stream of bits, filled from fixed-width integer fields,
//! most-significant bit first.

use vstd::prelude::*;
use vstd::arithmetic::power2::pow2;
use vstd::arithmetic::power2::lemma2_to64;
use vstd::arithmetic::power2::lemma_pow2_strictly_increases;

verus! {

/// The ways an encoding request can fail.
///
/// `InvalidCharacter`: the input holds a character outside the selected
/// mode's character set. `InvalidBitWidth`: a value handed to the bit
/// writer does not fit in the requested number of bits.
#[derive(Debug, PartialEq, Eq, Structural, Clone, Copy)]
pub enum EncodeError {
    InvalidCharacter,
    InvalidBitWidth,
}

/// The `width` low bits of `value`, most-significant bit first.
pub open spec fn bits_of(value: int, width: nat) -> Seq<bool>
    decreases width,
{
    if width == 0 {
        Seq::empty()
    } else {
        bits_of(value / 2, (width - 1) as nat).push(value % 2 == 1)
    }
}

pub proof fn lemma_bits_of_len(value: int, width: nat)
    ensures
        bits_of(value, width).len() == width,
    decreases width,
{
    if width > 0 {
        lemma_bits_of_len(value / 2, (width - 1) as nat);
    }
}

/// The character a single bit renders as.
pub open spec fn bit_char(b: bool) -> char {
    if b {
        '1'
    } else {
        '0'
    }
}

/// A bit sequence rendered as a string of `'0'` and `'1'` characters,
/// in stream order.
pub open spec fn bit_string(bits: Seq<bool>) -> Seq<char> {
    Seq::new(bits.len(), |i: int| bit_char(bits[i]))
}

/// An ordered, growable sequence of bits. Bits are only ever appended,
/// in the order the encoders produce them; none is removed or reordered.
pub struct BitStreamWriter {
    bits: Vec<bool>,
}

impl View for BitStreamWriter {
    type V = Seq<bool>;

    closed spec fn view(&self) -> Seq<bool> {
        self.bits@
    }
}

impl BitStreamWriter {
    /// A fresh, empty stream.
    pub fn new() -> (w: Self)
        ensures
            w@ == Seq::<bool>::empty(),
    {
        let w = BitStreamWriter { bits: Vec::new() };
        proof {
            assert(w@ =~= Seq::<bool>::empty());
        }
        w
    }

    /// The number of bits appended so far.
    pub fn len(&self) -> (n: usize)
        ensures
            n == self@.len(),
    {
        self.bits.len()
    }

    fn push_value(&mut self, value: u32, width: usize)
        requires
            width <= 32,
            (value as int) < pow2(width as nat),
        ensures
            final(self)@ == old(self)@ + bits_of(value as int, width as nat),
        decreases width,
    {
        if width == 0 {
            proof {
                assert(self@ =~= old(self)@ + bits_of(value as int, 0));
            }
        } else {
            proof {
                vstd::arithmetic::power2::lemma_pow2_unfold(width as nat);
            }
            self.push_value(value / 2, width - 1);
            self.bits.push(value % 2 == 1);
            proof {
                assert(self@ =~= old(self)@ + bits_of(value as int, width as nat));
            }
        }
    }

    /// Appends the `width` low bits of `value`, most-significant bit first.
    /// The stream grows by exactly `width` bits on success; on failure it is
    /// unchanged. Fails with `InvalidBitWidth` exactly when `value` does not
    /// fit in `width` bits, so no field is ever silently truncated.
    pub fn append_bits(&mut self, value: u32, width: usize) -> (r: Result<(), EncodeError>)
        ensures
            r is Ok <==> (value as int) < pow2(width as nat),
            r is Ok ==> final(self)@ == old(self)@ + bits_of(value as int, width as nat),
            r is Err ==> final(self)@ == old(self)@ && r == Err::<(), EncodeError>(
                EncodeError::InvalidBitWidth,
            ),
    {
        proof {
            lemma2_to64();
        }
        if width >= 32 {
            proof {
                if width > 32 {
                    lemma_pow2_strictly_increases(32, width as nat);
                }
            }
            // A 32-bit value always fits in 32 or more bits; the bits above
            // the value's 32 are leading zeros, emitted first.
            let pad: usize = width - 32;
            let mut extra: usize = pad;
            while extra > 0
                invariant
                    extra <= pad,
                    self@ == old(self)@ + bits_of(0, (pad - extra) as nat),
                decreases extra,
            {
                self.bits.push(false);
                proof {
                    assert(self@ =~= old(self)@ + bits_of(0, (pad - extra + 1) as nat));
                }
                extra = extra - 1;
            }
            proof {
                assert(self@ =~= old(self)@ + bits_of(0, pad as nat));
            }
            self.push_value(value, 32);
            proof {
                lemma_bits_of_zero_extend(value as int, 32, pad as nat);
                assert(self@ =~= old(self)@ + bits_of(value as int, width as nat));
            }
            Ok(())
        } else {
            let mut bound: u64 = 1;
            let mut i: usize = 0;
            while i < width
                invariant
                    i <= width,
                    width < 32,
                    bound == pow2(i as nat),
                decreases width - i,
            {
                proof {
                    lemma_pow2_strictly_increases(i as nat, 32);
                    lemma2_to64();
                }
                bound = bound * 2;
                i = i + 1;
            }
            if (value as u64) < bound {
                self.push_value(value, width);
                Ok(())
            } else {
                Err(EncodeError::InvalidBitWidth)
            }
        }
    }

    /// The stream as a string of `'0'` and `'1'` characters, in append order.
    pub fn render(&self) -> (r: String)
        ensures
            r@ == bit_string(self@),
    {
        let mut out = String::new();
        let mut i: usize = 0;
        proof {
            assert(out@ =~= bit_string(self@.take(0)));
        }
        while i < self.bits.len()
            invariant
                i <= self.bits.len(),
                out@ == bit_string(self@.take(i as int)),
            decreases self.bits.len() - i,
        {
            if self.bits[i] {
                out.append("1");
            } else {
                out.append("0");
            }
            proof {
                reveal_strlit("0");
                reveal_strlit("1");
                assert(out@ =~= bit_string(self@.take(i + 1)));
            }
            i = i + 1;
        }
        proof {
            assert(self@.take(self@.len() as int) =~= self@);
        }
        out
    }
}

/// A value below `pow2(width)` rendered in `pad` extra bits gains only
/// leading zero bits.
proof fn lemma_bits_of_zero_extend(value: int, width: nat, pad: nat)
    requires
        0 <= value < pow2(width),
    ensures
        bits_of(value, width + pad) == bits_of(0, pad) + bits_of(value, width),
    decreases width,
{
    if width == 0 {
        assert(pow2(0) == 1) by {
            lemma2_to64();
        }
        assert(bits_of(value, pad) =~= bits_of(0, pad) + bits_of(value, 0));
    } else {
        assert(pow2(width) == 2 * pow2((width - 1) as nat)) by {
            vstd::arithmetic::power2::lemma_pow2_unfold(width);
        }
        lemma_bits_of_zero_extend(value / 2, (width - 1) as nat, pad);
        assert(bits_of(value, width + pad) =~= bits_of(0, pad) + bits_of(value, width));
    }
}

} // verus!
