//! The value of a Block1 or Block2 option.

use vstd::prelude::*;

use crate::error::{IncompatibleOptionValueFormat, InvalidBlockValue};
use crate::option_value::{
    be_minimal, be_value, lemma_be_minimal, lemma_be_value_bound, lemma_be_width, option_from_uint,
    option_to_uint, overflow_message, pow256, OptionValueType,
};

verus! {

/// 2 to the power of `n`.
pub open spec fn pow2(n: nat) -> nat
    decreases n,
{
    if n == 0 {
        1
    } else {
        2 * pow2((n - 1) as nat)
    }
}

/// The powers of 2 ascend.
pub proof fn lemma_pow2_ascends(a: nat, b: nat)
    requires
        a <= b,
    ensures
        pow2(a) <= pow2(b),
        pow2(a) >= 1,
    decreases b,
{
    if b > 0 {
        if a < b {
            lemma_pow2_ascends(a, (b - 1) as nat);
        } else {
            lemma_pow2_ascends((a - 1) as nat, (b - 1) as nat);
        }
    }
}

/// Whether `size` is the size of a block: a power of two from 16 to 1024.
pub open spec fn is_block_size(size: int) -> bool {
    size == 16 || size == 32 || size == 64 || size == 128 || size == 256 || size == 512 || size
        == 1024
}

/// The size exponent of the largest block size that is not above `size`:
/// 0 for 16 bytes up to 6 for 1024 bytes. Below 16 bytes it is 0, the
/// exponent of the smallest block.
pub open spec fn size_exponent_for(size: int) -> u8 {
    if size < 32 {
        0
    } else if size < 64 {
        1
    } else if size < 128 {
        2
    } else if size < 256 {
        3
    } else if size < 512 {
        4
    } else if size < 1024 {
        5
    } else {
        6
    }
}

/// The block option value.
#[derive(Debug, Clone, Copy, PartialEq, Eq, Structural)]
pub struct BlockValue {
    pub num: u16,
    pub more: bool,
    pub size_exponent: u8,
}

impl BlockValue {
    /// The block value for block `num` of blocks of `size` bytes, which has
    /// to be a power of two from 16 to 1024.
    pub fn new(num: usize, more: bool, size: usize) -> (r: Result<Self, InvalidBlockValue>)
        ensures
            r is Ok <==> is_block_size(size as int) && num <= 0xFFFF,
            r matches Ok(block) ==> {
                &&& block.num == num
                &&& block.more == more
                &&& block.size_exponent <= 6
                &&& pow2(block.size_exponent as nat + 4) == size
                &&& block.size_exponent == size_exponent_for(size as int)
            },
            !is_block_size(size as int) ==> (r matches Err(
                InvalidBlockValue::SizeExponentEncodingError(s),
            ) && s == size),
            is_block_size(size as int) && num > 0xFFFF ==> r matches Err(
                InvalidBlockValue::TypeBoundsError(_),
            ),
    {
        proof {
            reveal_with_fuel(pow2, 12);
        }
        let true_size_exponent = match Self::largest_power_of_2_not_in_excess(size) {
            Some(exponent) => exponent,
            None => {
                return Err(InvalidBlockValue::SizeExponentEncodingError(size));
            },
        };
        proof {
            if size < pow2((usize::BITS - 1) as nat) {
                if true_size_exponent > 10 {
                    lemma_pow2_ascends(11, true_size_exponent as nat);
                } else {
                    lemma_pow2_ascends((true_size_exponent + 1) as nat, 11);
                }
            } else {
                lemma_pow2_ascends(11, (usize::BITS - 1) as nat);
            }
        }
        if true_size_exponent < 4 || true_size_exponent > 10 {
            return Err(InvalidBlockValue::SizeExponentEncodingError(size));
        }
        let size_exponent: u8 = (true_size_exponent - 4) as u8;
        let block = Self { num: 0, more, size_exponent };
        if block.size() != size {
            return Err(InvalidBlockValue::SizeExponentEncodingError(size));
        }
        match u16::try_from(num) {
            Ok(num) => Ok(Self { num, more, size_exponent }),
            Err(e) => Err(InvalidBlockValue::TypeBoundsError(e)),
        }
    }

    /// Finds the exponent of the largest power of 2 that does not exceed
    /// `target`; for a target in the upper half of the machine's range, the
    /// number of bits of the machine word.
    pub fn largest_power_of_2_not_in_excess(target: usize) -> (r: Option<usize>)
        ensures
            target == 0 <==> r is None,
            target > 0 && target < pow2((usize::BITS - 1) as nat) ==> (r matches Some(e) && pow2(
                e as nat,
            ) <= target < pow2(e as nat + 1) && e < usize::BITS - 1),
            target >= pow2((usize::BITS - 1) as nat) ==> r == Some(usize::BITS as usize),
    {
        if target == 0 {
            proof {
                lemma_pow2_ascends(0, (usize::BITS - 1) as nat);
            }
            return None;
        }
        let max_power: usize = usize::BITS as usize;
        let mut power: u128 = 1;
        let mut i: usize = 0;
        while i < max_power
            invariant
                i <= max_power,
                max_power == usize::BITS,
                max_power <= 64,
                power == pow2(i as nat),
                i > 0 ==> pow2((i - 1) as nat) <= target,
                target > 0,
            decreases max_power - i,
        {
            proof {
                lemma_pow2_ascends(i as nat, 64);
                reveal_with_fuel(pow2, 65);
            }
            if power > target as u128 {
                proof {
                    lemma_pow2_ascends(i as nat, (usize::BITS - 1) as nat);
                }
                return Some(i - 1);
            }
            power = power * 2;
            i = i + 1;
        }
        proof {
            lemma_pow2_ascends((usize::BITS - 1) as nat, (usize::BITS - 1) as nat);
            reveal_with_fuel(pow2, 65);
        }
        Some(max_power)
    }

    /// The size of a block in bytes: 2 to the power of the size exponent
    /// and 4.
    pub fn size(&self) -> (size: usize)
        requires
            self.size_exponent <= 7,
        ensures
            size == pow2(self.size_exponent as nat + 4),
            16 <= size <= 2048,
    {
        proof {
            reveal_with_fuel(pow2, 12);
        }
        let mut size: usize = 16;
        let mut i: u8 = 0;
        while i < self.size_exponent
            invariant
                i <= self.size_exponent <= 7,
                size == pow2(i as nat + 4),
                size <= 2048,
            decreases self.size_exponent - i,
        {
            proof {
                lemma_pow2_ascends(i as nat + 5, 11);
                reveal_with_fuel(pow2, 12);
            }
            size = size * 2;
            i = i + 1;
        }
        proof {
            lemma_pow2_ascends(4, self.size_exponent as nat + 4);
        }
        size
    }

    /// The number that the option value spells: the block number above the
    /// four low bits, the `more` flag in bit 3, the size exponent in the
    /// three low bits.
    pub open spec fn scalar(self) -> nat {
        (self.num as nat) * 16 + (if self.more {
            8nat
        } else {
            0nat
        }) + (self.size_exponent as nat) % 8
    }
}

impl OptionValueType for BlockValue {
    open spec fn encoding(self) -> Seq<u8> {
        be_minimal(self.scalar())
    }

    open spec fn decodes(value: Seq<u8>) -> bool {
        value.len() <= 3 && be_value(value) / 16 <= 0xFFFF
    }

    open spec fn is_decoding_of(self, value: Seq<u8>) -> bool {
        &&& self.num == be_value(value) / 16
        &&& self.more == ((be_value(value) / 8) % 2 == 1)
        &&& self.size_exponent == be_value(value) % 8
    }

    open spec fn fault_text(value: Seq<u8>) -> Seq<char> {
        if value.len() > 3 {
            overflow_message(value.len() as usize, 3)
        } else {
            "block number out of bounds"@
        }
    }

    fn into_bytes(self) -> (bytes: Vec<u8>) {
        let scalar: u32 = (self.num as u32) * 16 + (if self.more {
            8
        } else {
            0
        }) + (self.size_exponent % 8) as u32;
        proof {
            lemma_be_width(scalar as nat, 3);
            reveal_with_fuel(pow256, 4);
        }
        option_from_uint(scalar as u64, 3)
    }

    fn try_from_bytes(value: Vec<u8>) -> (r: Result<Self, IncompatibleOptionValueFormat>) {
        proof {
            lemma_be_value_bound(value@);
            reveal_with_fuel(pow256, 4);
        }
        let scalar = match option_to_uint(value.as_slice(), 3) {
            Ok(scalar) => scalar as u32,
            Err(e) => {
                return Err(e);
            },
        };
        let num = scalar / 16;
        if num > 0xFFFF {
            return Err(
                IncompatibleOptionValueFormat { message: "block number out of bounds".to_owned() },
            );
        }
        let more = (scalar / 8) % 2 == 1;
        let size_exponent: u8 = (scalar % 8) as u8;
        Ok(Self { num: num as u16, more, size_exponent })
    }
}

/// A block value is read back from its encoding as it was, where its size
/// exponent fits its three bits.
pub proof fn lemma_block_value_round_trip(block: BlockValue)
    requires
        block.size_exponent <= 7,
    ensures
        BlockValue::decodes(block.encoding()),
        block.is_decoding_of(block.encoding()),
        block.encoding().len() <= 3,
{
    lemma_be_minimal(block.scalar());
    lemma_be_width(block.scalar(), 3);
    reveal_with_fuel(pow256, 4);
}

} // verus!
