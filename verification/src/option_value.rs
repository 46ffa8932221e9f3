//! Convenience types for option values.

use vstd::prelude::*;
use vstd::string::{StringExecFns, StringSliceAdditionalSpecFns};
use vstd::utf8::{decode_utf8, encode_utf8, valid_utf8};

use crate::error::IncompatibleOptionValueFormat;
use crate::text::{decimal_string, decimal_text};

verus! {

/// The number that a byte string spells in network order.
pub open spec fn be_value(bytes: Seq<u8>) -> nat
    decreases bytes.len(),
{
    if bytes.len() == 0 {
        0
    } else {
        be_value(bytes.drop_last()) * 256 + bytes.last() as nat
    }
}

/// The shortest byte string that spells `value` in network order: no bytes
/// for 0, and no leading zero byte for any other number.
pub open spec fn be_minimal(value: nat) -> Seq<u8>
    decreases value,
{
    if value == 0 {
        Seq::empty()
    } else {
        be_minimal(value / 256).push((value % 256) as u8)
    }
}

/// The number of bytes that `value` takes in its shortest form.
pub open spec fn be_width(value: nat) -> nat
    decreases value,
{
    if value == 0 {
        0
    } else {
        1 + be_width(value / 256)
    }
}

/// 256 to the power of `n`.
pub open spec fn pow256(n: nat) -> nat
    decreases n,
{
    if n == 0 {
        1
    } else {
        256 * pow256((n - 1) as nat)
    }
}

/// The shortest form of a number spells that number, is as long as its
/// width, and does not start with a zero byte.
pub proof fn lemma_be_minimal(value: nat)
    ensures
        be_value(be_minimal(value)) == value,
        be_minimal(value).len() == be_width(value),
        value > 0 ==> be_minimal(value)[0] != 0,
    decreases value,
{
    if value > 0 {
        let rest = be_minimal(value / 256);
        lemma_be_minimal(value / 256);
        assert(be_minimal(value).drop_last() =~= rest);
        if value / 256 > 0 {
            assert(be_minimal(value)[0] == rest[0]);
        }
    }
}

/// A number takes at most `n` bytes exactly when it is below 256 to the
/// power of `n`.
pub proof fn lemma_be_width(value: nat, n: nat)
    ensures
        be_width(value) <= n <==> value < pow256(n),
    decreases n,
{
    if n > 0 {
        lemma_be_width(value / 256, (n - 1) as nat);
    }
}

/// A byte string spells a number below 256 to the power of its length.
pub proof fn lemma_be_value_bound(bytes: Seq<u8>)
    ensures
        be_value(bytes) < pow256(bytes.len()),
    decreases bytes.len(),
{
    if bytes.len() > 0 {
        lemma_be_value_bound(bytes.drop_last());
    }
}

/// The text of the error for a value of `got` bytes where at most `expected`
/// fit.
pub open spec fn overflow_message(got: usize, expected: usize) -> Seq<char> {
    "overflow: got "@ + decimal_text(got as nat) + " bytes, expected "@ + decimal_text(
        expected as nat,
    )
}

fn overflow_message_string(got: usize, expected: usize) -> (s: String)
    ensures
        s@ == overflow_message(got, expected),
{
    let mut s = "overflow: got ".to_owned();
    s.append(decimal_string(got as u128).as_str());
    s.append(" bytes, expected ");
    s.append(decimal_string(expected as u128).as_str());
    s
}

/// Encodes an unsigned option value in the fewest bytes, in network order.
/// A value of 256 or more has to fit `value_size` bytes.
pub fn option_from_uint(value_as_u64: u64, value_size: usize) -> (output: Vec<u8>)
    requires
        value_as_u64 >= 256 ==> be_width(value_as_u64 as nat) <= value_size,
    ensures
        output@ == be_minimal(value_as_u64 as nat),
{
    // Optimize common paths
    if value_as_u64 == 0 {
        Vec::new()
    } else if value_as_u64 < 256 {
        let mut output: Vec<u8> = Vec::new();
        output.push(value_as_u64 as u8);
        proof {
            reveal_with_fuel(be_minimal, 2);
            assert(output@ =~= be_minimal(value_as_u64 as nat));
        }
        output
    } else {
        let mut draining_value = value_as_u64;
        let mut output: Vec<u8> = Vec::with_capacity(value_size);
        while draining_value > 0
            invariant
                be_minimal(value_as_u64 as nat) == be_minimal(draining_value as nat)
                    + output@.reverse(),
            decreases draining_value,
        {
            let next_lowest_byte = (draining_value % 256) as u8;
            proof {
                let rest = be_minimal((draining_value / 256) as nat);
                assert(be_minimal(draining_value as nat) == rest.push(next_lowest_byte));
                assert(rest.push(next_lowest_byte) + output@.reverse() =~= rest
                    + output@.push(next_lowest_byte).reverse());
            }
            output.push(next_lowest_byte);
            draining_value = draining_value / 256;
        }
        // Output is in little endian, flip it to big endian (network order) as
        // required
        let flipped = reversed(&output);
        assert(flipped@ =~= be_minimal(value_as_u64 as nat));
        flipped
    }
}

/// The bytes of `bytes` in the opposite order.
fn reversed(bytes: &Vec<u8>) -> (output: Vec<u8>)
    ensures
        output@ == bytes@.reverse(),
{
    let mut output: Vec<u8> = Vec::new();
    let mut i: usize = bytes.len();
    while i > 0
        invariant
            i <= bytes@.len(),
            output@.len() == bytes@.len() - i,
            forall|k: int| 0 <= k < output@.len() ==> output@[k] == bytes@[bytes@.len() - 1 - k],
        decreases i,
    {
        i = i - 1;
        output.push(bytes[i]);
    }
    assert(output@ =~= bytes@.reverse());
    output
}

/// Decodes an unsigned option value of at most `value_size` bytes in network
/// order, at any length up to that. Of a number too large for 64 bits the
/// low 64 bits are returned.
pub fn option_to_uint(encoded: &[u8], value_size: usize) -> (r: Result<
    u64,
    IncompatibleOptionValueFormat,
>)
    ensures
        r is Err <==> encoded@.len() > value_size,
        r matches Ok(value) ==> value == be_value(encoded@) % 0x1_0000_0000_0000_0000,
        r matches Err(e) ==> e.message@ == overflow_message(encoded@.len() as usize, value_size),
{
    if encoded.len() > value_size {
        Err(
            IncompatibleOptionValueFormat {
                message: overflow_message_string(encoded.len(), value_size),
            },
        )
    } else {
        let mut acc: u64 = 0;
        let mut i: usize = 0;
        while i < encoded.len()
            invariant
                i <= encoded@.len(),
                acc == be_value(encoded@.subrange(0, i as int)) % 0x1_0000_0000_0000_0000,
            decreases encoded@.len() - i,
        {
            let b = encoded[i];
            proof {
                let before = encoded@.subrange(0, i as int);
                let after = encoded@.subrange(0, i + 1);
                assert(after.drop_last() =~= before);
                assert(after.last() == b);
                let v = be_value(before);
                assert((v * 256 + b as nat) % 0x1_0000_0000_0000_0000 == ((v
                    % 0x1_0000_0000_0000_0000) % 0x100_0000_0000_0000) * 256 + b as nat)
                    by (nonlinear_arith)
                    requires
                        b < 256,
                ;
            }
            acc = (acc % 0x100_0000_0000_0000) * 256 + b as u64;
            i = i + 1;
        }
        assert(encoded@.subrange(0, i as int) =~= encoded@);
        Ok(acc)
    }
}

/// A type that can be used as an option value: it is written as a byte
/// string, and read back from one where the byte string fits it.
pub trait OptionValueType: Sized {
    /// The byte string that the value is written as.
    spec fn encoding(self) -> Seq<u8>;

    /// Whether a byte string can be read as a value of this type.
    spec fn decodes(value: Seq<u8>) -> bool;

    /// Whether this is the value that the byte string is read as.
    spec fn is_decoding_of(self, value: Seq<u8>) -> bool;

    /// The description of what keeps a byte string from being read as a
    /// value of this type.
    spec fn fault_text(value: Seq<u8>) -> Seq<char>;

    /// Writes the value as a byte string.
    fn into_bytes(self) -> (bytes: Vec<u8>)
        ensures
            bytes@ == self.encoding(),
    ;

    /// Reads a byte string as a value of this type.
    fn try_from_bytes(value: Vec<u8>) -> (r: Result<Self, IncompatibleOptionValueFormat>)
        ensures
            r is Ok <==> Self::decodes(value@),
            r matches Ok(v) ==> v.is_decoding_of(value@),
            r matches Err(e) ==> e.message@ == Self::fault_text(value@),
    ;
}

/// An option value of at most one byte.
#[derive(Debug, Clone, Copy, PartialEq, Eq, Structural)]
pub struct OptionValueU8(pub u8);

/// An option value of at most two bytes.
#[derive(Debug, Clone, Copy, PartialEq, Eq, Structural)]
pub struct OptionValueU16(pub u16);

/// An option value of at most four bytes.
#[derive(Debug, Clone, Copy, PartialEq, Eq, Structural)]
pub struct OptionValueU32(pub u32);

/// An option value of at most eight bytes.
#[derive(Debug, Clone, Copy, PartialEq, Eq, Structural)]
pub struct OptionValueU64(pub u64);

impl OptionValueType for OptionValueU8 {
    open spec fn encoding(self) -> Seq<u8> {
        be_minimal(self.0 as nat)
    }

    open spec fn decodes(value: Seq<u8>) -> bool {
        value.len() <= 1
    }

    open spec fn is_decoding_of(self, value: Seq<u8>) -> bool {
        self.0 == be_value(value)
    }

    open spec fn fault_text(value: Seq<u8>) -> Seq<char> {
        overflow_message(value.len() as usize, 1)
    }

    fn into_bytes(self) -> (bytes: Vec<u8>) {
        option_from_uint(self.0 as u64, 1)
    }

    fn try_from_bytes(value: Vec<u8>) -> (r: Result<Self, IncompatibleOptionValueFormat>) {
        proof {
            lemma_be_value_bound(value@);
            reveal_with_fuel(pow256, 2);
        }
        match option_to_uint(value.as_slice(), 1) {
            Ok(value_as_u64) => Ok(OptionValueU8(value_as_u64 as u8)),
            Err(e) => Err(e),
        }
    }
}

impl OptionValueType for OptionValueU16 {
    open spec fn encoding(self) -> Seq<u8> {
        be_minimal(self.0 as nat)
    }

    open spec fn decodes(value: Seq<u8>) -> bool {
        value.len() <= 2
    }

    open spec fn is_decoding_of(self, value: Seq<u8>) -> bool {
        self.0 == be_value(value)
    }

    open spec fn fault_text(value: Seq<u8>) -> Seq<char> {
        overflow_message(value.len() as usize, 2)
    }

    fn into_bytes(self) -> (bytes: Vec<u8>) {
        proof {
            lemma_be_width(self.0 as nat, 2);
            reveal_with_fuel(pow256, 3);
        }
        option_from_uint(self.0 as u64, 2)
    }

    fn try_from_bytes(value: Vec<u8>) -> (r: Result<Self, IncompatibleOptionValueFormat>) {
        proof {
            lemma_be_value_bound(value@);
            reveal_with_fuel(pow256, 3);
        }
        match option_to_uint(value.as_slice(), 2) {
            Ok(value_as_u64) => Ok(OptionValueU16(value_as_u64 as u16)),
            Err(e) => Err(e),
        }
    }
}

impl OptionValueType for OptionValueU32 {
    open spec fn encoding(self) -> Seq<u8> {
        be_minimal(self.0 as nat)
    }

    open spec fn decodes(value: Seq<u8>) -> bool {
        value.len() <= 4
    }

    open spec fn is_decoding_of(self, value: Seq<u8>) -> bool {
        self.0 == be_value(value)
    }

    open spec fn fault_text(value: Seq<u8>) -> Seq<char> {
        overflow_message(value.len() as usize, 4)
    }

    fn into_bytes(self) -> (bytes: Vec<u8>) {
        proof {
            lemma_be_width(self.0 as nat, 4);
            reveal_with_fuel(pow256, 5);
        }
        option_from_uint(self.0 as u64, 4)
    }

    fn try_from_bytes(value: Vec<u8>) -> (r: Result<Self, IncompatibleOptionValueFormat>) {
        proof {
            lemma_be_value_bound(value@);
            reveal_with_fuel(pow256, 5);
        }
        match option_to_uint(value.as_slice(), 4) {
            Ok(value_as_u64) => Ok(OptionValueU32(value_as_u64 as u32)),
            Err(e) => Err(e),
        }
    }
}

impl OptionValueType for OptionValueU64 {
    open spec fn encoding(self) -> Seq<u8> {
        be_minimal(self.0 as nat)
    }

    open spec fn decodes(value: Seq<u8>) -> bool {
        value.len() <= 8
    }

    open spec fn is_decoding_of(self, value: Seq<u8>) -> bool {
        self.0 == be_value(value)
    }

    open spec fn fault_text(value: Seq<u8>) -> Seq<char> {
        overflow_message(value.len() as usize, 8)
    }

    fn into_bytes(self) -> (bytes: Vec<u8>) {
        proof {
            lemma_be_width(self.0 as nat, 8);
            reveal_with_fuel(pow256, 9);
        }
        option_from_uint(self.0, 8)
    }

    fn try_from_bytes(value: Vec<u8>) -> (r: Result<Self, IncompatibleOptionValueFormat>) {
        proof {
            lemma_be_value_bound(value@);
            reveal_with_fuel(pow256, 9);
        }
        match option_to_uint(value.as_slice(), 8) {
            Ok(value_as_u64) => Ok(OptionValueU64(value_as_u64)),
            Err(e) => Err(e),
        }
    }
}

/// An option value that is a text in UTF-8.
#[derive(Debug, Clone, PartialEq)]
pub struct OptionValueString(pub String);

/// The text of the error for a byte string that is not UTF-8.
pub uninterp spec fn utf8_error_message(bytes: Seq<u8>) -> Seq<char>;

/// `String::from_utf8`: the text that the bytes spell where they are valid
/// UTF-8, else the description of the fault, as its error displays it; the
/// description depends on the bytes alone.
#[verifier::external_body]
pub(crate) fn string_from_utf8(bytes: Vec<u8>) -> (r: Result<String, String>)
    ensures
        r is Ok <==> valid_utf8(bytes@),
        r matches Ok(s) ==> s@ == decode_utf8(bytes@) && encode_utf8(s@) == bytes@,
        r matches Err(message) ==> message@ == utf8_error_message(bytes@),
{
    match String::from_utf8(bytes) {
        Ok(s) => Ok(s),
        Err(e) => Err(e.to_string()),
    }
}

/// The bytes of the text in UTF-8.
pub(crate) fn string_into_bytes(s: String) -> (bytes: Vec<u8>)
    ensures
        bytes@ == encode_utf8(s@),
{
    vstd::slice::slice_to_vec(s.as_str().as_bytes())
}

impl OptionValueType for OptionValueString {
    open spec fn encoding(self) -> Seq<u8> {
        encode_utf8(self.0@)
    }

    open spec fn decodes(value: Seq<u8>) -> bool {
        valid_utf8(value)
    }

    open spec fn is_decoding_of(self, value: Seq<u8>) -> bool {
        self.0@ == decode_utf8(value) && encode_utf8(self.0@) == value
    }

    open spec fn fault_text(value: Seq<u8>) -> Seq<char> {
        utf8_error_message(value)
    }

    fn into_bytes(self) -> (bytes: Vec<u8>) {
        string_into_bytes(self.0)
    }

    fn try_from_bytes(value: Vec<u8>) -> (r: Result<Self, IncompatibleOptionValueFormat>) {
        match string_from_utf8(value) {
            Ok(s) => Ok(OptionValueString(s)),
            Err(message) => Err(IncompatibleOptionValueFormat { message }),
        }
    }
}

} // verus!
