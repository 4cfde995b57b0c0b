//! Vectors of 32-bit floating-point numbers, held as their bit patterns, and
//! their stored form.

use crate::error;
use crate::error::Error;
use crate::text;
use crate::text::decimal_u64;
use vstd::prelude::*;
use vstd::string::*;

verus! {

/// The longest vector that is accepted.
pub const MAX_DIMENSIONS: usize = 65_536;

/// The bit patterns of finite numbers: those whose exponent is not all ones.
pub open spec fn finite(bits: u32) -> bool {
    (bits / 0x80_0000) % 256 != 255
}

/// Holds when every number of a vector is finite.
pub open spec fn all_finite(v: Seq<u32>) -> bool {
    forall|i: int| 0 <= i < v.len() ==> finite(#[trigger] v[i])
}

/// Tells whether every number of a vector is finite.
pub fn is_all_finite(v: &Vec<u32>) -> (r: bool)
    ensures
        r == all_finite(v@),
{
    let mut i: usize = 0;
    while i < v.len()
        invariant
            i <= v@.len(),
            forall|k: int| 0 <= k < i ==> finite(#[trigger] v@[k]),
        decreases v@.len() - i,
    {
        if (v[i] / 0x80_0000) % 256 == 255 {
            assert(!finite(v@[i as int]));
            return false;
        }
        i = i + 1;
    }
    true
}

/// Why a vector is refused before its magnitude is looked at.
pub open spec fn vector_refusal(v: Seq<u32>, name: Seq<char>) -> Option<Seq<char>> {
    if v.len() == 0 {
        Some(name + " cannot be empty"@)
    } else if v.len() > MAX_DIMENSIONS {
        Some(name + " is unreasonably large"@)
    } else if !all_finite(v) {
        Some(name + " must contain only finite values"@)
    } else {
        None
    }
}

/// Checks a vector before its magnitude is looked at.
pub fn validate_vector(v: &Vec<u32>, name: &str) -> (r: Result<(), Error>)
    ensures
        error::refusal(r) == vector_refusal(v@, name@),
{
    if v.len() == 0 {
        return Err(Error::of2(name, " cannot be empty"));
    }
    if v.len() > MAX_DIMENSIONS {
        return Err(Error::of2(name, " is unreasonably large"));
    }
    if !is_all_finite(v) {
        return Err(Error::of2(name, " must contain only finite values"));
    }
    Ok(())
}

/// A byte of a number, counted from the least significant one.
pub open spec fn byte_of(bits: u32, k: int) -> u8 {
    if k == 0 {
        (bits % 256) as u8
    } else if k == 1 {
        (bits / 0x100 % 256) as u8
    } else if k == 2 {
        (bits / 0x1_0000 % 256) as u8
    } else {
        (bits / 0x100_0000) as u8
    }
}

/// The number with the given bytes, the least significant one first.
pub open spec fn word_of(a: u8, b: u8, c: u8, d: u8) -> u32 {
    (a + 0x100 * b + 0x1_0000 * c + 0x100_0000 * d) as u32
}

/// The stored form of a vector: four bytes per number, least significant first.
pub open spec fn encoded(v: Seq<u32>) -> Seq<u8> {
    Seq::new(4 * v.len(), |i: int| byte_of(v[i / 4], i % 4))
}

/// The vector with a stored form.
pub open spec fn decoded(bytes: Seq<u8>) -> Seq<u32> {
    Seq::new(
        bytes.len() / 4,
        |i: int| word_of(bytes[4 * i], bytes[4 * i + 1], bytes[4 * i + 2], bytes[4 * i + 3]),
    )
}

/// The stored form of a vector.
pub fn encode_vector(v: &Vec<u32>) -> (r: Vec<u8>)
    ensures
        r@ == encoded(v@),
{
    let mut out: Vec<u8> = Vec::new();
    let mut i: usize = 0;
    while i < v.len()
        invariant
            i <= v@.len(),
            out@.len() == 4 * i,
            forall|k: int| 0 <= k < 4 * i ==> #[trigger] out@[k] == byte_of(v@[k / 4], k % 4),
        decreases v@.len() - i,
    {
        let bits: u32 = v[i];
        out.push((bits % 256) as u8);
        out.push((bits / 0x100 % 256) as u8);
        out.push((bits / 0x1_0000 % 256) as u8);
        out.push((bits / 0x100_0000) as u8);
        i = i + 1;
    }
    assert(out@ =~= encoded(v@));
    out
}

/// Why stored bytes are refused as a vector of `dimensions` numbers.
pub open spec fn decode_refusal(bytes: Seq<u8>, dimensions: int, id: Seq<char>) -> Option<
    Seq<char>,
> {
    if 4 * dimensions > usize::MAX {
        Some("embedding dimensions overflow for "@ + id)
    } else if bytes.len() != 4 * dimensions {
        Some(
            "invalid embedding byte length for "@ + id + ": expected "@ + text::decimal(
                4 * dimensions,
            ) + ", got "@ + text::decimal(bytes.len() as int),
        )
    } else if !all_finite(decoded(bytes)) {
        Some("stored embedding contains non-finite values for "@ + id)
    } else {
        None
    }
}

/// Reads the stored form of a vector of `dimensions` numbers.
pub fn decode_vector(bytes: &Vec<u8>, dimensions: usize, memory_id: &str) -> (r: Result<
    Vec<u32>,
    Error,
>)
    ensures
        error::outcome(r) == (match decode_refusal(bytes@, dimensions as int, memory_id@) {
            Some(message) => Err::<Seq<u32>, Seq<char>>(message),
            None => Ok(decoded(bytes@)),
        }),
{
    if dimensions > usize::MAX / 4 {
        return Err(Error::of2("embedding dimensions overflow for ", memory_id));
    }
    let expected: usize = dimensions * 4;
    if bytes.len() != expected {
        let wanted: String = decimal_u64(expected as u64);
        let given: String = decimal_u64(bytes.len() as u64);
        return Err(
            Error::of6(
                "invalid embedding byte length for ",
                memory_id,
                ": expected ",
                wanted.as_str(),
                ", got ",
                given.as_str(),
            ),
        );
    }
    let mut out: Vec<u32> = Vec::new();
    let mut i: usize = 0;
    while i < dimensions
        invariant
            i <= dimensions,
            bytes@.len() == 4 * dimensions,
            4 * dimensions <= usize::MAX,
            out@.len() == i,
            forall|k: int| 0 <= k < i ==> #[trigger] out@[k] == decoded(bytes@)[k],
        decreases dimensions - i,
    {
        let at: usize = 4 * i;
        let word: u32 = bytes[at] as u32 + 0x100 * bytes[at + 1] as u32 + 0x1_0000 * bytes[at
            + 2] as u32 + 0x100_0000 * bytes[at + 3] as u32;
        out.push(word);
        i = i + 1;
    }
    assert(out@ =~= decoded(bytes@));
    if !is_all_finite(&out) {
        return Err(Error::of2("stored embedding contains non-finite values for ", memory_id));
    }
    Ok(out)
}

/// The bytes of a number give back the number.
proof fn lemma_word_of_bytes(bits: u32)
    ensures
        word_of(byte_of(bits, 0), byte_of(bits, 1), byte_of(bits, 2), byte_of(bits, 3)) == bits,
{
    let a = bits % 256;
    let b = bits / 0x100 % 256;
    let c = bits / 0x1_0000 % 256;
    let d = bits / 0x100_0000;
    assert(bits == a + 0x100 * b + 0x1_0000 * c + 0x100_0000 * d && a < 256 && b < 256 && c < 256
        && d < 256) by (bit_vector)
        requires
            a == bits % 256,
            b == bits / 0x100 % 256,
            c == bits / 0x1_0000 % 256,
            d == bits / 0x100_0000,
    ;
}

/// A vector of finite numbers reads back from its stored form unchanged.
pub proof fn law_stored_vector_reads_back(v: Seq<u32>, id: Seq<char>)
    requires
        4 * v.len() <= usize::MAX,
        all_finite(v),
    ensures
        decoded(encoded(v)) == v,
        decode_refusal(encoded(v), v.len() as int, id) is None,
{
    assert forall|i: int| 0 <= i < v.len() implies decoded(encoded(v))[i] == #[trigger] v[i] by {
        lemma_word_of_bytes(v[i]);
    }
    assert(decoded(encoded(v)) =~= v);
}

} // verus!
