use vstd::prelude::*;
use crate::codec::{decode_le, le_decode, lemma_le_decode_bound, lemma_pow256_nondecreasing,
    lemma_pow256_values, pow256};
use crate::errors::Error;
use crate::host_value::HostValue;

verus! {

/// Every item of the sequence is an unsigned integer no larger than a
/// byte, the shape a raw memory read comes back in.
pub open spec fn all_byte_nums(items: Seq<HostValue>) -> bool {
    forall|i: int| 0 <= i < items.len() ==> (#[trigger] items[i] matches HostValue::Num(n) && n
        <= 255)
}

/// The byte an item carries; meaningful under `all_byte_nums`.
pub open spec fn byte_at(items: Seq<HostValue>, i: int) -> u8 {
    match items[i] {
        HostValue::Num(n) => n as u8,
        _ => 0,
    }
}

/// The bytes of a memory-read response, in memory order: the first item is
/// the byte at the lowest address.
pub open spec fn bytes_of(items: Seq<HostValue>) -> Seq<u8> {
    Seq::new(items.len(), |i: int| byte_at(items, i))
}

/// Decode a memory-read response into the unsigned integer those bytes
/// spell little-endian: the first returned byte is the least significant.
///
/// The response must be a sequence of exactly `count` byte values — the
/// count that was asked of the host. A response of any other shape or
/// length is rejected as malformed rather than decoded partway.
pub fn decode_read_response(data: &HostValue, count: u64) -> (r: Result<u64, Error>)
    requires
        count <= 8,
    ensures
        (match *data {
            HostValue::List(items) => if all_byte_nums(items@) && items@.len() == count {
                r == Ok::<u64, Error>(le_decode(bytes_of(items@)) as u64)
            } else {
                r == Err::<u64, Error>(Error::Schema)
            },
            _ => r == Err::<u64, Error>(Error::Schema),
        }),
{
    let items: &Vec<HostValue> = match data {
        HostValue::List(items) => items,
        _ => { return Err(Error::Schema) },
    };
    let n = items.len();
    if (n as u64) != count {
        return Err(Error::Schema);
    }
    let mut bytes: Vec<u8> = Vec::new();
    let mut i: usize = 0;
    while i < n
        invariant
            *data == HostValue::List(*items),
            count <= 8,
            n as u64 == count,
            i <= n,
            n == items@.len(),
            bytes@.len() == i,
            forall|j: int| 0 <= j < i ==> (#[trigger] items@[j] matches HostValue::Num(m) && m
                <= 255),
            forall|j: int| 0 <= j < i ==> bytes@[j] == byte_at(items@, j),
        decreases n - i,
    {
        match &items[i] {
            HostValue::Num(v) => {
                if *v > 255 {
                    proof {
                        if all_byte_nums(items@) {
                            assert(items@[i as int] matches HostValue::Num(m) && m <= 255);
                        }
                    }
                    return Err(Error::Schema);
                }
                bytes.push(*v as u8);
            },
            _ => {
                proof {
                    if all_byte_nums(items@) {
                        assert(items@[i as int] matches HostValue::Num(m) && m <= 255);
                    }
                }
                return Err(Error::Schema)
            },
        }
        i = i + 1;
    }
    proof {
        assert(bytes@ =~= bytes_of(items@));
        lemma_le_decode_bound(bytes@);
        lemma_pow256_nondecreasing(bytes@.len(), 8);
        lemma_pow256_values();
        assert(le_decode(bytes@) < pow256(8));
    }
    Ok(decode_le(bytes.as_slice()))
}

} // verus!
