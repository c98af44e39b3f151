use vstd::prelude::*;
use crate::errors::Error;
use crate::host_value::{spec_get, HostValue};

verus! {

/// ASCII 'b'.
pub const LOWER_B: u8 = 98;

/// ASCII 'i'.
pub const LOWER_I: u8 = 105;

/// ASCII 'n'.
pub const LOWER_N: u8 = 110;

/// ASCII 's'.
pub const LOWER_S: u8 = 115;

/// ASCII 't'.
pub const LOWER_T: u8 = 116;

/// The key of the binary-info list in the metadata response: "bins".
pub open spec fn key_bins() -> Seq<u8> {
    seq![LOWER_B, LOWER_I, LOWER_N, LOWER_S]
}

/// The key of the bit-width field of one binary-info entry: "bits".
pub open spec fn key_bits() -> Seq<u8> {
    seq![LOWER_B, LOWER_I, LOWER_T, LOWER_S]
}

fn key_bins_bytes() -> (r: Vec<u8>)
    ensures
        r@ == key_bins(),
{
    let mut k: Vec<u8> = Vec::new();
    k.push(LOWER_B);
    k.push(LOWER_I);
    k.push(LOWER_N);
    k.push(LOWER_S);
    proof {
        assert(k@ =~= key_bins());
    }
    k
}

fn key_bits_bytes() -> (r: Vec<u8>)
    ensures
        r@ == key_bits(),
{
    let mut k: Vec<u8> = Vec::new();
    k.push(LOWER_B);
    k.push(LOWER_I);
    k.push(LOWER_T);
    k.push(LOWER_S);
    proof {
        assert(k@ =~= key_bits());
    }
    k
}

/// The bit width the metadata response reports: the numeric "bits" field
/// of the first entry under "bins", if the response has that shape.
pub open spec fn spec_arch_bits(info: HostValue) -> Option<u64> {
    match info {
        HostValue::Object(fields) => match spec_get(fields@, key_bins()) {
            Some(HostValue::List(bins)) => if bins@.len() > 0 {
                match bins@[0] {
                    HostValue::Object(first) => match spec_get(first@, key_bits()) {
                        Some(HostValue::Num(bits)) => Some(bits),
                        _ => None,
                    },
                    _ => None,
                }
            } else {
                None
            },
            _ => None,
        },
        _ => None,
    }
}

/// Derive the target's pointer width, in bytes, from the architecture
/// metadata the host reported: the bit width of the first binary-info
/// entry, divided by eight. A response without that field, or with a
/// non-numeric one, has no width to offer and is rejected as malformed.
pub fn pointer_width_from_arch_info(info: &HostValue) -> (r: Result<u64, Error>)
    ensures
        (match spec_arch_bits(*info) {
            Some(bits) => r == Ok::<u64, Error>((bits / 8) as u64),
            None => r == Err::<u64, Error>(Error::Schema),
        }),
{
    let bins_key = key_bins_bytes();
    let bits_key = key_bits_bytes();
    match info.get(bins_key.as_slice()) {
        Some(HostValue::List(bins)) => {
            if bins.len() == 0 {
                return Err(Error::Schema);
            }
            match bins[0].get(bits_key.as_slice()) {
                Some(HostValue::Num(bits)) => Ok(*bits / 8),
                _ => Err(Error::Schema),
            }
        },
        _ => Err(Error::Schema),
    }
}

} // verus!
