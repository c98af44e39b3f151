use vstd::prelude::*;
use crate::errors::Error;

verus! {

/// ASCII '0'.
pub const DIGIT_ZERO: u8 = 48;

/// ASCII '9'.
pub const DIGIT_NINE: u8 = 57;

/// ASCII '+'.
pub const PLUS_SIGN: u8 = 43;

/// The byte is an ASCII decimal digit.
pub open spec fn is_digit(c: u8) -> bool {
    DIGIT_ZERO <= c <= DIGIT_NINE
}

/// Every byte of the sequence is an ASCII decimal digit.
pub open spec fn all_digits(s: Seq<u8>) -> bool {
    forall|i: int| 0 <= i < s.len() ==> is_digit(#[trigger] s[i])
}

/// Numeric value of a run of decimal digits, most significant first.
pub open spec fn dec_value(s: Seq<u8>) -> int
    decreases s.len(),
{
    if s.len() == 0 {
        0
    } else {
        dec_value(s.drop_last()) * 10 + (s.last() - DIGIT_ZERO)
    }
}

/// The digit run of an index argument: everything after an optional
/// leading plus sign.
pub open spec fn digits_of(s: Seq<u8>) -> Seq<u8> {
    if s.len() > 0 && s[0] == PLUS_SIGN {
        s.skip(1)
    } else {
        s
    }
}

/// The argument is a well-formed frame index: an optional plus sign, then
/// at least one digit and nothing else, naming a value a 64-bit word holds.
pub open spec fn valid_index(s: Seq<u8>) -> bool {
    &&& digits_of(s).len() > 0
    &&& all_digits(digits_of(s))
    &&& dec_value(digits_of(s)) <= u64::MAX
}

/// A run of digits never has a negative value.
pub proof fn lemma_dec_value_nonneg(s: Seq<u8>)
    requires
        all_digits(s),
    ensures
        dec_value(s) >= 0,
    decreases s.len(),
{
    if s.len() > 0 {
        assert(all_digits(s.drop_last())) by {
            assert(forall|i: int| 0 <= i < s.len() - 1 ==> s.drop_last()[i] == #[trigger] s[i]);
        }
        lemma_dec_value_nonneg(s.drop_last());
        assert(is_digit(s.last()));
    }
}

/// Extending a digit run to the right never shrinks its value.
pub proof fn lemma_dec_value_prefix(s: Seq<u8>, k: int)
    requires
        0 <= k <= s.len(),
    ensures
        all_digits(s) ==> dec_value(s.take(k)) <= dec_value(s),
    decreases s.len(),
{
    if all_digits(s) {
        if k < s.len() {
            assert(all_digits(s.drop_last())) by {
                assert(forall|i: int| 0 <= i < s.len() - 1 ==> s.drop_last()[i] == #[trigger] s[
                    i
                ]);
            }
            assert(s.drop_last().take(k) =~= s.take(k));
            lemma_dec_value_prefix(s.drop_last(), k);
            lemma_dec_value_nonneg(s.drop_last());
            assert(is_digit(s.last()));
            assert(dec_value(s.drop_last()) * 10 >= dec_value(s.drop_last()));
        } else {
            assert(s.take(k) =~= s);
        }
    }
}

/// Parse a frame index argument as the command line hands it over: an
/// optional leading plus sign, then decimal digits. Anything else, or a
/// value beyond a 64-bit word, is rejected as invalid input — without any
/// question put to the host.
pub fn parse_frame_index(arg: &[u8]) -> (r: Result<u64, Error>)
    ensures
        valid_index(arg@) ==> r == Ok::<u64, Error>(dec_value(digits_of(arg@)) as u64),
        !valid_index(arg@) ==> r == Err::<u64, Error>(Error::InvalidIndex),
{
    let n = arg.len();
    let start: usize = if n > 0 && arg[0] == PLUS_SIGN {
        1
    } else {
        0
    };
    proof {
        assert(digits_of(arg@) =~= arg@.subrange(start as int, n as int));
    }
    if start >= n {
        return Err(Error::InvalidIndex);
    }
    let mut val: u64 = 0;
    let mut i: usize = start;
    while i < n
        invariant
            start <= i <= n,
            n == arg@.len(),
            digits_of(arg@) =~= arg@.subrange(start as int, n as int),
            all_digits(arg@.subrange(start as int, i as int)),
            val == dec_value(arg@.subrange(start as int, i as int)),
        decreases n - i,
    {
        let ghost prefix = arg@.subrange(start as int, i as int);
        let ghost grown = arg@.subrange(start as int, i as int + 1);
        proof {
            assert(grown.drop_last() =~= prefix);
            assert(grown.last() == arg@[i as int]);
        }
        let c = arg[i];
        if c < DIGIT_ZERO || c > DIGIT_NINE {
            proof {
                assert(!is_digit(digits_of(arg@)[i - start]));
            }
            return Err(Error::InvalidIndex);
        }
        let d = (c - DIGIT_ZERO) as u64;
        if val > (u64::MAX - d) / 10 {
            proof {
                vstd::arithmetic::div_mod::lemma_fundamental_div_mod(
                    (u64::MAX - d) as int,
                    10,
                );
                assert(dec_value(grown) > u64::MAX);
                assert(all_digits(grown)) by {
                    assert(forall|j: int| 0 <= j < grown.len() - 1 ==> grown[j] == #[trigger] prefix[j]);
                }
                assert(grown =~= digits_of(arg@).take(i - start + 1));
                lemma_dec_value_prefix(digits_of(arg@), i - start + 1);
            }
            return Err(Error::InvalidIndex);
        }
        val = val * 10 + d;
        i = i + 1;
        proof {
            assert(all_digits(grown)) by {
                assert(forall|j: int| 0 <= j < grown.len() - 1 ==> grown[j] == #[trigger] prefix[j]);
            }
        }
    }
    proof {
        assert(arg@.subrange(start as int, n as int) =~= digits_of(arg@));
    }
    Ok(val)
}

} // verus!
