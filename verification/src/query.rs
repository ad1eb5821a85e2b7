//! What goes into a request to the remote service: the window of a list
//! request, the flag of a follow request, and the user identifier that is
//! read from a line of input.

use vstd::prelude::*;
use vstd::string::StringSliceAdditionalSpecFns;

verus! {

/// How many entries a list request asks for unless told otherwise.
pub const DEFAULT_LIMIT: i32 = 30;

/// Where a list request starts unless told otherwise.
pub const DEFAULT_OFFSET: i32 = 0;

/// The byte of a minus sign.
pub const MINUS: u8 = 0x2d;

/// The byte of a plus sign.
pub const PLUS: u8 = 0x2b;

/// The byte of the digit zero.
pub const ZERO: u8 = 0x30;

/// The byte of the digit nine.
pub const NINE: u8 = 0x39;

/// The limit and the offset of a list request: what was asked for, or
/// the defaults.
pub fn list_window(limit: Option<i32>, offset: Option<i32>) -> (window: (i32, i32))
    ensures
        window.0 == (match limit {
            Some(limit) => limit,
            None => DEFAULT_LIMIT,
        }),
        window.1 == (match offset {
            Some(offset) => offset,
            None => DEFAULT_OFFSET,
        }),
{
    let limit = match limit {
        Some(limit) => limit,
        None => DEFAULT_LIMIT,
    };
    let offset = match offset {
        Some(offset) => offset,
        None => DEFAULT_OFFSET,
    };
    (limit, offset)
}

/// The flag of a follow request: `1` to follow, `0` to stop following.
pub fn follow_flag(follow: bool) -> (flag: &'static str)
    ensures
        flag@ == (if follow {
            "1"@
        } else {
            "0"@
        }),
{
    if follow {
        "1"
    } else {
        "0"
    }
}

/// Whether `byte` is a decimal digit.
pub open spec fn is_digit(byte: u8) -> bool {
    ZERO <= byte <= NINE
}

/// Whether `digits` holds decimal digits only.
pub open spec fn all_digits(digits: Seq<u8>) -> bool {
    forall|i: int| 0 <= i < digits.len() ==> is_digit(#[trigger] digits[i])
}

/// The number that the decimal digits `digits` write.
pub open spec fn digits_value(digits: Seq<u8>) -> int
    decreases digits.len(),
{
    if digits.len() == 0 {
        0
    } else {
        10 * digits_value(digits.drop_last()) + (digits.last() - ZERO)
    }
}

/// The number that `text` writes in decimal: an optional sign followed by
/// at least one digit and nothing else.
pub open spec fn signed_decimal(text: Seq<u8>) -> Option<int> {
    let negative = text.len() > 0 && text[0] == MINUS;
    let signed = text.len() > 0 && (text[0] == MINUS || text[0] == PLUS);
    let digits = if signed {
        text.drop_first()
    } else {
        text
    };
    if digits.len() == 0 || !all_digits(digits) {
        None
    } else if negative {
        Some(-digits_value(digits))
    } else {
        Some(digits_value(digits))
    }
}

/// The user identifier that `text` writes, if it writes a number that
/// fits.
pub open spec fn uid_of(text: Seq<u8>) -> Option<i64> {
    match signed_decimal(text) {
        Some(value) => if i64::MIN <= value <= i64::MAX {
            Some(value as i64)
        } else {
            None
        },
        None => None,
    }
}

/// The digits written so far never write more than all of them.
pub proof fn lemma_digits_grow(digits: Seq<u8>, k: int)
    requires
        all_digits(digits),
        0 <= k <= digits.len(),
    ensures
        0 <= digits_value(digits.take(k)) <= digits_value(digits),
    decreases digits.len() - k,
{
    if k == digits.len() {
        assert(digits.take(k) =~= digits);
        lemma_digits_nonnegative(digits);
    } else {
        lemma_digits_grow(digits, k + 1);
        assert(digits.take(k + 1).drop_last() =~= digits.take(k));
        assert(is_digit(digits[k]));
        assert(digits.take(k + 1).last() == digits[k]);
        assert(all_digits(digits.take(k))) by {
            assert forall|i: int| 0 <= i < k implies is_digit(#[trigger] digits.take(k)[i]) by {
                assert(is_digit(digits[i]));
            }
        }
        lemma_digits_nonnegative(digits.take(k));
    }
}

/// Digits write no negative number.
pub proof fn lemma_digits_nonnegative(digits: Seq<u8>)
    requires
        all_digits(digits),
    ensures
        0 <= digits_value(digits),
    decreases digits.len(),
{
    if digits.len() > 0 {
        assert forall|i: int| 0 <= i < digits.len() - 1 implies is_digit(
            #[trigger] digits.drop_last()[i],
        ) by {
            assert(is_digit(digits[i]));
        }
        lemma_digits_nonnegative(digits.drop_last());
        assert(is_digit(digits[digits.len() - 1]));
    }
}

/// Reads a user identifier: an optional sign and decimal digits that
/// write a number between the least and the largest `i64`. Anything else,
/// surrounding blanks included, is refused.
pub fn parse_uid(text: &str) -> (uid: Option<i64>)
    ensures
        uid == uid_of(text.spec_bytes()),
{
    let bytes = text.as_bytes();
    let n = bytes.len();
    if n == 0 {
        return None;
    }
    let negative = bytes[0] == MINUS;
    let signed = negative || bytes[0] == PLUS;
    let start: usize = if signed {
        1
    } else {
        0
    };
    if start == n {
        return None;
    }
    let ghost digits = bytes@.subrange(start as int, n as int);
    proof {
        if signed {
            assert(digits =~= bytes@.drop_first());
        } else {
            assert(digits =~= bytes@);
        }
    }
    let limit: i128 = 0x8000_0000_0000_0000;
    let mut value: i128 = 0;
    let mut i: usize = start;
    while i < n
        invariant
            start <= i <= n,
            start < n,
            n == bytes@.len(),
            bytes@ == text.spec_bytes(),
            negative == (bytes@[0] == MINUS),
            signed == (bytes@[0] == MINUS || bytes@[0] == PLUS),
            digits == bytes@.subrange(start as int, n as int),
            digits == if signed {
                bytes@.drop_first()
            } else {
                bytes@
            },
            all_digits(digits.take(i - start)),
            value == digits_value(digits.take(i - start)),
            0 <= value <= limit,
            limit == 0x8000_0000_0000_0000,
        decreases n - i,
    {
        let byte = bytes[i];
        if byte < ZERO || byte > NINE {
            assert(!is_digit(digits[i - start]));
            return None;
        }
        proof {
            let seen = digits.take(i - start + 1);
            assert(seen.drop_last() =~= digits.take(i - start));
            assert(seen.last() == byte);
            assert forall|j: int| 0 <= j < seen.len() implies is_digit(#[trigger] seen[j]) by {
                if j < i - start {
                    assert(is_digit(digits.take(i - start)[j]));
                }
            }
        }
        value = value * 10 + (byte - ZERO) as i128;
        if value > limit {
            proof {
                if all_digits(digits) {
                    lemma_digits_grow(digits, i - start + 1);
                }
            }
            return None;
        }
        i = i + 1;
    }
    assert(digits.take(n - start) =~= digits);
    if negative {
        Some((-value) as i64)
    } else if value < limit {
        Some(value as i64)
    } else {
        None
    }
}

} // verus!
