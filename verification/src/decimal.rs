//! Unsigned decimal numbers as text: an optional plus sign, then digits.

use vstd::prelude::*;
use vstd::string::is_ascii_spec_bytes;

verus! {

/// Whether `c` is one of the ten decimal digits.
pub open spec fn is_digit(c: char) -> bool {
    '0' <= c <= '9'
}

/// The value of the digit `c`.
pub open spec fn digit_value(c: char) -> nat {
    if is_digit(c) {
        (c as nat - '0' as nat) as nat
    } else {
        0
    }
}

/// The number that a sequence of digits denotes, the empty sequence
/// denoting zero.
pub open spec fn digits_value(s: Seq<char>) -> nat
    decreases s.len(),
{
    if s.len() == 0 {
        0
    } else {
        10 * digits_value(s.drop_last()) + digit_value(s.last())
    }
}

/// `s` without its plus sign, if it starts with one.
pub open spec fn unsigned_part(s: Seq<char>) -> Seq<char> {
    if s.len() > 0 && s[0] == '+' {
        s.subrange(1, s.len() as int)
    } else {
        s
    }
}

/// Whether `s` is written as a number: an optional plus sign, then one or
/// more decimal digits, and nothing else.
pub open spec fn is_number(s: Seq<char>) -> bool {
    let digits = unsigned_part(s);
    &&& digits.len() > 0
    &&& forall|i: int| 0 <= i < digits.len() ==> is_digit(#[trigger] digits[i])
}

/// The number that `s` is written as.
pub open spec fn number_value(s: Seq<char>) -> nat {
    digits_value(unsigned_part(s))
}

/// The number that `s` is written as, where it is one and does not exceed
/// `max`.
pub open spec fn number(s: Seq<char>, max: nat) -> Option<nat> {
    if is_number(s) && number_value(s) <= max {
        Some(number_value(s))
    } else {
        None
    }
}

/// The digits read so far never denote more than all the digits do.
pub proof fn lemma_digits_value_grows(s: Seq<char>, k: int)
    requires
        0 <= k <= s.len(),
    ensures
        digits_value(s.take(k)) <= digits_value(s),
    decreases s.len(),
{
    if k == s.len() {
        assert(s.take(k) =~= s);
    } else {
        lemma_digits_value_grows(s.drop_last(), k);
        assert(s.drop_last().take(k) =~= s.take(k));
    }
}

/// Reads `text` as a decimal number no greater than `max`.
pub fn parse_number(text: &str, max: u64) -> (r: Option<u64>)
    ensures
        r == match number(text@, max as nat) {
            Some(v) => Some(v as u64),
            None => None,
        },
{
    if !text.is_ascii() {
        proof {
            let i = choose|i: int| 0 <= i < text@.len() && !('\0' <= #[trigger] text@[i] <= '\u{7f}');
            let digits = unsigned_part(text@);
            if text@[0] == '+' {
                assert(!is_digit(digits[i - 1]));
            } else {
                assert(!is_digit(digits[i]));
            }
        }
        return None;
    }
    let bytes = text.as_bytes();
    proof {
        is_ascii_spec_bytes(text);
    }
    let n: usize = bytes.len();
    let first: usize = if n > 0 && bytes[0] == 43u8 {
        1
    } else {
        0
    };
    if first == n {
        return None;
    }
    let ghost digits = unsigned_part(text@);
    let mut acc: u64 = 0;
    let mut i: usize = first;
    while i < n
        invariant
            first <= i <= n,
            n == text@.len(),
            n == bytes@.len(),
            first == 0 || first == 1,
            digits == unsigned_part(text@),
            digits.len() == n - first,
            forall|j: int| 0 <= j < n - first ==> digits[j] == text@[j + first],
            forall|j: int| 0 <= j < n ==> '\0' <= #[trigger] text@[j] <= '\u{7f}',
            forall|j: int| 0 <= j < n ==> bytes@[j] == text@[j] as u8,
            forall|j: int| 0 <= j < i - first ==> is_digit(#[trigger] digits[j]),
            acc == digits_value(digits.take(i - first)),
            acc <= max,
        decreases n - i,
    {
        let b: u8 = bytes[i];
        let ghost c = text@[i as int];
        assert(c == digits[i - first]);
        if b < 48u8 || b > 57u8 {
            assert(!is_digit(digits[i - first]));
            return None;
        }
        let d: u64 = (b - 48u8) as u64;
        proof {
            let longer = digits.take(i - first + 1);
            assert(longer.drop_last() =~= digits.take(i - first));
            assert(longer.last() == c);
            assert(digits_value(longer) == 10 * acc + d);
            lemma_digits_value_grows(digits, i - first + 1);
        }
        if acc > max / 10 {
            return None;
        }
        let tens: u64 = acc * 10;
        if d > max - tens {
            return None;
        }
        acc = tens + d;
        i = i + 1;
    }
    proof {
        assert(digits.take(n - first) =~= digits);
    }
    Some(acc)
}

} // verus!
