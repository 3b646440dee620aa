//! Decimal reading and writing of unsigned 64-bit values, used by the
//! byte-range grammar and by size options such as `8MB`.
use vstd::prelude::*;
use vstd::string::StrSliceExecFns;

verus! {

/// The digit character for a value below ten.
pub open spec fn digit_char(d: int) -> char {
    if d == 0 {
        '0'
    } else if d == 1 {
        '1'
    } else if d == 2 {
        '2'
    } else if d == 3 {
        '3'
    } else if d == 4 {
        '4'
    } else if d == 5 {
        '5'
    } else if d == 6 {
        '6'
    } else if d == 7 {
        '7'
    } else if d == 8 {
        '8'
    } else {
        '9'
    }
}

/// The canonical decimal spelling of a non-negative value: no sign, no
/// leading zero except for the value zero itself.
pub open spec fn dec_chars(n: int) -> Seq<char>
    decreases n,
{
    if n < 10 {
        seq![digit_char(n)]
    } else {
        dec_chars(n / 10).push(digit_char(n % 10))
    }
}

/// Whether `c` is a decimal digit.
pub open spec fn is_dec_digit(c: char) -> bool {
    '0' <= c && c <= '9'
}

/// The numeric value of a digit character.
pub open spec fn digit_val(c: char) -> int {
    (c as int) - ('0' as int)
}

/// Whether `s` is a non-empty run of decimal digits.
pub open spec fn all_dec_digits(s: Seq<char>) -> bool {
    s.len() > 0 && forall|i: int| 0 <= i < s.len() ==> is_dec_digit(#[trigger] s[i])
}

/// The value of a digit string, read most significant digit first.
pub open spec fn dec_val(s: Seq<char>) -> int
    decreases s.len(),
{
    if s.len() == 0 {
        0
    } else {
        dec_val(s.drop_last()) * 10 + digit_val(s.last())
    }
}

proof fn lemma_dec_val_nonneg(s: Seq<char>)
    requires
        forall|i: int| 0 <= i < s.len() ==> is_dec_digit(#[trigger] s[i]),
    ensures
        dec_val(s) >= 0,
    decreases s.len(),
{
    if s.len() > 0 {
        lemma_dec_val_nonneg(s.drop_last());
    }
}

proof fn lemma_dec_val_prefix_le(s: Seq<char>, i: int)
    requires
        0 <= i <= s.len(),
        forall|j: int| 0 <= j < s.len() ==> is_dec_digit(#[trigger] s[j]),
    ensures
        dec_val(s.take(i)) <= dec_val(s),
    decreases s.len() - i,
{
    if i < s.len() {
        lemma_dec_val_prefix_le(s, i + 1);
        let t = s.take(i + 1);
        assert(t.drop_last() =~= s.take(i));
        assert(t.last() == s[i]);
        lemma_dec_val_nonneg(s.take(i));
        assert(dec_val(s.take(i)) <= dec_val(s.take(i)) * 10 + digit_val(s[i]));
    } else {
        assert(s.take(i) =~= s);
    }
}

fn digit_to_char(d: u64) -> (c: char)
    requires
        d < 10,
    ensures
        c == digit_char(d as int),
{
    if d == 0 {
        '0'
    } else if d == 1 {
        '1'
    } else if d == 2 {
        '2'
    } else if d == 3 {
        '3'
    } else if d == 4 {
        '4'
    } else if d == 5 {
        '5'
    } else if d == 6 {
        '6'
    } else if d == 7 {
        '7'
    } else if d == 8 {
        '8'
    } else {
        '9'
    }
}

/// Writes `n` in decimal.
pub fn u64_to_dec(n: u64) -> (r: String)
    ensures
        r@ == dec_chars(n as int),
    decreases n,
{
    if n < 10 {
        let mut s = String::new();
        crate::text::push_char(&mut s, digit_to_char(n));
        proof {
            assert(s@ =~= dec_chars(n as int));
        }
        s
    } else {
        let mut s = u64_to_dec(n / 10);
        crate::text::push_char(&mut s, digit_to_char(n % 10));
        s
    }
}

/// Reads an unsigned decimal value. `None` when the string is empty, holds
/// a non-digit, or spells a value above `u64::MAX`.
pub fn parse_u64(s: &str) -> (r: Option<u64>)
    ensures
        r is Some <==> all_dec_digits(s@) && dec_val(s@) <= u64::MAX,
        r is Some ==> r->0 as int == dec_val(s@),
{
    let n = s.unicode_len();
    if n == 0 {
        return None;
    }
    let mut acc: u64 = 0;
    let mut i: usize = 0;
    while i < n
        invariant
            0 < n == s@.len(),
            i <= n,
            forall|j: int| 0 <= j < i ==> is_dec_digit(#[trigger] s@[j]),
            acc as int == dec_val(s@.take(i as int)),
        decreases n - i,
    {
        let c = s.get_char(i);
        if !('0' <= c && c <= '9') {
            return None;
        }
        let d: u64 = (c as u32 as u64) - ('0' as u32 as u64);
        let shifted = match acc.checked_mul(10) {
            Some(v) => v,
            None => {
                proof {
                    if all_dec_digits(s@) {
                        let t = s@.take(i + 1);
                        assert(t.drop_last() =~= s@.take(i as int));
                        assert(t.last() == s@[i as int]);
                        assert(dec_val(t) > u64::MAX);
                        lemma_dec_val_prefix_le(s@, i + 1);
                    }
                }
                return None;
            },
        };
        let next = match shifted.checked_add(d) {
            Some(v) => v,
            None => {
                proof {
                    if all_dec_digits(s@) {
                        let t = s@.take(i + 1);
                        assert(t.drop_last() =~= s@.take(i as int));
                        assert(t.last() == s@[i as int]);
                        assert(dec_val(t) > u64::MAX);
                        lemma_dec_val_prefix_le(s@, i + 1);
                    }
                }
                return None;
            },
        };
        proof {
            let t = s@.take(i + 1);
            assert(t.drop_last() =~= s@.take(i as int));
            assert(t.last() == s@[i as int]);
        }
        acc = next;
        i = i + 1;
    }
    proof {
        assert(s@.take(n as int) =~= s@);
    }
    Some(acc)
}

} // verus!
