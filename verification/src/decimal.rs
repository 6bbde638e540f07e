//! Decimal numerals: rendering a u64 and parsing one back, with the
//! round trip proved.

use vstd::prelude::*;

verus! {

/// A decimal digit character.
pub open spec fn is_dec_digit(c: char) -> bool {
    '0' <= c && c <= '9'
}

/// The numeric value of a decimal digit character.
pub open spec fn dec_digit_val(c: char) -> int {
    c as int - '0' as int
}

/// The digit character of a value below ten.
pub open spec fn dec_digit_char(d: int) -> char {
    ((48 + d) as u8) as char
}

/// Every character of the sequence is a decimal digit.
pub open spec fn all_dec_digits(s: Seq<char>) -> bool {
    forall|i: int| 0 <= i < s.len() ==> is_dec_digit(#[trigger] s[i])
}

/// The value of a digit sequence read as a decimal numeral.
pub open spec fn dec_val(s: Seq<char>) -> int
    decreases s.len(),
{
    if s.len() == 0 {
        0
    } else {
        dec_val(s.drop_last()) * 10 + dec_digit_val(s.last())
    }
}

/// What a (possibly empty) run of characters parses to as a u64: `None` when
/// it is empty, holds a non-digit, or exceeds `u64::MAX`.
pub open spec fn parse_u64_digits(s: Seq<char>) -> Option<u64> {
    if s.len() >= 1 && all_dec_digits(s) && dec_val(s) <= u64::MAX {
        Some(dec_val(s) as u64)
    } else {
        None
    }
}

/// The canonical decimal numeral of a non-negative value: no leading zeros,
/// a single `0` for zero.
pub open spec fn dec_chars(n: int) -> Seq<char>
    decreases n,
{
    if n <= 9 {
        seq![dec_digit_char(n)]
    } else {
        dec_chars(n / 10).push(dec_digit_char(n % 10))
    }
}

/// The value of a digit string is non-negative.
pub proof fn lemma_dec_val_nonneg(s: Seq<char>)
    requires
        all_dec_digits(s),
    ensures
        dec_val(s) >= 0,
    decreases s.len(),
{
    if s.len() > 0 {
        assert(all_dec_digits(s.drop_last())) by {
            assert(forall|i: int|
                0 <= i < s.len() - 1 ==> s.drop_last()[i] == #[trigger] s[i]);
        }
        lemma_dec_val_nonneg(s.drop_last());
    }
}

/// Reading one more digit can only grow the value.
pub proof fn lemma_dec_val_extend_ge(s: Seq<char>, j: int)
    requires
        all_dec_digits(s),
        0 <= j <= s.len(),
    ensures
        dec_val(s) >= dec_val(s.take(j)),
    decreases s.len() - j,
{
    if j < s.len() {
        lemma_dec_val_extend_ge(s, j + 1);
        let t = s.take(j + 1);
        assert(t.drop_last() =~= s.take(j));
        assert(t.last() == s[j]);
        assert(all_dec_digits(s.take(j))) by {
            assert(forall|i: int| 0 <= i < j ==> s.take(j)[i] == #[trigger] s[i]);
        }
        lemma_dec_val_nonneg(s.take(j));
        assert(dec_val(t) == dec_val(s.take(j)) * 10 + dec_digit_val(s[j]));
    } else {
        assert(s.take(j) =~= s);
    }
}

/// A rendered numeral is all digits and parses back to the value it renders.
pub proof fn lemma_dec_chars_round_trip(n: int)
    requires
        0 <= n <= u64::MAX,
    ensures
        all_dec_digits(dec_chars(n)),
        dec_chars(n).len() >= 1,
        dec_val(dec_chars(n)) == n,
        parse_u64_digits(dec_chars(n)) == Some(n as u64),
    decreases n,
{
    if n <= 9 {
        let s = dec_chars(n);
        assert(s == seq![dec_digit_char(n)]);
        assert(s.drop_last() =~= Seq::<char>::empty());
        assert(s.last() == dec_digit_char(n));
        assert(dec_val(s) == dec_val(Seq::<char>::empty()) * 10 + dec_digit_val(
            dec_digit_char(n),
        ));
        assert(dec_digit_val(dec_digit_char(n)) == n);
    } else {
        lemma_dec_chars_round_trip(n / 10);
        let s = dec_chars(n);
        assert(s == dec_chars(n / 10).push(dec_digit_char(n % 10)));
        assert(s.drop_last() =~= dec_chars(n / 10));
        assert(s.last() == dec_digit_char(n % 10));
        assert(dec_digit_val(dec_digit_char(n % 10)) == n % 10);
        assert(dec_val(s) == (n / 10) * 10 + n % 10);
        vstd::arithmetic::div_mod::lemma_fundamental_div_mod(n, 10);
        assert(all_dec_digits(s)) by {
            assert(forall|i: int|
                0 <= i < s.len() - 1 ==> #[trigger] s[i] == dec_chars(n / 10)[i]);
            assert(is_dec_digit(dec_digit_char(n % 10)));
        }
    }
}

/// Appends one decimal digit character.
fn push_digit_char(s: &mut String, d: u8)
    requires
        d < 10,
    ensures
        final(s)@ == old(s)@.push(dec_digit_char(d as int)),
{
    crate::strings::push_char(s, (48 + d) as char)
}

/// Appends the decimal numeral of `n`.
pub fn push_decimal(s: &mut String, n: u64)
    ensures
        final(s)@ == old(s)@ + dec_chars(n as int),
    decreases n,
{
    if n > 9 {
        push_decimal(s, n / 10);
    }
    push_digit_char(s, (n % 10) as u8);
    proof {
        if n > 9 {
            assert(old(s)@ + dec_chars(n as int) =~= (old(s)@ + dec_chars(n as int / 10)).push(
                dec_digit_char(n as int % 10),
            ));
        } else {
            assert(old(s)@ + dec_chars(n as int) =~= old(s)@.push(dec_digit_char(n as int)));
        }
    }
}

/// Parses the characters `[from, to)` of `s` as a decimal u64.
pub fn parse_u64(s: &str, from: usize, to: usize) -> (r: Option<u64>)
    requires
        from <= to <= s@.len(),
    ensures
        r == parse_u64_digits(s@.subrange(from as int, to as int)),
{
    let ghost seg = s@.subrange(from as int, to as int);
    if from == to {
        return None;
    }
    let mut acc: u64 = 0;
    let mut i: usize = from;
    while i < to
        invariant
            from <= i <= to <= s@.len(),
            seg == s@.subrange(from as int, to as int),
            all_dec_digits(seg.take(i - from)),
            acc == dec_val(seg.take(i - from)),
        decreases to - i,
    {
        let c = s.get_char(i);
        if !('0' <= c && c <= '9') {
            proof {
                assert(seg[i - from] == c);
                assert(!all_dec_digits(seg));
            }
            return None;
        }
        let d: u8 = (c as u8) - 48;
        let wide: u128 = (acc as u128) * 10 + (d as u128);
        proof {
            let t = seg.take(i - from + 1);
            assert(t.drop_last() =~= seg.take(i - from));
            assert(t.last() == seg[i - from] && seg[i - from] == c);
            assert(dec_val(t) == acc * 10 + dec_digit_val(c));
        }
        if wide > 0xffff_ffff_ffff_ffff {
            proof {
                assert(dec_val(seg.take(i - from + 1)) > u64::MAX);
                assert(all_dec_digits(seg.take(i - from + 1)));
                lemma_overflowing_prefix_unparseable(seg, i - from + 1);
            }
            return None;
        }
        acc = wide as u64;
        i = i + 1;
    }
    proof {
        assert(seg.take(to - from) =~= seg);
    }
    Some(acc)
}

/// A run whose digit prefix already exceeds `u64::MAX` does not parse: if
/// the rest is all digits the value only grows, and otherwise the run holds
/// a non-digit.
proof fn lemma_overflowing_prefix_unparseable(s: Seq<char>, j: int)
    requires
        0 <= j <= s.len(),
        all_dec_digits(s.take(j)),
        dec_val(s.take(j)) > u64::MAX,
    ensures
        parse_u64_digits(s) is None,
    decreases s.len() - j,
{
    if all_dec_digits(s) {
        assert(forall|i: int| 0 <= i < j ==> s.take(j)[i] == #[trigger] s[i]);
        lemma_dec_val_extend_ge(s, j);
    }
}

} // verus!
