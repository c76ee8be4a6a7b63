//! Helpers on text: comparing two strings, reading and writing decimal
//! integers, and finding where a field of a separated list ends.

use crate::encoding::lemma_encode_injective;
use vstd::prelude::*;
use vstd::std_specs::iter::IteratorSpec;
use vstd::string::StringSliceAdditionalSpecFns;

verus! {

/// Whether two strings hold the same characters.
pub fn str_eq(a: &str, b: &str) -> (res: bool)
    ensures
        res == (a@ == b@),
{
    let x = a.as_bytes();
    let y = b.as_bytes();
    if x.len() != y.len() {
        return false;
    }
    let mut i: usize = 0;
    while i < x.len()
        invariant
            x@ == a.spec_bytes(),
            y@ == b.spec_bytes(),
            x@.len() == y@.len(),
            0 <= i <= x@.len(),
            forall|j: int| 0 <= j < i ==> x@[j] == y@[j],
        decreases x@.len() - i,
    {
        if x[i] != y[i] {
            return false;
        }
        i += 1;
    }
    proof {
        assert(x@ =~= y@);
        lemma_encode_injective(a@, b@);
    }
    true
}

/// Whether every character of `s` is a decimal digit.
pub open spec fn is_digits(s: Seq<char>) -> bool {
    forall|i: int| 0 <= i < s.len() ==> '0' <= #[trigger] s[i] <= '9'
}

/// The number that a sequence of decimal digits writes.
pub open spec fn decimal_value(s: Seq<char>) -> int
    decreases s.len(),
{
    if s.len() == 0 {
        0
    } else {
        decimal_value(s.drop_last()) * 10 + (s.last() as int - '0' as int)
    }
}

/// The 32-bit integer that `s` writes in decimal: an optional sign, then one
/// or more digits and nothing else, with a value in the range of `i32`.
pub open spec fn parse_i32_spec(s: Seq<char>) -> Option<i32> {
    let signed = s.len() > 0 && (s[0] == '-' || s[0] == '+');
    let digits = if signed {
        s.drop_first()
    } else {
        s
    };
    let magnitude = decimal_value(digits);
    let value = if signed && s[0] == '-' {
        -magnitude
    } else {
        magnitude
    };
    if digits.len() > 0 && is_digits(digits) && i32::MIN <= value <= i32::MAX {
        Some(value as i32)
    } else {
        None
    }
}

/// Appending digits never makes the number smaller.
proof fn lemma_decimal_monotonic(s: Seq<char>, k: int)
    requires
        is_digits(s),
        0 <= k <= s.len(),
    ensures
        0 <= decimal_value(s.take(k)) <= decimal_value(s),
    decreases s.len() - k,
{
    if k == s.len() {
        assert(s.take(k) =~= s);
        lemma_decimal_nonnegative(s);
    } else {
        lemma_decimal_monotonic(s, k + 1);
        assert(s.take(k + 1).drop_last() =~= s.take(k));
        assert(s.take(k + 1).last() == s[k]);
        lemma_decimal_nonnegative(s.take(k));
    }
}

/// Digits write a number that is not negative.
proof fn lemma_decimal_nonnegative(s: Seq<char>)
    requires
        is_digits(s),
    ensures
        0 <= decimal_value(s),
    decreases s.len(),
{
    if s.len() > 0 {
        assert(is_digits(s.drop_last())) by {
            assert forall|i: int| 0 <= i < s.drop_last().len() implies '0' <= #[trigger] s.drop_last()[i]
                <= '9' by {
                assert(s.drop_last()[i] == s[i]);
            }
        }
        lemma_decimal_nonnegative(s.drop_last());
        assert('0' <= s[s.len() - 1] <= '9');
    }
}

/// Reads a 32-bit integer written in decimal.
pub fn parse_i32(s: &str) -> (res: Option<i32>)
    ensures
        res == parse_i32_spec(s@),
{
    broadcast use {vstd::string::axiom_spec_iter, vstd::string::next_postcondition};

    let mut chars = s.chars();
    let mut signed = false;
    let mut negative = false;
    let mut any = false;
    let mut acc: i64 = 0;
    let ghost mut i: int = 0;
    let ghost mut first: int = 0;
    proof {
        assert(s@.skip(0) =~= s@);
        assert(s@.subrange(0, 0) =~= Seq::<char>::empty());
    }
    loop
        invariant
            0 <= first <= i <= s@.len(),
            chars.remaining() == s@.skip(i),
            first == if signed { 1int } else { 0int },
            signed ==> i >= 1 && (s@[0] == '-' || s@[0] == '+') && negative == (s@[0] == '-'),
            !signed ==> !negative && (i >= 1 ==> s@[0] != '-' && s@[0] != '+'),
            any == (i > first),
            is_digits(s@.subrange(first, i)),
            acc == decimal_value(s@.subrange(first, i)),
            0 <= acc <= 2147483648,
        ensures
            i == s@.len(),
        decreases s@.len() - i,
    {
        let c = match chars.next() {
            Some(c) => c,
            None => {
                break ;
            },
        };
        let ghost digits = if s@[0] == '-' || s@[0] == '+' {
            s@.drop_first()
        } else {
            s@
        };
        proof {
            assert(c == s@[i]);
            assert(s@.skip(i).drop_first() =~= s@.skip(i + 1));
        }
        if !any && !signed && (c == '-' || c == '+') {
            signed = true;
            negative = c == '-';
            proof {
                first = 1;
                assert(s@.subrange(1, 1) =~= Seq::<char>::empty());
            }
        } else if '0' <= c && c <= '9' {
            let digit = (c as u32 - '0' as u32) as i64;
            proof {
                let before = s@.subrange(first, i);
                let after = s@.subrange(first, i + 1);
                assert(after.drop_last() =~= before);
                assert(after.last() == c);
                assert forall|j: int| 0 <= j < after.len() implies '0' <= #[trigger] after[j]
                    <= '9' by {
                    if j < before.len() {
                        assert(after[j] == before[j]);
                    }
                }
            }
            acc = acc * 10 + digit;
            any = true;
            if acc > 2147483648 {
                proof {
                    assert(digits =~= s@.subrange(first, s@.len() as int));
                    if is_digits(digits) {
                        assert(digits.take(i + 1 - first) =~= s@.subrange(first, i + 1));
                        lemma_decimal_monotonic(digits, i + 1 - first);
                    }
                }
                return None;
            }
        } else {
            proof {
                assert(digits =~= s@.subrange(first, s@.len() as int));
                assert(digits[i - first] == c);
            }
            return None;
        }
        proof {
            i = i + 1;
        }
    }
    proof {
        if s@.len() > 0 {
            let digits = if s@[0] == '-' || s@[0] == '+' {
                s@.drop_first()
            } else {
                s@
            };
            assert(digits =~= s@.subrange(first, i));
        } else {
            assert(s@ =~= s@.subrange(first, i));
        }
    }
    if !any {
        None
    } else if negative {
        Some((-acc) as i32)
    } else if acc <= 2147483647 {
        Some(acc as i32)
    } else {
        None
    }
}

/// The number of characters of `s` before the first `sep`, or the length of
/// `s` where it holds none.
pub open spec fn field_end(s: Seq<char>, sep: char) -> int
    decreases s.len(),
{
    if s.len() == 0 || s[0] == sep {
        0
    } else {
        1 + field_end(s.drop_first(), sep)
    }
}

/// `field_end` is the first index at which `sep` stands.
pub proof fn lemma_field_end(s: Seq<char>, sep: char, k: int)
    requires
        0 <= k <= s.len(),
        forall|j: int| 0 <= j < k ==> s[j] != sep,
        k == s.len() || s[k] == sep,
    ensures
        field_end(s, sep) == k,
    decreases s.len(),
{
    if k > 0 {
        let rest = s.drop_first();
        assert forall|j: int| 0 <= j < k - 1 implies rest[j] != sep by {
            assert(rest[j] == s[j + 1]);
        }
        lemma_field_end(rest, sep, k - 1);
    }
}

/// The character that writes the digit `d`.
pub open spec fn digit_char(d: int) -> char {
    ('0' as int + d) as char
}

/// The decimal digits of a number that is not negative, without leading
/// zeros.
pub open spec fn digits_of(n: nat) -> Seq<char>
    decreases n,
{
    if n < 10 {
        seq![digit_char(n as int)]
    } else {
        digits_of(n / 10).push(digit_char((n % 10) as int))
    }
}

/// A number written in decimal, with a minus sign where it is negative.
pub open spec fn decimal_text(n: int) -> Seq<char> {
    if n < 0 {
        seq!['-'] + digits_of((-n) as nat)
    } else {
        digits_of(n as nat)
    }
}

fn digit_to_char(d: u8) -> (res: char)
    requires
        d < 10,
    ensures
        res == digit_char(d as int),
{
    match d {
        0 => '0',
        1 => '1',
        2 => '2',
        3 => '3',
        4 => '4',
        5 => '5',
        6 => '6',
        7 => '7',
        8 => '8',
        _ => '9',
    }
}

/// Appends the decimal digits of `magnitude` to `out`.
pub fn push_digits(out: &mut String, magnitude: u64)
    ensures
        final(out)@ == old(out)@ + digits_of(magnitude as nat),
{
    let mut backwards: Vec<char> = Vec::new();
    backwards.push(digit_to_char((magnitude % 10) as u8));
    let mut rest: u64 = magnitude / 10;
    proof {
        assert(backwards@.reverse() =~= seq![digit_char((magnitude % 10) as int)]);
        if rest > 0 {
            assert(digits_of(magnitude as nat) =~= digits_of(rest as nat) + backwards@.reverse());
        }
    }
    while rest > 0
        invariant
            0 <= rest <= magnitude,
            digits_of(magnitude as nat) == if rest == 0 {
                backwards@.reverse()
            } else {
                digits_of(rest as nat) + backwards@.reverse()
            },
        decreases rest,
    {
        let digit = digit_to_char((rest % 10) as u8);
        let ghost before = backwards@;
        backwards.push(digit);
        proof {
            assert(backwards@.reverse() =~= seq![digit] + before.reverse());
            if rest >= 10 {
                assert(digits_of(rest as nat) == digits_of((rest / 10) as nat).push(digit));
                assert(digits_of(magnitude as nat) =~= digits_of((rest / 10) as nat)
                    + backwards@.reverse());
            } else {
                assert(digits_of(rest as nat) == seq![digit]);
                assert(digits_of(magnitude as nat) =~= backwards@.reverse());
            }
        }
        rest = rest / 10;
    }
    let ghost start = out@;
    let mut i: usize = backwards.len();
    proof {
        assert(backwards@.reverse().take(0) =~= Seq::<char>::empty());
        assert(out@ =~= start + backwards@.reverse().take(0));
    }
    while i > 0
        invariant
            0 <= i <= backwards@.len(),
            out@ == start + backwards@.reverse().take(backwards@.len() - i),
        decreases i,
    {
        i -= 1;
        out.push(backwards[i]);
        proof {
            let done = backwards@.len() - i;
            assert(backwards@.reverse().take(done) =~= backwards@.reverse().take(done - 1).push(
                backwards@[i as int],
            ));
        }
    }
    proof {
        assert(backwards@.reverse().take(backwards@.len() as int) =~= backwards@.reverse());
    }
}

/// Appends the decimal form of `n` to `out`.
pub fn push_decimal(out: &mut String, n: i32)
    ensures
        final(out)@ == old(out)@ + decimal_text(n as int),
{
    if n < 0 {
        out.push('-');
        push_digits(out, (-(n as i64)) as u64);
        proof {
            assert(out@ =~= old(out)@ + decimal_text(n as int));
        }
    } else {
        push_digits(out, n as u64);
    }
}

/// The digits of a number are digits, at least one, and write that number.
pub proof fn lemma_digits_write_the_number(n: nat)
    ensures
        digits_of(n).len() > 0,
        is_digits(digits_of(n)),
        decimal_value(digits_of(n)) == n,
    decreases n,
{
    reveal_with_fuel(decimal_value, 2);
    if n < 10 {
        assert(digits_of(n).drop_last() =~= Seq::<char>::empty());
    } else {
        lemma_digits_write_the_number(n / 10);
        let front = digits_of(n / 10);
        let all = digits_of(n);
        assert(all.drop_last() =~= front);
        assert forall|i: int| 0 <= i < all.len() implies '0' <= #[trigger] all[i] <= '9' by {
            if i < front.len() {
                assert(all[i] == front[i]);
            }
        }
    }
}

/// What is written in decimal reads back as the same number.
pub proof fn lemma_decimal_round_trip(n: i32)
    ensures
        parse_i32_spec(decimal_text(n as int)) == Some(n),
{
    if n < 0 {
        let digits = digits_of((-n) as nat);
        lemma_digits_write_the_number((-n) as nat);
        assert(decimal_text(n as int).drop_first() =~= digits);
    } else {
        lemma_digits_write_the_number(n as nat);
        assert('0' <= digits_of(n as nat)[0] <= '9');
    }
}

} // verus!
