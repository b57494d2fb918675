//! Unsigned numbers out of text: the accepted spellings are those of
//! `from_str_radix` (one optional `+`, then digits of the base, letters in
//! either case, within the range of the type).

use vstd::prelude::*;

use super::digits::{digit_char, radix_text};

verus! {

/// The value of a digit character in bases up to 16.
pub open spec fn digit_value(c: char) -> Option<nat> {
    if '0' <= c <= '9' {
        Some((c as nat - 48) as nat)
    } else if 'a' <= c <= 'f' {
        Some((c as nat - 87) as nat)
    } else if 'A' <= c <= 'F' {
        Some((c as nat - 55) as nat)
    } else {
        None
    }
}

/// `c` is a digit of base `base`.
pub open spec fn is_digit(c: char, base: nat) -> bool {
    digit_value(c) matches Some(d) && d < base
}

/// The number that a string of digits denotes.
pub open spec fn digits_value(s: Seq<char>, base: nat) -> nat
    decreases s.len(),
{
    if s.len() == 0 {
        0
    } else {
        digits_value(s.drop_last(), base) * base + digit_value(s.last())->0
    }
}

/// `s` is a non-empty string of digits.
pub open spec fn all_digits(s: Seq<char>, base: nat) -> bool {
    s.len() > 0 && forall|i: int| 0 <= i < s.len() ==> is_digit(#[trigger] s[i], base)
}

/// `s` without the one leading `+` that a number may carry.
pub open spec fn unsigned_part(s: Seq<char>) -> Seq<char> {
    if s.len() > 0 && s[0] == '+' {
        s.skip(1)
    } else {
        s
    }
}

/// The number that `s` spells, if it spells one that fits in 64 bits.
pub open spec fn parsed(s: Seq<char>, base: nat) -> Option<u64> {
    let t = unsigned_part(s);
    if all_digits(t, base) && digits_value(t, base) <= u64::MAX {
        Some(digits_value(t, base) as u64)
    } else {
        None
    }
}

/// A longer digit string denotes no smaller number.
proof fn lemma_prefix_value(s: Seq<char>, n: int, base: nat)
    requires
        0 <= n <= s.len(),
        base >= 1,
    ensures
        digits_value(s.take(n), base) <= digits_value(s, base),
    decreases s.len(),
{
    if n == s.len() {
        assert(s.take(n) =~= s);
    } else {
        lemma_prefix_value(s.drop_last(), n, base);
        assert(s.drop_last().take(n) =~= s.take(n));
        let v = digits_value(s.drop_last(), base);
        assert(v <= v * base) by (nonlinear_arith)
            requires
                base >= 1,
                v >= 0,
        ;
    }
}

fn value_of_digit(c: char) -> (r: Option<u64>)
    ensures
        r matches Some(d) ==> digit_value(c) == Some(d as nat) && d < 16,
        r is None ==> digit_value(c) is None,
{
    if '0' <= c && c <= '9' {
        Some((c as u32 - 48) as u64)
    } else if 'a' <= c && c <= 'f' {
        Some((c as u32 - 87) as u64)
    } else if 'A' <= c && c <= 'F' {
        Some((c as u32 - 55) as u64)
    } else {
        None
    }
}

/// Parse an unsigned number.
pub fn parse_radix(s: &[char], base: u64) -> (r: Option<u64>)
    requires
        2 <= base <= 16,
    ensures
        r == parsed(s@, base as nat),
{
    let mut i: usize = if s.len() > 0 && s[0] == '+' {
        1
    } else {
        0
    };
    let ghost first = i as int;
    let ghost t = unsigned_part(s@);
    assert(t =~= s@.skip(first));
    if i == s.len() {
        return None;
    }
    let mut value: u64 = 0;
    while i < s.len()
        invariant
            2 <= base <= 16,
            0 <= first <= 1,
            first <= i <= s@.len(),
            t == unsigned_part(s@),
            t == s@.skip(first),
            forall|j: int| first <= j < i ==> is_digit(#[trigger] s@[j], base as nat),
            value == digits_value(t.take(i - first), base as nat),
        decreases s.len() - i,
    {
        let ghost k = i - first;
        assert(t[k] == s@[i as int]);
        let d: u64 = match value_of_digit(s[i]) {
            Some(d) => d,
            None => {
                return None;
            },
        };
        if d >= base {
            return None;
        }
        proof {
            assert(t.take(k + 1).drop_last() =~= t.take(k));
            assert(t.take(k + 1).last() == s@[i as int]);
            assert(digits_value(t.take(k + 1), base as nat) == value * base + d);
            lemma_prefix_value(t, k + 1, base as nat);
        }
        let scaled = match value.checked_mul(base) {
            Some(v) => v,
            None => {
                return None;
            },
        };
        value = match scaled.checked_add(d) {
            Some(v) => v,
            None => {
                return None;
            },
        };
        i += 1;
    }
    proof {
        assert(t.take(t.len() as int) =~= t);
        assert forall|j: int| 0 <= j < t.len() implies is_digit(#[trigger] t[j], base as nat) by {
            assert(t[j] == s@[j + first]);
        }
    }
    Some(value)
}

/// What a number is written as reads back as that number.
pub proof fn lemma_rendered_number_parses(n: u64, base: nat, upper: bool)
    requires
        2 <= base <= 16,
    ensures
        parsed(radix_text(n as nat, base, upper), base) == Some(n),
        all_digits(radix_text(n as nat, base, upper), base),
{
    lemma_rendered_digits(n as nat, base, upper);
    let t = radix_text(n as nat, base, upper);
    assert(is_digit(t[0], base));
    assert(unsigned_part(t) == t);
}

proof fn lemma_rendered_digits(n: nat, base: nat, upper: bool)
    requires
        2 <= base <= 16,
    ensures
        all_digits(radix_text(n, base, upper), base),
        digits_value(radix_text(n, base, upper), base) == n,
    decreases n,
{
    let t = radix_text(n, base, upper);
    reveal_with_fuel(digits_value, 2);
    if n < base {
        assert(digit_value(digit_char(n, upper)) == Some(n));
        assert(t.drop_last() =~= Seq::empty());
        assert(digits_value(t, base) == 0 * base + n);
    } else {
        assert(n / base < n) by (nonlinear_arith)
            requires
                n >= base,
                base >= 2,
        ;
        lemma_rendered_digits(n / base, base, upper);
        let head = radix_text(n / base, base, upper);
        let d = n % base;
        assert(digit_value(digit_char(d, upper)) == Some(d));
        assert(t.drop_last() =~= head);
        assert forall|i: int| 0 <= i < t.len() implies is_digit(#[trigger] t[i], base) by {
            if i < head.len() {
                assert(t[i] == head[i]);
            }
        }
        assert((n / base) * base + n % base == n) by (nonlinear_arith)
            requires
                base >= 2,
        ;
    }
}

} // verus!
