//! Numbers as text: what is written denotes the number, and what is read is what
//! the text denotes.

use vstd::prelude::*;

use crate::text::digits::{
    decimal, digit_char, hex, hex_prefixed, hex_upper, padded, push_decimal, push_hex,
    push_hex_prefixed, push_hex_upper, push_padded, radix_text,
};
use crate::text::parse::{all_digits, digits_value, is_digit, parse_radix, unsigned_part};

verus! {

/// The value of a digit, in either case.
pub open spec fn digit(c: char) -> Option<nat> {
    if c == '0' {
        Some(0)
    } else if c == '1' {
        Some(1)
    } else if c == '2' {
        Some(2)
    } else if c == '3' {
        Some(3)
    } else if c == '4' {
        Some(4)
    } else if c == '5' {
        Some(5)
    } else if c == '6' {
        Some(6)
    } else if c == '7' {
        Some(7)
    } else if c == '8' {
        Some(8)
    } else if c == '9' {
        Some(9)
    } else if c == 'a' || c == 'A' {
        Some(10)
    } else if c == 'b' || c == 'B' {
        Some(11)
    } else if c == 'c' || c == 'C' {
        Some(12)
    } else if c == 'd' || c == 'D' {
        Some(13)
    } else if c == 'e' || c == 'E' {
        Some(14)
    } else if c == 'f' || c == 'F' {
        Some(15)
    } else {
        None
    }
}

/// The number that digits denote, the most significant first.
pub open spec fn denoted(t: Seq<char>, base: nat) -> nat
    decreases t.len(),
{
    if t.len() == 0 {
        0
    } else {
        denoted(t.drop_last(), base) * base + digit(t.last())->0
    }
}

/// Some digits of a base.
pub open spec fn are_digits(t: Seq<char>, base: nat) -> bool {
    t.len() > 0 && forall|i: int|
        0 <= i < t.len() ==> digit(#[trigger] t[i]) is Some && digit(t[i])->0 < base
}

/// A text is the numeral of a number: its digits, without leading zeros, the
/// letters in one case.
pub open spec fn is_numeral(t: Seq<char>, base: nat, upper: bool, n: nat) -> bool {
    &&& are_digits(t, base)
    &&& denoted(t, base) == n
    &&& t.len() > 1 ==> t[0] != '0'
    &&& forall|i: int|
        0 <= i < t.len() ==> if upper {
            !('a' <= #[trigger] t[i] <= 'f')
        } else {
            !('A' <= t[i] <= 'F')
        }
}

/// Numbers in decimal, in hexadecimal with lower and with upper case letters,
/// and with `0x` in front.
pub proof fn law_numerals(n: nat)
    ensures
        is_numeral(decimal(n), 10, false, n),
        is_numeral(hex(n), 16, false, n),
        is_numeral(hex_upper(n), 16, true, n),
        hex_prefixed(n).len() > 2 && hex_prefixed(n)[0] == '0' && hex_prefixed(n)[1] == 'x',
        is_numeral(hex_prefixed(n).skip(2), 16, false, n),
{
    lemma_numeral(n, 10, false);
    lemma_numeral(n, 16, false);
    lemma_numeral(n, 16, true);
    assert(hex_prefixed(n).skip(2) =~= hex(n));
}

proof fn lemma_numeral(n: nat, base: nat, upper: bool)
    requires
        2 <= base <= 16,
    ensures
        is_numeral(radix_text(n, base, upper), base, upper, n),
        n > 0 ==> radix_text(n, base, upper)[0] != '0',
    decreases n,
{
    let t = radix_text(n, base, upper);
    if n < base {
        lemma_digit(n, upper);
        assert(t.drop_last().len() == 0);
        assert(t =~= seq![digit_char(n, upper)]);
        assert(denoted(t.drop_last(), base) == 0);
    } else {
        assert(0 < n / base < n) by (nonlinear_arith)
            requires
                n >= base,
                base >= 2,
        ;
        let front = radix_text(n / base, base, upper);
        let last = n % base;
        lemma_numeral(n / base, base, upper);
        lemma_digit(last, upper);
        assert(t =~= front.push(digit_char(last, upper)));
        assert(t.drop_last() =~= front);
        assert(t.last() == digit_char(last, upper));
        assert((n / base) * base + n % base == n) by (nonlinear_arith)
            requires
                base >= 2,
        ;
        assert forall|i: int| 0 <= i < t.len() implies digit(#[trigger] t[i]) is Some && digit(
            t[i],
        )->0 < base by {
            if i < front.len() {
                assert(t[i] == front[i]);
            }
        }
        assert forall|i: int| 0 <= i < t.len() implies if upper {
            !('a' <= #[trigger] t[i] <= 'f')
        } else {
            !('A' <= t[i] <= 'F')
        } by {
            if i < front.len() {
                assert(t[i] == front[i]);
            }
        }
        assert(t[0] == front[0]);
    }
}

proof fn lemma_digit(d: nat, upper: bool)
    requires
        d < 16,
    ensures
        digit(digit_char(d, upper)) == Some(d),
        d > 0 ==> digit_char(d, upper) != '0',
        upper ==> !('a' <= digit_char(d, upper) <= 'f'),
        !upper ==> !('A' <= digit_char(d, upper) <= 'F'),
{
}

/// What is appended for a number is its numeral.
pub proof fn law_numbers_are_written(
    d: &mut String,
    h: &mut String,
    u: &mut String,
    p: &mut String,
    n: u64,
)
    requires
        call_ensures(push_decimal, (d, n), ()),
        call_ensures(push_hex, (h, n), ()),
        call_ensures(push_hex_upper, (u, n), ()),
        call_ensures(push_hex_prefixed, (p, n), ()),
    ensures
        old(d)@.is_prefix_of(final(d)@) && is_numeral(
            final(d)@.skip(old(d)@.len() as int),
            10,
            false,
            n as nat,
        ),
        old(h)@.is_prefix_of(final(h)@) && is_numeral(
            final(h)@.skip(old(h)@.len() as int),
            16,
            false,
            n as nat,
        ),
        old(u)@.is_prefix_of(final(u)@) && is_numeral(
            final(u)@.skip(old(u)@.len() as int),
            16,
            true,
            n as nat,
        ),
        (old(p)@ + seq!['0', 'x']).is_prefix_of(final(p)@) && is_numeral(
            final(p)@.skip(old(p)@.len() as int + 2),
            16,
            false,
            n as nat,
        ),
{
    law_numerals(n as nat);
    assert(final(d)@.skip(old(d)@.len() as int) =~= decimal(n as nat));
    assert(final(h)@.skip(old(h)@.len() as int) =~= hex(n as nat));
    assert(final(u)@.skip(old(u)@.len() as int) =~= hex_upper(n as nat));
    assert(final(p)@.skip(old(p)@.len() as int + 2) =~= hex(n as nat));
    assert(old(d)@ =~= final(d)@.take(old(d)@.len() as int));
    assert(old(h)@ =~= final(h)@.take(old(h)@.len() as int));
    assert(old(u)@ =~= final(u)@.take(old(u)@.len() as int));
    assert(old(p)@ + seq!['0', 'x'] =~= final(p)@.take(old(p)@.len() as int + 2));
}

/// A number is read from digits in either case, with or without one `+` in
/// front, if it fits; nothing else is a number.
pub proof fn law_numbers_are_read(s: &[char], base: u64, r: Option<u64>)
    requires
        2 <= base <= 16,
        call_ensures(parse_radix, (s, base), r),
    ensures
        ({
            let t = if s@.len() > 0 && s@[0] == '+' {
                s@.skip(1)
            } else {
                s@
            };
            &&& r is Some <==> are_digits(t, base as nat) && denoted(t, base as nat)
                <= 0xffff_ffff_ffff_ffff
            &&& r matches Some(n) ==> n == denoted(t, base as nat)
        }),
{
    let t = unsigned_part(s@);
    if all_digits(t, base as nat) {
        assert forall|i: int| 0 <= i < t.len() implies digit(#[trigger] t[i]) is Some && digit(
            t[i],
        )->0 < base by {
            assert(is_digit(t[i], base as nat));
        }
        lemma_same_value(t, base as nat);
    }
    if are_digits(t, base as nat) {
        assert forall|i: int| 0 <= i < t.len() implies is_digit(#[trigger] t[i], base as nat) by {
            assert(digit(t[i]) is Some);
        }
        lemma_same_value(t, base as nat);
    }
}

proof fn lemma_same_value(t: Seq<char>, base: nat)
    requires
        forall|i: int| 0 <= i < t.len() ==> is_digit(#[trigger] t[i], base),
    ensures
        digits_value(t, base) == denoted(t, base),
    decreases t.len(),
{
    if t.len() > 0 {
        assert forall|i: int| 0 <= i < t.drop_last().len() implies is_digit(
            #[trigger] t.drop_last()[i],
            base,
        ) by {
            assert(is_digit(t[i], base));
        }
        lemma_same_value(t.drop_last(), base);
        assert(is_digit(t[t.len() - 1], base));
    }
}

/// A text that is filled up keeps its characters at its end, and has nothing but
/// the filler in front of them, up to the width.
pub proof fn law_padding(
    out: &mut String,
    text: &str,
    width: usize,
    fill: char,
)
    requires
        call_ensures(push_padded, (out, text, width, fill), ()),
    ensures
        ({
            let added = final(out)@.skip(old(out)@.len() as int);
            let k = added.len() - text@.len();
            &&& final(out)@.take(old(out)@.len() as int) == old(out)@
            &&& added.len() == (if text@.len() < width {
                width as nat
            } else {
                text@.len()
            })
            &&& added.skip(k) == text@
            &&& forall|i: int| 0 <= i < k ==> #[trigger] added[i] == fill
        }),
{
    let added = final(out)@.skip(old(out)@.len() as int);
    assert(added =~= padded(text@, width as nat, fill));
    let k = added.len() - text@.len();
    assert(added.skip(k) =~= text@);
    assert(final(out)@.take(old(out)@.len() as int) =~= old(out)@);
}

} // verus!
