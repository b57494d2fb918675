//! Unsigned numbers as text: radix digits and padding.

use vstd::prelude::*;

verus! {

/// The character of digit `d` (`0..=9`, then letters).
pub open spec fn digit_char(d: nat, upper: bool) -> char {
    if d < 10 {
        (48 + d) as char
    } else if upper {
        (55 + d) as char
    } else {
        (87 + d) as char
    }
}

/// `n` written in base `base`, most significant digit first, without leading
/// zeros (zero itself is one digit).
pub open spec fn radix_text(n: nat, base: nat, upper: bool) -> Seq<char>
    decreases n,
{
    if base < 2 || n < base {
        seq![digit_char(n, upper)]
    } else {
        proof {
            assert(n / base < n) by (nonlinear_arith)
                requires
                    n >= base,
                    base >= 2,
            ;
        }
        radix_text(n / base, base, upper).push(digit_char(n % base, upper))
    }
}

/// `{:x}`.
pub open spec fn hex(n: nat) -> Seq<char> {
    radix_text(n, 16, false)
}

/// `{:X}`.
pub open spec fn hex_upper(n: nat) -> Seq<char> {
    radix_text(n, 16, true)
}

/// `{:#x}`.
pub open spec fn hex_prefixed(n: nat) -> Seq<char> {
    seq!['0', 'x'] + hex(n)
}

/// `{}`.
pub open spec fn decimal(n: nat) -> Seq<char> {
    radix_text(n, 10, false)
}

/// `s` brought to at least `width` characters by putting `fill` in front.
pub open spec fn padded(s: Seq<char>, width: nat, fill: char) -> Seq<char> {
    if s.len() >= width {
        s
    } else {
        Seq::new((width - s.len()) as nat, |i: int| fill) + s
    }
}

fn push_digit(out: &mut String, d: u64, upper: bool)
    requires
        d < 16,
    ensures
        final(out)@ == old(out)@.push(digit_char(d as nat, upper)),
{
    let code: u8 = if d < 10 {
        48 + d as u8
    } else if upper {
        55 + d as u8
    } else {
        87 + d as u8
    };
    out.push(code as char);
}

/// Append `n` in base `base`.
pub fn push_radix(out: &mut String, n: u64, base: u64, upper: bool)
    requires
        2 <= base <= 16,
    ensures
        final(out)@ == old(out)@ + radix_text(n as nat, base as nat, upper),
    decreases n,
{
    if n < base {
        push_digit(out, n, upper);
    } else {
        assert(n / base < n) by (nonlinear_arith)
            requires
                n >= base,
                base >= 2,
        ;
        push_radix(out, n / base, base, upper);
        push_digit(out, n % base, upper);
    }
}

/// Append `{:x}`.
pub fn push_hex(out: &mut String, n: u64)
    ensures
        final(out)@ == old(out)@ + hex(n as nat),
{
    push_radix(out, n, 16, false)
}

/// Append `{:X}`.
pub fn push_hex_upper(out: &mut String, n: u64)
    ensures
        final(out)@ == old(out)@ + hex_upper(n as nat),
{
    push_radix(out, n, 16, true)
}

/// Append `{:#x}`.
pub fn push_hex_prefixed(out: &mut String, n: u64)
    ensures
        final(out)@ == old(out)@ + hex_prefixed(n as nat),
{
    out.push('0');
    out.push('x');
    push_hex(out, n);
    assert(old(out)@.push('0').push('x') =~= old(out)@ + seq!['0', 'x']);
}

/// Append `{}`.
pub fn push_decimal(out: &mut String, n: u64)
    ensures
        final(out)@ == old(out)@ + decimal(n as nat),
{
    push_radix(out, n, 10, false)
}

/// Append `text`, filled up in front to `width` characters.
pub fn push_padded(out: &mut String, text: &str, width: usize, fill: char)
    ensures
        final(out)@ == old(out)@ + padded(text@, width as nat, fill),
{
    let len = text.unicode_len();
    let ghost before = out@;
    if len < width {
        let missing: usize = width - len;
        for i in 0..missing
            invariant
                out@ == before + Seq::new(i as nat, |k: int| fill),
        {
            out.push(fill);
            assert(Seq::new(i as nat + 1, |k: int| fill) =~= Seq::new(i as nat, |k: int| fill).push(
                fill,
            ));
        }
    }
    out.append(text);
}

/// Append `n` in base `base`, filled up in front to `width` characters.
pub fn push_padded_radix(out: &mut String, n: u64, base: u64, width: usize, fill: char)
    requires
        2 <= base <= 16,
    ensures
        final(out)@ == old(out)@ + padded(
            radix_text(n as nat, base as nat, false),
            width as nat,
            fill,
        ),
{
    let mut text = String::new();
    push_radix(&mut text, n, base, false);
    push_padded(out, text.as_str(), width, fill);
}

/// A number written in some base has at least one digit, and each of its
/// characters is the character of a digit below the base.
pub proof fn lemma_radix_text_digits(n: nat, base: nat, upper: bool)
    requires
        2 <= base <= 16,
    ensures
        radix_text(n, base, upper).len() > 0,
        forall|i: int|
            #![trigger radix_text(n, base, upper)[i]]
            0 <= i < radix_text(n, base, upper).len() ==> exists|d: nat|
                d < base && radix_text(n, base, upper)[i] == #[trigger] digit_char(d, upper),
    decreases n,
{
    let t = radix_text(n, base, upper);
    if n < base {
        assert(t[0] == digit_char(n, upper));
    } else {
        assert(n / base < n) by (nonlinear_arith)
            requires
                n >= base,
                base >= 2,
        ;
        lemma_radix_text_digits(n / base, base, upper);
        let head = radix_text(n / base, base, upper);
        assert forall|i: int| #![trigger t[i]] 0 <= i < t.len() implies exists|d: nat|
            d < base && t[i] == #[trigger] digit_char(d, upper) by {
            if i < head.len() {
                assert(t[i] == head[i]);
            } else {
                assert(n % base < base);
                assert(t[i] == digit_char(n % base, upper));
            }
        }
    }
}

} // verus!
