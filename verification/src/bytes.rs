//! Little-endian numbers.

use vstd::prelude::*;

verus! {

/// 256 to the power of `len`.
pub open spec fn pow256(len: nat) -> nat
    decreases len,
{
    if len == 0 {
        1
    } else {
        256 * pow256((len - 1) as nat)
    }
}

/// The `len` low bytes of `n`, the lowest first.
pub open spec fn le_bytes(n: nat, len: nat) -> Seq<u8>
    decreases len,
{
    if len == 0 {
        Seq::empty()
    } else {
        seq![(n % 256) as u8] + le_bytes(n / 256, (len - 1) as nat)
    }
}

/// The number that bytes spell, the lowest first.
pub open spec fn le_value(s: Seq<u8>) -> nat
    decreases s.len(),
{
    if s.len() == 0 {
        0
    } else {
        s[0] as nat + 256 * le_value(s.skip(1))
    }
}

/// `le_bytes` yields as many bytes as asked for.
pub broadcast proof fn lemma_le_bytes_len(n: nat, len: nat)
    ensures
        (#[trigger] le_bytes(n, len)).len() == len,
    decreases len,
{
    if len > 0 {
        lemma_le_bytes_len(n / 256, (len - 1) as nat);
    }
}

/// Reading back what was written.
pub proof fn lemma_value_of_bytes(n: nat, len: nat)
    requires
        n < pow256(len),
    ensures
        le_value(le_bytes(n, len)) == n,
    decreases len,
{
    if len > 0 {
        lemma_value_of_bytes(n / 256, (len - 1) as nat);
        assert(le_bytes(n, len).skip(1) =~= le_bytes(n / 256, (len - 1) as nat));
    }
}

/// Writing back what was read.
pub proof fn lemma_bytes_of_value(s: Seq<u8>)
    ensures
        le_value(s) < pow256(s.len()),
        le_bytes(le_value(s), s.len()) == s,
    decreases s.len(),
{
    if s.len() > 0 {
        lemma_bytes_of_value(s.skip(1));
        assert(le_value(s) % 256 == s[0]);
        assert(le_value(s) / 256 == le_value(s.skip(1)));
        assert(le_bytes(le_value(s), s.len()) =~= s);
    }
}

/// Zero is spelled by zeros.
pub proof fn lemma_zero(len: nat)
    ensures
        forall|i: int| 0 <= i < len ==> #[trigger] le_bytes(0, len)[i] == 0,
    decreases len,
{
    broadcast use lemma_le_bytes_len;

    if len > 0 {
        lemma_zero((len - 1) as nat);
        assert forall|i: int| 0 <= i < len implies #[trigger] le_bytes(0, len)[i] == 0 by {
            if i > 0 {
                assert(le_bytes(0, len)[i] == le_bytes(0, (len - 1) as nat)[i - 1]);
            }
        }
    }
}

/// Zeros spell zero.
pub proof fn lemma_zeros(s: Seq<u8>)
    requires
        forall|i: int| 0 <= i < s.len() ==> s[i] == 0,
    ensures
        le_value(s) == 0,
    decreases s.len(),
{
    if s.len() > 0 {
        lemma_zeros(s.skip(1));
    }
}

/// The widths of the machine's numbers.
pub proof fn lemma_widths()
    ensures
        pow256(4) == 0x1_0000_0000,
        pow256(8) == 0x1_0000_0000_0000_0000,
        pow256(16) == 0x1_0000_0000_0000_0000_0000_0000_0000_0000,
{
    reveal_with_fuel(pow256, 17);
}

/// A longer sequence has the larger power.
proof fn lemma_pow256_grows(a: nat, b: nat)
    requires
        a <= b,
    ensures
        0 < pow256(a) <= pow256(b),
    decreases b,
{
    if b > 0 {
        if a < b {
            lemma_pow256_grows(a, (b - 1) as nat);
        } else {
            lemma_pow256_grows((a - 1) as nat, (b - 1) as nat);
        }
    }
}

/// Append the `len` low bytes of `n`, the lowest first.
pub fn push_le(out: &mut Vec<u8>, n: u128, len: usize)
    ensures
        final(out)@ == old(out)@ + le_bytes(n as nat, len as nat),
{
    let mut rest: u128 = n;
    let mut left: usize = len;
    assert(out@ + le_bytes(rest as nat, left as nat) =~= old(out)@ + le_bytes(
        n as nat,
        len as nat,
    ));
    while left > 0
        invariant
            out@ + le_bytes(rest as nat, left as nat) == old(out)@ + le_bytes(n as nat, len as nat),
        decreases left,
    {
        let ghost before = out@;
        out.push((rest % 256) as u8);
        assert(out@ + le_bytes((rest / 256) as nat, (left - 1) as nat) =~= before + le_bytes(
            rest as nat,
            left as nat,
        ));
        rest = rest / 256;
        left = left - 1;
    }
    assert(out@ =~= out@ + le_bytes(rest as nat, left as nat));
}

/// The number that up to sixteen bytes spell, the lowest first.
pub fn le_number(s: &[u8]) -> (r: u128)
    requires
        s@.len() <= 16,
    ensures
        r == le_value(s@),
{
    let mut value: u128 = 0;
    let mut i: usize = s.len();
    assert(s@.skip(i as int) =~= Seq::<u8>::empty());
    while i > 0
        invariant
            i <= s@.len() <= 16,
            value == le_value(s@.skip(i as int)),
        decreases i,
    {
        let ghost tail = s@.skip(i as int);
        i = i - 1;
        proof {
            let longer = s@.skip(i as int);
            assert(longer.skip(1) =~= tail);
            lemma_bytes_of_value(longer);
            lemma_pow256_grows(longer.len(), 16);
            lemma_widths();
        }
        value = s[i] as u128 + 256 * value;
    }
    assert(s@.skip(0) =~= s@);
    value
}

} // verus!
