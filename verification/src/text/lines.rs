//! Counting lines.

use vstd::prelude::*;

use super::all_texts;
use super::digits::{lemma_radix_text_digits, padded, radix_text};

verus! {

/// How many newlines a text holds.
pub open spec fn newlines(s: Seq<char>) -> nat
    decreases s.len(),
{
    if s.len() == 0 {
        0
    } else {
        newlines(s.drop_last()) + (if s.last() == '\n' {
            1nat
        } else {
            0
        })
    }
}

/// Newlines add up.
pub proof fn lemma_newlines_joined(a: Seq<char>, b: Seq<char>)
    ensures
        newlines(a + b) == newlines(a) + newlines(b),
    decreases b.len(),
{
    if b.len() == 0 {
        assert(a + b =~= a);
    } else {
        lemma_newlines_joined(a, b.drop_last());
        assert((a + b).drop_last() =~= a + b.drop_last());
    }
}

/// A text without a newline has none.
pub proof fn lemma_no_newlines(s: Seq<char>)
    requires
        !s.contains('\n'),
    ensures
        newlines(s) == 0,
    decreases s.len(),
{
    if s.len() > 0 {
        assert(s.contains(s.last()));
        assert(!s.drop_last().contains('\n')) by {
            if s.drop_last().contains('\n') {
                let i = s.drop_last().index_of('\n');
                assert(s[i] == '\n');
            }
        }
        lemma_no_newlines(s.drop_last());
    }
}

/// Numbers hold no newline, filled up or not.
pub proof fn lemma_number_has_no_newline(n: nat, base: nat, upper: bool, width: nat, fill: char)
    requires
        2 <= base <= 16,
        fill != '\n',
    ensures
        newlines(radix_text(n, base, upper)) == 0,
        newlines(padded(radix_text(n, base, upper), width, fill)) == 0,
{
    let s = radix_text(n, base, upper);
    lemma_radix_text_digits(n, base, upper);
    assert(!s.contains('\n'));
    lemma_no_newlines(s);
    let p = padded(s, width, fill);
    assert(!p.contains('\n')) by {
        if p.contains('\n') && s.len() < width {
            let i = p.index_of('\n');
            let k = i - (width - s.len());
            assert(k >= 0 ==> p[i] == s[k]);
        }
    }
    lemma_no_newlines(p);
}

/// Texts that are one line each give as many lines as there are texts.
pub proof fn lemma_one_line_each<T>(items: Seq<T>, text: spec_fn(T) -> Seq<char>)
    requires
        forall|i: int| 0 <= i < items.len() ==> newlines(text(#[trigger] items[i])) == 1,
    ensures
        newlines(all_texts(items, text)) == items.len(),
    decreases items.len(),
{
    if items.len() > 0 {
        assert forall|i: int| 0 <= i < items.drop_last().len() implies newlines(
            text(#[trigger] items.drop_last()[i]),
        ) == 1 by {
            assert(items[i] == items.drop_last()[i]);
        }
        lemma_one_line_each(items.drop_last(), text);
        lemma_newlines_joined(all_texts(items.drop_last(), text), text(items.last()));
        assert(newlines(text(items[items.len() - 1])) == 1);
    }
}

} // verus!
