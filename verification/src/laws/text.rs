//! Splitting text: what comes out puts together what went in.

use vstd::prelude::*;

use crate::gdb::target::inspect::text_of_packet;
use crate::text::split::{
    cut_once, first_index, is_white_space, lemma_first_index, pieces, split_on, split_once,
    split_words, trim, trim_leading, trimmed, trimmed_end, trimmed_start, white_space,
    without_leading, word_len, words,
};
use crate::text::{
    char_texts, chars_of, has_prefix, range_of, string_of, tail_of, text_is,
};

verus! {

/// White space is the ASCII control characters from tab to carriage return, the
/// space, and the spaces and line breaks of Unicode.
pub proof fn law_white_space(c: char, r: bool)
    requires
        call_ensures(is_white_space, (c,), r),
    ensures
        r <==> {
            let n = c as u32;
            9 <= n <= 13 || n == 32 || n == 0x85 || n == 0xa0 || n == 0x1680 || 0x2000 <= n
                <= 0x200a || n == 0x2028 || n == 0x2029 || n == 0x202f || n == 0x205f || n == 0x3000
        },
{
}

/// Some texts with a separator between each two of them.
pub open spec fn joined(parts: Seq<Seq<char>>, sep: char) -> Seq<char>
    decreases parts.len(),
{
    if parts.len() == 0 {
        Seq::empty()
    } else if parts.len() == 1 {
        parts[0]
    } else {
        parts[0].push(sep) + joined(parts.skip(1), sep)
    }
}

/// The pieces hold no separator, and with separators between them they are the
/// text.
pub proof fn law_pieces(s: &[char], sep: char, r: Vec<Vec<char>>)
    requires
        call_ensures(split_on, (s, sep), r),
    ensures
        r@.len() > 0,
        forall|i: int| 0 <= i < r@.len() ==> !(#[trigger] r@[i])@.contains(sep),
        joined(char_texts(r@), sep) == s@,
{
    lemma_pieces(s@, sep);
    assert forall|i: int| 0 <= i < r@.len() implies !(#[trigger] r@[i])@.contains(sep) by {
        assert(char_texts(r@)[i] == r@[i]@);
    }
}

proof fn lemma_pieces(s: Seq<char>, sep: char)
    ensures
        pieces(s, sep).len() > 0,
        forall|i: int|
            0 <= i < pieces(s, sep).len() ==> !(#[trigger] pieces(s, sep)[i]).contains(sep),
        joined(pieces(s, sep), sep) == s,
    decreases s.len(),
{
    let i = first_index(s, sep);
    let all = pieces(s, sep);
    lemma_first_index(s, sep);
    if i < s.len() {
        let rest = s.skip(i + 1);
        lemma_pieces(rest, sep);
        assert(all.skip(1) =~= pieces(rest, sep));
        assert(all[0] == s.take(i));
        assert(s.take(i).push(sep) + rest =~= s);
        assert forall|k: int| 0 <= k < all.len() implies !(#[trigger] all[k]).contains(sep) by {
            if k > 0 {
                assert(all[k] == pieces(rest, sep)[k - 1]);
            }
        }
    }
}

/// A text is cut at its first separator, if it has one.
pub proof fn law_cut(s: &[char], sep: char, r: Option<(Vec<char>, Vec<char>)>)
    requires
        call_ensures(split_once, (s, sep), r),
    ensures
        r is None <==> !s@.contains(sep),
        r matches Some((a, b)) ==> !a@.contains(sep) && a@.push(sep) + b@ == s@,
{
    lemma_first_index(s@, sep);
    let i = first_index(s@, sep);
    if i < s@.len() {
        assert(s@[i] == sep);
        assert(s@.take(i).push(sep) + s@.skip(i + 1) =~= s@);
    }
    assert(cut_once(s@, sep) is Some <==> i < s@.len());
}

/// Only white space.
pub open spec fn is_blank(s: Seq<char>) -> bool {
    forall|i: int| 0 <= i < s.len() ==> white_space(#[trigger] s[i])
}

/// Words are read one after the other: white space before a word is passed over,
/// and the word reaches to the next white space. A blank text has no words.
pub proof fn law_words(
    lead: Seq<char>,
    word: Seq<char>,
    s: &[char],
    r: Vec<Vec<char>>,
    tail: &[char],
    q: Vec<Vec<char>>,
    blank: &[char],
    none: Vec<Vec<char>>,
)
    requires
        is_blank(lead),
        word.len() > 0,
        forall|i: int| 0 <= i < word.len() ==> !white_space(#[trigger] word[i]),
        tail@.len() > 0 ==> white_space(tail@[0]),
        s@ == lead + word + tail@,
        call_ensures(split_words, (s,), r),
        call_ensures(split_words, (tail,), q),
        is_blank(blank@),
        call_ensures(split_words, (blank,), none),
    ensures
        char_texts(r@) == seq![word] + char_texts(q@),
        none@.len() == 0,
{
    lemma_lead(lead, word + tail@);
    assert(lead + (word + tail@) =~= s@);
    lemma_word(word, tail@);
    lemma_lead(blank@, Seq::empty());
    assert(blank@ + Seq::<char>::empty() =~= blank@);
    assert(words(blank@).len() == 0);
    assert(char_texts(none@).len() == none@.len());
}

proof fn lemma_lead(lead: Seq<char>, rest: Seq<char>)
    requires
        is_blank(lead),
    ensures
        words(lead + rest) == words(rest),
        trimmed_start(lead + rest) == trimmed_start(rest),
    decreases lead.len(),
{
    if lead.len() == 0 {
        assert(lead + rest =~= rest);
    } else {
        assert(white_space(lead[0]));
        assert((lead + rest)[0] == lead[0]);
        assert((lead + rest).skip(1) =~= lead.skip(1) + rest);
        assert forall|i: int| 0 <= i < lead.skip(1).len() implies white_space(
            #[trigger] lead.skip(1)[i],
        ) by {
            assert(white_space(lead[i + 1]));
        }
        lemma_lead(lead.skip(1), rest);
    }
}

proof fn lemma_word(word: Seq<char>, tail: Seq<char>)
    requires
        word.len() > 0,
        forall|i: int| 0 <= i < word.len() ==> !white_space(#[trigger] word[i]),
        tail.len() > 0 ==> white_space(tail[0]),
    ensures
        words(word + tail) == seq![word] + words(tail),
{
    let s = word + tail;
    lemma_word_len(word, tail);
    assert(!white_space(word[0]));
    assert(s[0] == word[0]);
    assert(s.take(word.len() as int) =~= word);
    assert(s.skip(word.len() as int) =~= tail);
}

proof fn lemma_word_len(word: Seq<char>, tail: Seq<char>)
    requires
        forall|i: int| 0 <= i < word.len() ==> !white_space(#[trigger] word[i]),
        tail.len() > 0 ==> white_space(tail[0]),
    ensures
        word_len(word + tail) == word.len(),
    decreases word.len(),
{
    let s = word + tail;
    if word.len() == 0 {
        assert(s =~= tail);
    } else {
        assert(!white_space(word[0]));
        assert(s[0] == word[0]);
        assert(s.skip(1) =~= word.skip(1) + tail);
        assert forall|i: int| 0 <= i < word.skip(1).len() implies !white_space(
            #[trigger] word.skip(1)[i],
        ) by {
            assert(!white_space(word[i + 1]));
        }
        lemma_word_len(word.skip(1), tail);
    }
}

/// Trimming takes the white space from both ends and nothing else.
pub proof fn law_trimmed(
    lead: Seq<char>,
    core: Seq<char>,
    tail: Seq<char>,
    s: &[char],
    r: Vec<char>,
)
    requires
        is_blank(lead),
        is_blank(tail),
        core.len() > 0 ==> !white_space(core[0]) && !white_space(core.last()),
        s@ == lead + core + tail,
        call_ensures(trim, (s,), r),
    ensures
        r@ == core,
{
    lemma_trimmed(lead, core, tail);
}

/// White space at both ends is what trimming takes.
pub proof fn lemma_trimmed(lead: Seq<char>, core: Seq<char>, tail: Seq<char>)
    requires
        is_blank(lead),
        is_blank(tail),
        core.len() > 0 ==> !white_space(core[0]) && !white_space(core.last()),
    ensures
        trimmed(lead + core + tail) == core,
{
    lemma_lead(lead, core + tail);
    assert(lead + (core + tail) =~= lead + core + tail);
    if core.len() > 0 {
        assert((core + tail)[0] == core[0]);
        lemma_tail(core, tail);
    } else {
        assert(core + tail =~= tail);
        lemma_lead(tail, Seq::empty());
        assert(tail + Seq::<char>::empty() =~= tail);
        assert(trimmed_start(Seq::<char>::empty()).len() == 0);
        assert(trimmed(lead + core + tail) =~= core);
    }
}

proof fn lemma_tail(core: Seq<char>, tail: Seq<char>)
    requires
        is_blank(tail),
        core.len() > 0,
        !white_space(core.last()),
    ensures
        trimmed_end(core + tail) == core,
    decreases tail.len(),
{
    let s = core + tail;
    if tail.len() == 0 {
        assert(s =~= core);
    } else {
        assert(white_space(tail[tail.len() - 1]));
        assert(s.last() == tail.last());
        assert(s.drop_last() =~= core + tail.drop_last());
        assert forall|i: int| 0 <= i < tail.drop_last().len() implies white_space(
            #[trigger] tail.drop_last()[i],
        ) by {
            assert(white_space(tail[i]));
        }
        lemma_tail(core, tail.drop_last());
    }
}

/// Leading characters of one kind are dropped, and nothing else.
pub proof fn law_leading(n: nat, c: char, core: Seq<char>, s: &[char], r: Vec<char>)
    requires
        core.len() > 0 ==> core[0] != c,
        s@ == Seq::new(n, |i: int| c) + core,
        call_ensures(trim_leading, (s, c), r),
    ensures
        r@ == core,
{
    lemma_leading(n, c, core);
}

/// As many characters in front as there are, all are dropped.
pub proof fn lemma_leading(n: nat, c: char, core: Seq<char>)
    requires
        core.len() > 0 ==> core[0] != c,
    ensures
        without_leading(Seq::new(n, |i: int| c) + core, c) == core,
    decreases n,
{
    let s = Seq::new(n, |i: int| c) + core;
    if n == 0 {
        assert(s =~= core);
    } else {
        assert(s[0] == c);
        assert(s.skip(1) =~= Seq::new((n - 1) as nat, |i: int| c) + core);
        lemma_leading((n - 1) as nat, c, core);
    }
}

/// The text of a packet is the one that was encoded.
pub proof fn law_packet_text(text: Seq<char>, body: &[u8], r: String)
    requires
        body@ == vstd::utf8::encode_utf8(text),
        call_ensures(text_of_packet, (body,), r),
    ensures
        r@ == text,
{
    vstd::utf8::encode_utf8_valid_utf8(text);
    vstd::utf8::encode_utf8_decode_utf8(text);
}

/// Texts are compared character by character.
pub proof fn law_same_text(a: &str, b: &str, r: bool)
    requires
        call_ensures(text_is, (a, b), r),
    ensures
        r <==> a@.len() == b@.len() && forall|i: int|
            0 <= i < a@.len() ==> #[trigger] a@[i] == b@[i],
{
    if a@.len() == b@.len() && forall|i: int| 0 <= i < a@.len() ==> #[trigger] a@[i] == b@[i] {
        assert(a@ =~= b@);
    }
}

/// Parts of a text, by where they start and end.
pub proof fn law_parts(
    v: &[char],
    from: usize,
    to: usize,
    part: Vec<char>,
    tail: Vec<char>,
    text: &str,
    chars: Vec<char>,
    again: String,
    i: int,
)
    requires
        from <= to <= v@.len(),
        call_ensures(range_of, (v, from, to), part),
        call_ensures(tail_of, (v, from), tail),
        call_ensures(chars_of, (text,), chars),
        call_ensures(string_of, (v,), again),
    ensures
        part@.len() == to - from,
        0 <= i < part@.len() ==> part@[i] == v@[from + i],
        tail@.len() == v@.len() - from,
        0 <= i < tail@.len() ==> tail@[i] == v@[from + i],
        chars@ == text@,
        again@ == v@,
{
}

/// A text has a prefix if another text behind the prefix makes it up.
pub proof fn law_prefixes(s: &[char], prefix: &str, r: bool)
    requires
        call_ensures(has_prefix, (s, prefix), r),
    ensures
        r <==> exists|rest: Seq<char>| s@ == #[trigger] (prefix@ + rest),
{
    if r {
        assert(s@ =~= prefix@ + s@.skip(prefix@.len() as int));
    }
    if exists|rest: Seq<char>| s@ == #[trigger] (prefix@ + rest) {
        let rest = choose|rest: Seq<char>| s@ == #[trigger] (prefix@ + rest);
        assert(s@.take(prefix@.len() as int) =~= prefix@);
    }
}

} // verus!
