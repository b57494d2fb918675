//! Splitting text at separators and at white space.

use vstd::prelude::*;

use super::{char_texts, range_of};

verus! {

/// The index of the first `c` in `s`, or the length of `s` if there is none.
pub open spec fn first_index(s: Seq<char>, c: char) -> int
    decreases s.len(),
{
    if s.len() == 0 || s[0] == c {
        0
    } else {
        1 + first_index(s.skip(1), c)
    }
}

/// The pieces of `s` between occurrences of `sep`. There is always at least
/// one piece.
pub open spec fn pieces(s: Seq<char>, sep: char) -> Seq<Seq<char>>
    decreases s.len(),
{
    let i = first_index(s, sep);
    if 0 <= i < s.len() {
        seq![s.take(i)] + pieces(s.skip(i + 1), sep)
    } else {
        seq![s]
    }
}

/// The two parts of `s` around the first `sep`.
pub open spec fn cut_once(s: Seq<char>, sep: char) -> Option<(Seq<char>, Seq<char>)> {
    let i = first_index(s, sep);
    if i < s.len() {
        Some((s.take(i), s.skip(i + 1)))
    } else {
        None
    }
}

/// `s` without its leading `c` characters.
pub open spec fn without_leading(s: Seq<char>, c: char) -> Seq<char>
    decreases s.len(),
{
    if s.len() > 0 && s[0] == c {
        without_leading(s.skip(1), c)
    } else {
        s
    }
}

/// The characters with the Unicode `White_Space` property.
pub open spec fn white_space(c: char) -> bool {
    ||| '\u{9}' <= c <= '\u{d}'
    ||| c == '\u{20}'
    ||| c == '\u{85}'
    ||| c == '\u{a0}'
    ||| c == '\u{1680}'
    ||| '\u{2000}' <= c <= '\u{200a}'
    ||| c == '\u{2028}'
    ||| c == '\u{2029}'
    ||| c == '\u{202f}'
    ||| c == '\u{205f}'
    ||| c == '\u{3000}'
}

/// The length of the run of characters at the start of `s` that are not white
/// space.
pub open spec fn word_len(s: Seq<char>) -> int
    decreases s.len(),
{
    if s.len() == 0 || white_space(s[0]) {
        0
    } else {
        1 + word_len(s.skip(1))
    }
}

/// The words of `s`: its maximal runs of characters that are not white space.
pub open spec fn words(s: Seq<char>) -> Seq<Seq<char>>
    decreases s.len(),
{
    if s.len() == 0 {
        Seq::empty()
    } else if white_space(s[0]) {
        words(s.skip(1))
    } else {
        let n = word_len(s);
        if 0 < n <= s.len() {
            seq![s.take(n)] + words(s.skip(n))
        } else {
            Seq::empty()
        }
    }
}

/// `s` without white space at its start.
pub open spec fn trimmed_start(s: Seq<char>) -> Seq<char>
    decreases s.len(),
{
    if s.len() > 0 && white_space(s[0]) {
        trimmed_start(s.skip(1))
    } else {
        s
    }
}

/// `s` without white space at its end.
pub open spec fn trimmed_end(s: Seq<char>) -> Seq<char>
    decreases s.len(),
{
    if s.len() > 0 && white_space(s.last()) {
        trimmed_end(s.drop_last())
    } else {
        s
    }
}

/// `s` without white space at either end.
pub open spec fn trimmed(s: Seq<char>) -> Seq<char> {
    trimmed_end(trimmed_start(s))
}

/// `first_index` finds the first occurrence.
pub proof fn lemma_first_index(s: Seq<char>, c: char)
    ensures
        0 <= first_index(s, c) <= s.len(),
        first_index(s, c) < s.len() ==> s[first_index(s, c)] == c,
        forall|i: int| 0 <= i < first_index(s, c) ==> s[i] != c,
    decreases s.len(),
{
    if s.len() > 0 && s[0] != c {
        lemma_first_index(s.skip(1), c);
        assert forall|i: int| 0 <= i < first_index(s, c) implies s[i] != c by {
            if i > 0 {
                assert(s[i] == s.skip(1)[i - 1]);
            }
        }
    }
}

/// Where the first occurrence is, `first_index` finds it.
pub proof fn lemma_first_index_is(s: Seq<char>, c: char, n: int)
    requires
        0 <= n <= s.len(),
        n < s.len() ==> s[n] == c,
        forall|i: int| 0 <= i < n ==> s[i] != c,
    ensures
        first_index(s, c) == n,
{
    lemma_first_index(s, c);
    let m = first_index(s, c);
    if m < n {
        assert(s[m] != c);
    }
}

/// `word_len` counts the leading characters that are not white space.
proof fn lemma_word_len(s: Seq<char>)
    ensures
        0 <= word_len(s) <= s.len(),
        word_len(s) < s.len() ==> white_space(s[word_len(s)]),
        forall|i: int| 0 <= i < word_len(s) ==> !white_space(#[trigger] s[i]),
    decreases s.len(),
{
    if s.len() > 0 && !white_space(s[0]) {
        lemma_word_len(s.skip(1));
        assert forall|i: int| 0 <= i < word_len(s) implies !white_space(#[trigger] s[i]) by {
            if i > 0 {
                assert(s[i] == s.skip(1)[i - 1]);
            }
        }
    }
}

/// A text that is one word.
pub open spec fn is_word(w: Seq<char>) -> bool {
    w.len() > 0 && forall|i: int| 0 <= i < w.len() ==> !white_space(#[trigger] w[i])
}

/// Some words with a single space between each two of them.
pub open spec fn spaced(ws: Seq<Seq<char>>) -> Seq<char>
    decreases ws.len(),
{
    if ws.len() == 0 {
        Seq::empty()
    } else if ws.len() == 1 {
        ws[0]
    } else {
        ws[0].push(' ') + spaced(ws.skip(1))
    }
}

/// The words of a text are words.
pub proof fn lemma_words_are_words(s: Seq<char>)
    ensures
        forall|i: int| 0 <= i < words(s).len() ==> is_word(#[trigger] words(s)[i]),
    decreases s.len(),
{
    if s.len() > 0 {
        if white_space(s[0]) {
            lemma_words_are_words(s.skip(1));
            assert(words(s) == words(s.skip(1)));
        } else {
            let n = word_len(s);
            lemma_word_len(s);
            lemma_words_are_words(s.skip(n));
            assert forall|i: int| 0 <= i < words(s).len() implies is_word(
                #[trigger] words(s)[i],
            ) by {
                if i == 0 {
                    assert(words(s)[0] == s.take(n));
                } else {
                    assert(words(s)[i] == words(s.skip(n))[i - 1]);
                }
            }
        }
    }
}

/// A word at the start of a text is as long as it reaches.
proof fn lemma_word_len_is(s: Seq<char>, n: int)
    requires
        0 <= n <= s.len(),
        n < s.len() ==> white_space(s[n]),
        forall|i: int| 0 <= i < n ==> !white_space(#[trigger] s[i]),
    ensures
        word_len(s) == n,
{
    lemma_word_len(s);
    let m = word_len(s);
    if m < n {
        assert(!white_space(s[m]));
    }
    if n < m {
        assert(!white_space(s[n]));
    }
}

/// Words that are written with spaces between them are read as they are.
pub proof fn lemma_words_spaced(ws: Seq<Seq<char>>)
    requires
        forall|i: int| 0 <= i < ws.len() ==> is_word(#[trigger] ws[i]),
    ensures
        words(spaced(ws)) == ws,
    decreases ws.len(),
{
    if ws.len() > 0 {
        let s = spaced(ws);
        let first = ws[0];
        let n = first.len() as int;
        assert(is_word(first));
        assert forall|i: int| 0 <= i < n implies !white_space(#[trigger] s[i]) by {
            assert(s[i] == first[i]);
        }
        lemma_word_len_is(s, n);
        assert(s.take(n) =~= first);
        assert(!white_space(s[0]));
        if ws.len() == 1 {
            assert(words(s.skip(n)) =~= Seq::<Seq<char>>::empty());
            assert(words(s) == seq![s.take(n)] + words(s.skip(n)));
            assert(words(s) =~= ws);
        } else {
            let rest = ws.skip(1);
            lemma_words_spaced(rest);
            assert(s.skip(n)[0] == ' ');
            assert(s.skip(n).skip(1) =~= spaced(rest));
            assert(words(s.skip(n)) == rest);
            assert(words(s) =~= ws);
        }
    }
}

/// Text that neither starts nor ends with white space is trimmed already.
pub proof fn lemma_trimmed_is(s: Seq<char>)
    requires
        s.len() > 0 ==> !white_space(s[0]) && !white_space(s.last()),
    ensures
        trimmed(s) == s,
{
}

/// Splitting two texts with a separator between them splits each of them.
pub proof fn lemma_pieces_joined(a: Seq<char>, sep: char, b: Seq<char>)
    ensures
        pieces(a.push(sep) + b, sep) == pieces(a, sep) + pieces(b, sep),
    decreases a.len(),
{
    let s = a.push(sep) + b;
    let i = first_index(a, sep);
    lemma_first_index(a, sep);
    lemma_first_index_is(s, sep, i);
    if i < a.len() {
        lemma_pieces_joined(a.skip(i + 1), sep, b);
        assert(s.skip(i + 1) =~= a.skip(i + 1).push(sep) + b);
        assert(s.take(i) =~= a.take(i));
        assert(pieces(s, sep) =~= pieces(a, sep) + pieces(b, sep));
    } else {
        assert(s.skip(i + 1) =~= b);
        assert(s.take(i) =~= a);
    }
}

/// A text without the separator is one piece.
pub proof fn lemma_one_piece(a: Seq<char>, sep: char)
    requires
        !a.contains(sep),
    ensures
        pieces(a, sep) == seq![a],
{
    lemma_first_index(a, sep);
}

/// Whether `c` is white space.
pub fn is_white_space(c: char) -> (r: bool)
    ensures
        r == white_space(c),
{
    ('\u{9}' <= c && c <= '\u{d}') || c == '\u{20}' || c == '\u{85}' || c == '\u{a0}' || c
        == '\u{1680}' || ('\u{2000}' <= c && c <= '\u{200a}') || c == '\u{2028}' || c == '\u{2029}'
        || c == '\u{202f}' || c == '\u{205f}' || c == '\u{3000}'
}

/// Find the first `c` at or after `from`.
fn find_from(s: &[char], from: usize, c: char) -> (r: usize)
    requires
        from <= s@.len(),
    ensures
        from <= r <= s@.len(),
        r == from + first_index(s@.skip(from as int), c),
{
    let mut i: usize = from;
    while i < s.len() && s[i] != c
        invariant
            from <= i <= s@.len(),
            forall|j: int| from <= j < i ==> s@[j] != c,
        decreases s.len() - i,
    {
        i += 1;
    }
    proof {
        let t = s@.skip(from as int);
        let n = i - from;
        assert forall|j: int| 0 <= j < n implies t[j] != c by {
            assert(t[j] == s@[j + from]);
        }
        assert(n < t.len() ==> t[n] == s@[i as int]);
        lemma_first_index_is(t, c, n);
    }
    i
}

/// Split at every `sep`.
pub fn split_on(s: &[char], sep: char) -> (r: Vec<Vec<char>>)
    ensures
        char_texts(r@) == pieces(s@, sep),
{
    let mut out: Vec<Vec<char>> = Vec::new();
    let mut from: usize = 0;
    assert(s@.skip(0) =~= s@);
    loop
        invariant
            from <= s@.len(),
            pieces(s@, sep) == char_texts(out@) + pieces(s@.skip(from as int), sep),
        decreases s.len() - from,
    {
        let end = find_from(s, from, sep);
        let piece = range_of(s, from, end);
        let ghost rest = s@.skip(from as int);
        let ghost before = out@;
        assert(piece@ =~= rest.take(end - from));
        out.push(piece);
        assert(char_texts(out@) =~= char_texts(before).push(rest.take(end - from)));
        if end == s.len() {
            assert(rest.take(end - from) =~= rest);
            assert(char_texts(out@) =~= pieces(s@, sep));
            return out;
        }
        assert(rest.skip(end - from + 1) =~= s@.skip(end + 1));
        assert(char_texts(before) + pieces(rest, sep) =~= char_texts(out@) + pieces(
            s@.skip(end + 1),
            sep,
        ));
        from = end + 1;
    }
}

/// Cut at the first `sep`.
pub fn split_once(s: &[char], sep: char) -> (r: Option<(Vec<char>, Vec<char>)>)
    ensures
        (match r {
            Some((a, b)) => cut_once(s@, sep) == Some((a@, b@)),
            None => cut_once(s@, sep) is None,
        }),
{
    assert(s@.skip(0) =~= s@);
    let i = find_from(s, 0, sep);
    if i == s.len() {
        return None;
    }
    let a = range_of(s, 0, i);
    let b = range_of(s, i + 1, s.len());
    assert(a@ =~= s@.take(i as int));
    assert(b@ =~= s@.skip(i + 1));
    Some((a, b))
}

/// Drop the leading `c` characters.
pub fn trim_leading(s: &[char], c: char) -> (r: Vec<char>)
    ensures
        r@ == without_leading(s@, c),
{
    let mut i: usize = 0;
    assert(s@.skip(0) =~= s@);
    while i < s.len() && s[i] == c
        invariant
            i <= s@.len(),
            without_leading(s@, c) == without_leading(s@.skip(i as int), c),
        decreases s.len() - i,
    {
        assert(s@.skip(i as int).skip(1) =~= s@.skip(i + 1));
        i += 1;
    }
    range_of(s, i, s.len())
}

/// The words of `s`.
pub fn split_words(s: &[char]) -> (r: Vec<Vec<char>>)
    ensures
        char_texts(r@) == words(s@),
{
    let mut out: Vec<Vec<char>> = Vec::new();
    let mut i: usize = 0;
    assert(s@.skip(0) =~= s@);
    assert(char_texts(out@) + words(s@) =~= words(s@));
    while i < s.len()
        invariant
            i <= s@.len(),
            words(s@) == char_texts(out@) + words(s@.skip(i as int)),
        decreases s.len() - i,
    {
        let ghost rest = s@.skip(i as int);
        if is_white_space(s[i]) {
            assert(rest.skip(1) =~= s@.skip(i + 1));
            i += 1;
        } else {
            let start = i;
            while i < s.len() && !is_white_space(s[i])
                invariant
                    start <= i <= s@.len(),
                    forall|j: int| start <= j < i ==> !white_space(#[trigger] s@[j]),
                decreases s.len() - i,
            {
                i += 1;
            }
            let ghost n = i - start;
            let ghost before = out@;
            let word = range_of(s, start, i);
            proof {
                lemma_word_len(rest);
                let m = word_len(rest);
                if m < n {
                    assert(rest[m] == s@[m + start]);
                }
                if n < m {
                    assert(rest[n] == s@[i as int]);
                }
                assert(m == n);
                assert(word@ =~= rest.take(n));
                assert(rest.skip(n) =~= s@.skip(i as int));
            }
            out.push(word);
            assert(char_texts(out@) =~= char_texts(before).push(rest.take(n)));
            assert(char_texts(before) + words(rest) =~= char_texts(out@) + words(s@.skip(i as int)));
        }
    }
    assert(s@.skip(s@.len() as int) =~= Seq::<char>::empty());
    assert(char_texts(out@) + Seq::<Seq<char>>::empty() =~= char_texts(out@));
    out
}

/// Drop white space at both ends.
pub fn trim(s: &[char]) -> (r: Vec<char>)
    ensures
        r@ == trimmed(s@),
{
    let mut i: usize = 0;
    assert(s@.skip(0) =~= s@);
    while i < s.len() && is_white_space(s[i])
        invariant
            i <= s@.len(),
            trimmed_start(s@) == trimmed_start(s@.skip(i as int)),
        decreases s.len() - i,
    {
        assert(s@.skip(i as int).skip(1) =~= s@.skip(i + 1));
        i += 1;
    }
    let ghost rest = s@.skip(i as int);
    let mut end: usize = s.len();
    assert(s@.subrange(i as int, end as int) =~= rest);
    while end > i && is_white_space(s[end - 1])
        invariant
            i <= end <= s@.len(),
            trimmed_end(rest) == trimmed_end(s@.subrange(i as int, end as int)),
        decreases end,
    {
        let ghost cur = s@.subrange(i as int, end as int);
        assert(cur.last() == s@[end - 1]);
        assert(cur.drop_last() =~= s@.subrange(i as int, end - 1));
        end -= 1;
    }
    range_of(s, i, end)
}

} // verus!
