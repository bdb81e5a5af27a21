//! Words, lines and substrings of text.

use vstd::prelude::*;

verus! {

/// Whether a character separates words: the Unicode property `White_Space`.
pub open spec fn is_space(c: char) -> bool {
    ||| '\u{9}' <= c <= '\u{d}'
    ||| c == ' '
    ||| c == '\u{85}'
    ||| c == '\u{a0}'
    ||| c == '\u{1680}'
    ||| '\u{2000}' <= c <= '\u{200a}'
    ||| c == '\u{2028}'
    ||| c == '\u{2029}'
    ||| c == '\u{202f}'
    ||| c == '\u{205f}'
    ||| c == '\u{3000}'
}

/// Whether a character separates words.
pub fn is_white_space(c: char) -> (r: bool)
    ensures
        r == is_space(c),
{
    ('\u{9}' <= c && c <= '\u{d}') || c == ' ' || c == '\u{85}' || c == '\u{a0}' || c == '\u{1680}'
        || ('\u{2000}' <= c && c <= '\u{200a}') || c == '\u{2028}' || c == '\u{2029}' || c
        == '\u{202f}' || c == '\u{205f}' || c == '\u{3000}'
}

/// The words of a text: its longest runs of characters other than white space.
pub open spec fn words(s: Seq<char>) -> Seq<Seq<char>>
    decreases s.len(),
{
    if s.len() == 0 {
        seq![]
    } else if is_space(s.last()) {
        words(s.drop_last())
    } else if s.len() == 1 || is_space(s[s.len() - 2]) {
        words(s.drop_last()).push(seq![s.last()])
    } else {
        let w = words(s.drop_last());
        w.drop_last().push(w.last().push(s.last()))
    }
}

/// The pieces of a text between the occurrences of a separator.
pub open spec fn split(s: Seq<char>, separator: char) -> Seq<Seq<char>>
    decreases s.len(),
{
    if s.len() == 0 {
        seq![Seq::empty()]
    } else if s.last() == separator {
        split(s.drop_last(), separator).push(Seq::empty())
    } else {
        let p = split(s.drop_last(), separator);
        p.drop_last().push(p.last().push(s.last()))
    }
}

/// The text without the white space at its start.
pub open spec fn trim_start(s: Seq<char>) -> Seq<char>
    decreases s.len(),
{
    if s.len() > 0 && is_space(s[0]) {
        trim_start(s.drop_first())
    } else {
        s
    }
}

/// The text without the white space at its end.
pub open spec fn trim_end(s: Seq<char>) -> Seq<char>
    decreases s.len(),
{
    if s.len() > 0 && is_space(s.last()) {
        trim_end(s.drop_last())
    } else {
        s
    }
}

/// The text without the white space around it.
pub open spec fn trimmed(s: Seq<char>) -> Seq<char> {
    trim_end(trim_start(s))
}

/// Whether the text holds the other one as a run of consecutive characters.
pub open spec fn has_substring(s: Seq<char>, needle: Seq<char>) -> bool {
    exists|i: int|
        0 <= i && i + needle.len() <= s.len() && #[trigger] s.subrange(i, i + needle.len())
            == needle
}

/// The texts that a vector of character vectors holds.
pub open spec fn texts(v: Seq<Vec<char>>) -> Seq<Seq<char>> {
    Seq::new(v.len(), |i: int| v[i]@)
}

/// The characters of a string.
pub fn chars_of(s: &str) -> (r: Vec<char>)
    ensures
        r@ == s@,
{
    let mut r: Vec<char> = Vec::new();
    for c in it: s.chars()
        invariant
            r@ == it.seq().take(it.index()),
            it.seq() == s@,
    {
        r.push(c);
    }
    r
}

/// The characters from `from` up to `to`.
pub fn slice_of(s: &Vec<char>, from: usize, to: usize) -> (r: Vec<char>)
    requires
        from <= to <= s.len(),
    ensures
        r@ == s@.subrange(from as int, to as int),
{
    let mut r: Vec<char> = Vec::new();
    let mut i: usize = from;
    while i < to
        invariant
            from <= i <= to <= s.len(),
            r@ == s@.subrange(from as int, i as int),
        decreases to - i,
    {
        r.push(s[i]);
        i = i + 1;
    }
    r
}

/// The words of a text.
pub fn split_whitespace(s: &Vec<char>) -> (r: Vec<Vec<char>>)
    ensures
        texts(r@) == words(s@),
{
    let mut r: Vec<Vec<char>> = Vec::new();
    let mut word: Vec<char> = Vec::new();
    let mut i: usize = 0;
    while i < s.len()
        invariant
            i <= s.len(),
            (word.len() > 0) == (i > 0 && !is_space(s[i - 1])),
            words(s@.take(i as int)) == (if word.len() > 0 {
                texts(r@).push(word@)
            } else {
                texts(r@)
            }),
        decreases s.len() - i,
    {
        let c: char = s[i];
        let ghost next = s@.take(i + 1);
        let ghost before = texts(r@);
        assert(next.drop_last() =~= s@.take(i as int));
        assert(next.last() == c);
        if is_white_space(c) {
            if word.len() > 0 {
                let ghost done = word@;
                r.push(word);
                word = Vec::new();
                assert(texts(r@) =~= before.push(done));
            }
        } else {
            let ghost old_word = word@;
            word.push(c);
            proof {
                if i > 0 {
                    assert(next[next.len() - 2] == s[i - 1]);
                }
                if old_word.len() > 0 {
                    assert(words(next) =~= before.push(old_word.push(c)));
                } else {
                    assert(old_word.push(c) =~= seq![c]);
                }
            }
        }
        i = i + 1;
    }
    assert(s@.take(s.len() as int) =~= s@);
    if word.len() > 0 {
        let ghost before = texts(r@);
        let ghost done = word@;
        r.push(word);
        assert(texts(r@) =~= before.push(done));
    }
    r
}

/// The pieces of a text between the occurrences of a separator.
pub fn split_on(s: &Vec<char>, separator: char) -> (r: Vec<Vec<char>>)
    ensures
        texts(r@) == split(s@, separator),
{
    let mut r: Vec<Vec<char>> = Vec::new();
    let mut piece: Vec<char> = Vec::new();
    let mut i: usize = 0;
    assert(texts(r@).push(piece@) =~= split(s@.take(0), separator));
    while i < s.len()
        invariant
            i <= s.len(),
            split(s@.take(i as int), separator) == texts(r@).push(piece@),
        decreases s.len() - i,
    {
        let c: char = s[i];
        let ghost before = texts(r@);
        let ghost old_piece = piece@;
        assert(s@.take(i + 1).drop_last() =~= s@.take(i as int));
        if c == separator {
            r.push(piece);
            piece = Vec::new();
            assert(texts(r@) =~= before.push(old_piece));
        } else {
            piece.push(c);
            assert(before.push(old_piece).drop_last().push(old_piece.push(c)) =~= before.push(
                old_piece.push(c),
            ));
        }
        i = i + 1;
    }
    assert(s@.take(s.len() as int) =~= s@);
    let ghost before = texts(r@);
    let ghost done = piece@;
    r.push(piece);
    assert(texts(r@) =~= before.push(done));
    r
}

/// The lines of a text.
pub fn lines(s: &Vec<char>) -> (r: Vec<Vec<char>>)
    ensures
        texts(r@) == split(s@, '\n'),
{
    split_on(s, '\n')
}

/// Whether the text starts with the prefix.
pub fn starts_with(s: &Vec<char>, prefix: &str) -> (r: bool)
    ensures
        r == prefix@.is_prefix_of(s@),
{
    let p = chars_of(prefix);
    if p.len() > s.len() {
        return false;
    }
    let mut i: usize = 0;
    while i < p.len()
        invariant
            i <= p.len() <= s.len(),
            forall|j: int| 0 <= j < i ==> p[j] == s[j],
            p@ == prefix@,
        decreases p.len() - i,
    {
        if p[i] != s[i] {
            assert(prefix@[i as int] != s@[i as int]);
            assert(!prefix@.is_prefix_of(s@)) by {
                if prefix@.is_prefix_of(s@) {
                    assert(s@.subrange(0, prefix@.len() as int)[i as int] == s@[i as int]);
                }
            }
            return false;
        }
        i = i + 1;
    }
    assert(s@.subrange(0, p.len() as int) =~= p@);
    true
}

/// Whether the text equals the literal.
pub fn is_text(s: &Vec<char>, literal: &str) -> (r: bool)
    ensures
        r == (s@ == literal@),
{
    let p = chars_of(literal);
    if p.len() != s.len() {
        return false;
    }
    let mut i: usize = 0;
    while i < p.len()
        invariant
            i <= p.len() == s.len(),
            forall|j: int| 0 <= j < i ==> p[j] == s[j],
            p@ == literal@,
        decreases p.len() - i,
    {
        if p[i] != s[i] {
            return false;
        }
        i = i + 1;
    }
    assert(s@ =~= p@);
    true
}

/// Whether the text holds the other one as a run of consecutive characters.
pub fn contains(s: &str, needle: &str) -> (r: bool)
    ensures
        r == has_substring(s@, needle@),
{
    let text = chars_of(s);
    let wanted = chars_of(needle);
    if wanted.len() > text.len() {
        return false;
    }
    let mut i: usize = 0;
    while i <= text.len() - wanted.len()
        invariant
            text@ == s@,
            wanted@ == needle@,
            wanted.len() <= text.len(),
            i <= text.len() - wanted.len() + 1,
            forall|j: int|
                0 <= j < i ==> #[trigger] s@.subrange(j, j + needle@.len()) != needle@,
        decreases text.len() - wanted.len() + 1 - i,
    {
        let mut k: usize = 0;
        while k < wanted.len() && text[i + k] == wanted[k]
            invariant
                wanted.len() <= text.len(),
                i <= text.len() - wanted.len(),
                k <= wanted.len(),
                forall|j: int| 0 <= j < k ==> text[i + j] == wanted[j],
            decreases wanted.len() - k,
        {
            k = k + 1;
        }
        if k == wanted.len() {
            assert(s@.subrange(i as int, i + needle@.len()) =~= needle@);
            return true;
        }
        assert(s@.subrange(i as int, i + needle@.len())[k as int] == text[i + k]);
        i = i + 1;
    }
    false
}

/// Where the text without the white space around it starts and ends.
fn trim_bounds(s: &Vec<char>) -> (r: (usize, usize))
    ensures
        r.0 <= r.1 <= s.len(),
        s@.subrange(r.0 as int, r.1 as int) == trimmed(s@),
{
    let mut from: usize = 0;
    assert(s@.skip(0) =~= s@);
    while from < s.len() && is_white_space(s[from])
        invariant
            from <= s.len(),
            trim_start(s@.skip(from as int)) == trim_start(s@),
        decreases s.len() - from,
    {
        assert(s@.skip(from as int).drop_first() =~= s@.skip(from + 1));
        from = from + 1;
    }
    let mut to: usize = s.len();
    assert(s@.subrange(from as int, to as int) =~= s@.skip(from as int));
    while to > from && is_white_space(s[to - 1])
        invariant
            from <= to <= s.len(),
            trim_end(s@.subrange(from as int, to as int)) == trimmed(s@),
        decreases to,
    {
        assert(s@.subrange(from as int, to as int).drop_last() =~= s@.subrange(
            from as int,
            to - 1,
        ));
        to = to - 1;
    }
    (from, to)
}

/// The text without the white space around it.
pub fn trim(s: &Vec<char>) -> (r: Vec<char>)
    ensures
        r@ == trimmed(s@),
{
    let (from, to) = trim_bounds(s);
    slice_of(s, from, to)
}

/// A string without the white space around it.
pub fn trim_text(s: &str) -> (r: String)
    ensures
        r@ == trimmed(s@),
{
    let (from, to) = trim_bounds(&chars_of(s));
    s.substring_char(from, to).to_owned()
}

/// The texts that a list of strings holds.
pub open spec fn string_views(v: Seq<String>) -> Seq<Seq<char>> {
    Seq::new(v.len(), |i: int| v[i]@)
}

/// The words of a string, as strings.
pub fn word_strings(s: &str) -> (r: Vec<String>)
    ensures
        string_views(r@) == words(s@),
{
    let text = chars_of(s);
    let mut r: Vec<String> = Vec::new();
    let mut word: String = String::new();
    let mut in_word: bool = false;
    let mut i: usize = 0;
    while i < text.len()
        invariant
            i <= text.len(),
            text@ == s@,
            in_word == (i > 0 && !is_space(s@[i - 1])),
            !in_word ==> word@.len() == 0,
            words(s@.take(i as int)) == (if in_word {
                string_views(r@).push(word@)
            } else {
                string_views(r@)
            }),
        decreases text.len() - i,
    {
        let c: char = text[i];
        let ghost next = s@.take(i + 1);
        let ghost before = string_views(r@);
        let ghost old_word = word@;
        assert(next.drop_last() =~= s@.take(i as int));
        assert(next.last() == c);
        if is_white_space(c) {
            if in_word {
                r.push(word);
                word = String::new();
                in_word = false;
                assert(string_views(r@) =~= before.push(old_word));
            }
        } else {
            word.append(s.substring_char(i, i + 1));
            assert(s@.subrange(i as int, i + 1) =~= seq![c]);
            assert(word@ =~= old_word.push(c));
            proof {
                if i > 0 {
                    assert(next[next.len() - 2] == s@[i - 1]);
                }
                if in_word {
                    assert(words(next) =~= before.push(old_word.push(c)));
                } else {
                    assert(old_word.push(c) =~= seq![c]);
                }
            }
            in_word = true;
        }
        i = i + 1;
    }
    assert(s@.take(text.len() as int) =~= s@);
    if in_word {
        let ghost before = string_views(r@);
        let ghost done = word@;
        r.push(word);
        assert(string_views(r@) =~= before.push(done));
    }
    r
}

/// What follows the last occurrence of the separator, or the whole text.
pub fn after_last(s: &str, separator: char) -> (r: String)
    ensures
        r@ == split(s@, separator).last(),
{
    let text = chars_of(s);
    let mut from: usize = 0;
    let mut i: usize = 0;
    while i < text.len()
        invariant
            from <= i <= text.len(),
            text@ == s@,
            split(s@.take(i as int), separator).len() > 0,
            split(s@.take(i as int), separator).last() == s@.subrange(from as int, i as int),
        decreases text.len() - i,
    {
        assert(s@.take(i + 1).drop_last() =~= s@.take(i as int));
        if text[i] == separator {
            from = i + 1;
        } else {
            assert(s@.subrange(from as int, i as int).push(s@[i as int]) =~= s@.subrange(
                from as int,
                i + 1,
            ));
        }
        i = i + 1;
    }
    assert(s@.take(text.len() as int) =~= s@);
    s.substring_char(from, text.len()).to_owned()
}

/// The pieces, with the separator between each two of them.
pub open spec fn join(pieces: Seq<Seq<char>>, separator: char) -> Seq<char>
    decreases pieces.len(),
{
    if pieces.len() == 0 {
        Seq::empty()
    } else if pieces.len() == 1 {
        pieces[0]
    } else {
        join(pieces.drop_last(), separator).push(separator) + pieces.last()
    }
}

/// Joining the pieces of a text again gives the text.
pub proof fn split_then_join(s: Seq<char>, separator: char)
    ensures
        split(s, separator).len() >= 1,
        join(split(s, separator), separator) == s,
    decreases s.len(),
{
    if s.len() > 0 {
        let rest = s.drop_last();
        split_then_join(rest, separator);
        let p = split(rest, separator);
        let q = split(s, separator);
        if s.last() == separator {
            assert(q.drop_last() =~= p);
            assert(join(q, separator) =~= rest.push(separator));
        } else {
            assert(q.drop_last() =~= p.drop_last());
            if p.len() == 1 {
                assert(q[0] =~= rest.push(s.last()));
            } else {
                assert(join(q, separator) =~= rest.push(s.last()));
            }
        }
        assert(rest.push(s.last()) =~= s);
    }
}

/// No piece of a text holds the separator.
pub proof fn split_pieces_have_no_separator(s: Seq<char>, separator: char)
    ensures
        split(s, separator).len() >= 1,
        forall|i: int|
            0 <= i < split(s, separator).len() ==> !(#[trigger] split(s, separator)[i]).contains(
                separator,
            ),
    decreases s.len(),
{
    if s.len() > 0 {
        split_pieces_have_no_separator(s.drop_last(), separator);
        let p = split(s.drop_last(), separator);
        let q = split(s, separator);
        assert forall|i: int| 0 <= i < q.len() implies !(#[trigger] q[i]).contains(separator) by {
            if s.last() == separator {
                if i < p.len() {
                    assert(q[i] == p[i]);
                }
            } else if i < p.len() - 1 {
                assert(q[i] == p[i]);
            } else {
                assert(q[i] == p.last().push(s.last()));
                assert(!p[p.len() - 1].contains(separator));
                if q[i].contains(separator) {
                    let k = choose|k: int| 0 <= k < q[i].len() && q[i][k] == separator;
                    assert(p.last()[k] == separator);
                }
            }
        }
    }
}

/// A word has at least one character and no white space.
pub open spec fn is_word(w: Seq<char>) -> bool {
    w.len() > 0 && forall|i: int| 0 <= i < w.len() ==> !is_space(#[trigger] w[i])
}

/// Every word of a text is a word, and together the words are the text without its
/// white space.
pub proof fn words_are_the_visible_text(s: Seq<char>)
    ensures
        forall|i: int| 0 <= i < words(s).len() ==> is_word(#[trigger] words(s)[i]),
        words(s).flatten() == s.filter(|c: char| !is_space(c)),
        s.len() > 0 && !is_space(s.last()) ==> words(s).len() > 0,
    decreases s.len(),
{
    let visible = |c: char| !is_space(c);
    reveal(Seq::filter);
    if s.len() > 0 {
        let rest = s.drop_last();
        words_are_the_visible_text(rest);
        let w = words(rest);
        let q = words(s);
        if !is_space(s.last()) {
            if s.len() == 1 || is_space(s[s.len() - 2]) {
                assert forall|i: int| 0 <= i < q.len() implies is_word(#[trigger] q[i]) by {
                    if i < w.len() {
                        assert(q[i] == w[i]);
                    }
                }
                assert(q.drop_last() =~= w);
                w.lemma_flatten_push(seq![s.last()]);
                assert(q.flatten() =~= w.flatten().push(s.last()));
            } else {
                assert(rest.last() == s[s.len() - 2]);
                assert(is_word(w[w.len() - 1]));
                assert forall|i: int| 0 <= i < q.len() implies is_word(#[trigger] q[i]) by {
                    if i < w.len() - 1 {
                        assert(q[i] == w[i]);
                    } else {
                        assert(q[i] == w.last().push(s.last()));
                    }
                }
                assert(w.drop_last().push(w.last()) =~= w);
                w.drop_last().lemma_flatten_push(w.last());
                w.drop_last().lemma_flatten_push(w.last().push(s.last()));
                assert(q.flatten() =~= w.flatten().push(s.last()));
            }
        }
    }
}

} // verus!
