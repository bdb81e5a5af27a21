//! What reading and writing text has to do with the text, for all texts.

use crate::decimal::{all_digits, decimal, decimal_int, decimal_reads_back, decimal_stands_for};
use crate::decimal::{digits_overflow_by_value, digits_value, is_digit, parsed, parsed_i32};
use crate::decimal::ParseIntError;
use crate::text::{is_space, is_word, trim_end, trim_start, trimmed, words};
use crate::text::words_are_the_visible_text;
use vstd::prelude::*;

verus! {

/// Whether there is nothing but white space.
pub open spec fn is_blank(s: Seq<char>) -> bool {
    forall|i: int| 0 <= i < s.len() ==> is_space(#[trigger] s[i])
}

proof fn lemma_start(s: Seq<char>) -> (blank: Seq<char>)
    ensures
        is_blank(blank),
        s == blank + trim_start(s),
        trim_start(s).len() > 0 ==> !is_space(trim_start(s)[0]),
    decreases s.len(),
{
    if s.len() > 0 && is_space(s[0]) {
        let rest = lemma_start(s.drop_first());
        let blank = seq![s[0]] + rest;
        assert(s =~= seq![s[0]] + s.drop_first());
        assert(s =~= blank + trim_start(s));
        assert forall|i: int| 0 <= i < blank.len() implies is_space(#[trigger] blank[i]) by {
            if i > 0 {
                assert(blank[i] == rest[i - 1]);
            }
        }
        blank
    } else {
        assert(s =~= seq![] + trim_start(s));
        seq![]
    }
}

proof fn lemma_end(s: Seq<char>) -> (blank: Seq<char>)
    ensures
        is_blank(blank),
        s == trim_end(s) + blank,
        trim_end(s).len() > 0 ==> !is_space(trim_end(s).last()),
    decreases s.len(),
{
    if s.len() > 0 && is_space(s.last()) {
        let rest = lemma_end(s.drop_last());
        let blank = rest.push(s.last());
        assert(s =~= s.drop_last().push(s.last()));
        assert(s =~= trim_end(s) + blank);
        assert forall|i: int| 0 <= i < blank.len() implies is_space(#[trigger] blank[i]) by {
            if i < rest.len() {
                assert(blank[i] == rest[i]);
            }
        }
        blank
    } else {
        assert(s =~= trim_end(s) + seq![]);
        seq![]
    }
}

/// Trimming takes white space off both ends, and nothing else: what is left starts and
/// ends with something visible, if anything is left.
pub proof fn trimming_takes_the_blanks(s: Seq<char>) -> (ends: (Seq<char>, Seq<char>))
    ensures
        is_blank(ends.0),
        is_blank(ends.1),
        s == ends.0 + trimmed(s) + ends.1,
        trimmed(s).len() > 0 ==> !is_space(trimmed(s)[0]) && !is_space(trimmed(s).last()),
{
    let front = lemma_start(s);
    let middle = trim_start(s);
    let back = lemma_end(middle);
    assert(s =~= front + trimmed(s) + back);
    if trimmed(s).len() > 0 {
        assert(middle[0] == trimmed(s)[0]);
    }
    (front, back)
}

/// White space separates words: those of two texts with white space between them are the
/// words of both. A text without white space is one word.
pub proof fn words_are_separated(a: Seq<char>, space: char, b: Seq<char>)
    requires
        is_space(space),
    ensures
        words(a.push(space) + b) == words(a) + words(b),
    decreases b.len(),
{
    let s = a.push(space) + b;
    if b.len() == 0 {
        assert(s =~= a.push(space));
        assert(s.drop_last() =~= a);
        assert(words(a) + words(b) =~= words(a));
    } else {
        let rest = b.drop_last();
        words_are_separated(a, space, rest);
        assert(s.drop_last() =~= a.push(space) + rest);
        assert(s.last() == b.last());
        if !is_space(b.last()) {
            if b.len() == 1 {
                assert(s[s.len() - 2] == space);
                assert(words(s) =~= words(a) + words(b));
            } else {
                assert(s[s.len() - 2] == b[b.len() - 2]);
                if is_space(b[b.len() - 2]) {
                    assert(words(s) =~= words(a) + words(b));
                } else {
                    assert(rest.last() == b[b.len() - 2]);
                    words_are_the_visible_text(rest);
                    let w = words(rest);
                    assert((words(a) + w).last() == w.last());
                    assert((words(a) + w).drop_last() =~= words(a) + w.drop_last());
                    assert(words(s) =~= words(a) + words(b));
                }
            }
        }
    }
}

/// A text without white space is one word.
pub proof fn a_word_is_its_only_word(w: Seq<char>)
    requires
        is_word(w),
    ensures
        words(w) == seq![w],
    decreases w.len(),
{
    let rest = w.drop_last();
    assert(!is_space(w[w.len() - 1]));
    if w.len() == 1 {
        assert(words(rest) =~= seq![]);
        assert(seq![w.last()] =~= w);
        assert(words(w) =~= seq![w]);
    } else {
        assert forall|i: int| 0 <= i < rest.len() implies !is_space(#[trigger] rest[i]) by {
            assert(rest[i] == w[i]);
        }
        a_word_is_its_only_word(rest);
        assert(!is_space(w[w.len() - 2]));
        assert(rest.push(w.last()) =~= w);
        assert(words(w) =~= seq![w]);
    }
}

/// Each further digit makes a number ten times as large, and adds itself.
pub proof fn digits_count_in_tens(s: Seq<char>, c: char)
    requires
        is_digit(c),
    ensures
        digits_value(seq![]) == 0,
        digits_value(s.push(c)) == 10 * digits_value(s) + (c as int - '0' as int),
{
    assert(s.push(c).drop_last() =~= s);
}

/// A text is read as a number where it is a run of digits, with or without a plus sign,
/// that stands for no more than is allowed; the number is the one that they stand for.
pub proof fn numbers_are_runs_of_digits(s: Seq<char>, max: int)
    requires
        max >= 0,
    ensures
        ({
            let digits = if s.len() > 0 && s[0] == '+' {
                s.skip(1)
            } else {
                s
            };
            let is_number = digits.len() > 0 && all_digits(digits);
            &&& parsed(s, max) is Ok <==> is_number && digits_value(digits) <= max
            &&& parsed(s, max) is Ok ==> parsed(s, max) == Ok::<int, ParseIntError>(
                digits_value(digits),
            )
            &&& s.len() == 0 <==> parsed(s, max) == Err::<int, ParseIntError>(ParseIntError::Empty)
            &&& is_number && digits_value(digits) > max ==> parsed(s, max) == Err::<
                int,
                ParseIntError,
            >(ParseIntError::PosOverflow)
        }),
{
    let digits = if s.len() > 0 && s[0] == '+' {
        s.skip(1)
    } else {
        s
    };
    if s.len() > 0 {
        assert(s.skip(1) =~= s.drop_first());
    }
    if all_digits(digits) {
        digits_overflow_by_value(digits, max);
    }
}

/// Numbers that are written differ where the numbers differ.
pub proof fn decimals_differ(a: nat, b: nat)
    requires
        a != b,
    ensures
        decimal(a) != decimal(b),
{
    decimal_stands_for(a);
    decimal_stands_for(b);
}

/// Reading a signed number that was written gives it back, where it fits.
pub proof fn signed_decimals_read_back(n: int)
    requires
        -0x8000_0000 <= n < 0x8000_0000,
    ensures
        parsed_i32(decimal_int(n)) == Some(n),
{
    reveal_strlit("-");
    if n < 0 {
        let digits = decimal((-n) as nat);
        decimal_stands_for((-n) as nat);
        digits_overflow_by_value(digits, 0x8000_0000);
        assert(decimal_int(n).drop_first() =~= digits);
        assert(decimal_int(n)[0] == '-');
    } else {
        decimal_stands_for(n as nat);
        decimal_reads_back(n as nat, 0x7fff_ffff);
        assert(is_digit(decimal(n as nat)[0]));
    }
}

} // verus!
