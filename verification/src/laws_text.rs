//! What holds of the text functions, whatever the text.

use vstd::prelude::*;
use vstd::string::*;
use crate::browser::{before_first, lemma_before_first};
use crate::laws::lemma_words_joined;
use crate::text::{
    all_white, ascii_lowered, decimal, has_text, joined, leading_white, leading_word,
    lemma_joined_first, lemma_trimmed_framed, line_length, lines, occurs_at, signed_decimal, trimmed,
    trimmed_end, trimmed_start, white_space, words,
};

verus! {

/// A text is found wherever it stands: at the start, at the end or between
/// other texts.
pub proof fn law_text_is_found(before: Seq<char>, t: Seq<char>, after: Seq<char>)
    ensures
        has_text(before + t + after, t),
{
    let s = before + t + after;
    assert(s.subrange(before.len() as int, (before.len() + t.len()) as int) == t);
    assert(occurs_at(s, t, before.len() as int));
}

/// What is found stands there.
pub proof fn law_found_text_stands_there(s: Seq<char>, t: Seq<char>)
    requires
        has_text(s, t),
    ensures
        exists|i: int, j: int| 0 <= i <= j <= s.len() && #[trigger] s.subrange(i, j) == t,
{
    let i = choose|i: int| occurs_at(s, t, i);
    assert(s.subrange(i, i + t.len()) == t);
}

/// A text of white space is trimmed to nothing.
pub proof fn law_white_space_is_trimmed_away(s: Seq<char>)
    requires
        all_white(s),
    ensures
        trimmed(s).len() == 0,
        trimmed_start(s).len() == 0,
        trimmed_end(s).len() == 0,
{
    lemma_leading_all_white(s);
    lemma_trimmed_end_white(s);
    assert(trimmed_start(s) == Seq::<char>::empty());
}

/// Trimming a side takes away the white space there, all of it and nothing
/// else.
pub proof fn law_trimming_a_side(white: Seq<char>, s: Seq<char>)
    requires
        all_white(white),
        s.len() > 0,
    ensures
        !white_space(s[0]) ==> trimmed_start(white + s) == s,
        !white_space(s.last()) ==> trimmed_end(s + white) == s,
{
    if !white_space(s[0]) {
        crate::text::lemma_trimmed_start_framed(white, s);
    }
    if !white_space(s.last()) {
        crate::text::lemma_trimmed_end_framed(s, white);
    }
}

/// Trimming takes away the white space around a text, all of it and nothing
/// else.
pub proof fn law_trimming(before: Seq<char>, s: Seq<char>, after: Seq<char>)
    requires
        all_white(before),
        all_white(after),
        s.len() > 0,
        !white_space(s[0]),
        !white_space(s.last()),
    ensures
        trimmed(before + s + after) == s,
{
    lemma_trimmed_framed(before, s, after);
}

proof fn lemma_leading_all_white(s: Seq<char>)
    requires
        all_white(s),
    ensures
        leading_white(s) == s.len(),
    decreases s.len(),
{
    if s.len() > 0 {
        assert(white_space(s[0]));
        assert forall|i: int| 0 <= i < s.skip(1).len() implies white_space(
            #[trigger] s.skip(1)[i],
        ) by {
            assert(white_space(s[i + 1]));
        }
        lemma_leading_all_white(s.skip(1));
    }
}

proof fn lemma_trimmed_end_white(s: Seq<char>)
    requires
        all_white(s),
    ensures
        trimmed_end(s).len() == 0,
    decreases s.len(),
{
    if s.len() > 0 {
        assert(white_space(s[s.len() - 1]));
        lemma_trimmed_end_white(s.drop_last());
    }
}

/// A text of white space has no words.
pub proof fn law_white_space_has_no_words(s: Seq<char>)
    requires
        all_white(s),
    ensures
        words(s).len() == 0,
{
    law_white_space_is_trimmed_away(s);
}

/// A text without white space is one word.
pub proof fn law_a_word_is_a_word(s: Seq<char>)
    requires
        s.len() > 0,
        forall|i: int| 0 <= i < s.len() ==> !white_space(#[trigger] s[i]),
    ensures
        words(s) == seq![s],
{
    assert(!white_space(s[0]));
    assert(trimmed_start(s) == s);
    lemma_all_word(s);
    assert(s.take(s.len() as int) == s);
    let rest = s.skip(s.len() as int);
    assert(rest == Seq::<char>::empty());
    law_white_space_has_no_words(rest);
    assert(words(s) == seq![s] + words(rest));
    assert(words(rest) == Seq::<Seq<char>>::empty());
}

proof fn lemma_all_word(s: Seq<char>)
    requires
        forall|i: int| 0 <= i < s.len() ==> !white_space(#[trigger] s[i]),
    ensures
        leading_word(s) == s.len(),
    decreases s.len(),
{
    if s.len() > 0 {
        assert(!white_space(s[0]));
        assert forall|i: int| 0 <= i < s.skip(1).len() implies !white_space(
            #[trigger] s.skip(1)[i],
        ) by {
            assert(!white_space(s[i + 1]));
        }
        lemma_all_word(s.skip(1));
    }
}

/// White space parts a text: the words are those before it and those behind
/// it.
pub proof fn law_white_space_parts_words(a: Seq<char>, w: char, b: Seq<char>)
    requires
        white_space(w),
    ensures
        words(a + seq![w] + b) == words(a) + words(b),
{
    lemma_words_joined(a, w, b);
}

proof fn lemma_line_length(a: Seq<char>, rest: Seq<char>)
    requires
        forall|i: int| 0 <= i < a.len() ==> #[trigger] a[i] != '\n',
        rest.len() > 0 ==> rest[0] == '\n',
    ensures
        line_length(a + rest) == a.len(),
    decreases a.len(),
{
    if a.len() == 0 {
        assert(a + rest == rest);
    } else {
        assert(a[0] != '\n');
        assert forall|i: int| 0 <= i < a.skip(1).len() implies #[trigger] a.skip(1)[i] != '\n' by {
            assert(a[i + 1] != '\n');
        }
        lemma_line_length(a.skip(1), rest);
        assert((a + rest).skip(1) == a.skip(1) + rest);
    }
}

/// A line ends at a line feed, with or without a carriage return before it, and
/// the rest of the text has the further lines. What no line feed ends is a line
/// too, unless it is empty.
pub proof fn law_lines(line: Seq<char>, rest: Seq<char>)
    requires
        forall|i: int| 0 <= i < line.len() ==> #[trigger] line[i] != '\n',
    ensures
        line.len() == 0 || line.last() != '\r' ==> lines(line + seq!['\n'] + rest) == seq![line]
            + lines(rest),
        lines(line + seq!['\r', '\n'] + rest) == seq![line] + lines(rest),
        line.len() > 0 ==> lines(line) == seq![line],
        lines(Seq::empty()).len() == 0,
{
    let feed = line + seq!['\n'] + rest;
    lemma_line_length(line, seq!['\n'] + rest);
    assert(feed == line + (seq!['\n'] + rest));
    assert(feed.take(line.len() as int) == line);
    assert(feed.skip((line.len() + 1) as int) == rest);
    let with_return = line.push('\r');
    let both = line + seq!['\r', '\n'] + rest;
    assert forall|i: int| 0 <= i < with_return.len() implies #[trigger] with_return[i] != '\n' by {
        if i < line.len() {
            assert(line[i] != '\n');
        }
    }
    lemma_line_length(with_return, seq!['\n'] + rest);
    assert(both == with_return + (seq!['\n'] + rest));
    assert(both.take(with_return.len() as int) == with_return);
    assert(both.skip((with_return.len() + 1) as int) == rest);
    assert(with_return.drop_last() == line);
    lemma_line_length(line, Seq::empty());
    assert(line + Seq::<char>::empty() == line);
}

/// Two lists joined one after the other are the two joins with the separator
/// between them.
pub proof fn law_joining_lists(a: Seq<Seq<char>>, b: Seq<Seq<char>>, sep: Seq<char>)
    requires
        a.len() > 0,
        b.len() > 0,
    ensures
        joined(a + b, sep) == joined(a, sep) + sep + joined(b, sep),
    decreases a.len(),
{
    lemma_joined_first(a + b, sep);
    let tail = a.skip(1);
    assert((a + b).skip(1) == tail + b);
    if a.len() == 1 {
        assert(tail + b == b);
        assert(joined(a, sep) == a[0]);
    } else {
        law_joining_lists(tail, b, sep);
        lemma_joined_first(a, sep);
        assert(joined(a + b, sep) == a[0] + sep + (joined(tail, sep) + sep + joined(b, sep)));
    }
}

/// One text joined is itself, and no text joined is nothing.
pub proof fn law_joining_one(s: Seq<char>, sep: Seq<char>)
    ensures
        joined(seq![s], sep) == s,
        joined(Seq::empty(), sep).len() == 0,
{
}

/// The number that a text of decimal digits denotes.
pub open spec fn value_of(digits: Seq<char>) -> int
    decreases digits.len(),
{
    if digits.len() == 0 {
        0
    } else {
        10 * value_of(digits.drop_last()) + (digits.last() as int - '0' as int)
    }
}

/// A number in decimal notation is read back as the number; it is made of
/// digits, and does not begin with a zero unless it is zero.
pub proof fn law_decimal_is_read_back(n: nat)
    ensures
        value_of(decimal(n)) == n,
        decimal(n).len() > 0,
        forall|i: int| 0 <= i < decimal(n).len() ==> '0' <= #[trigger] decimal(n)[i] <= '9',
        n > 0 ==> decimal(n)[0] != '0',
    decreases n,
{
    let last = (n % 10) as int;
    assert((last + 48) as char as int == last + 48);
    if n < 10 {
        let d = decimal(n);
        assert(d.drop_last() == Seq::<char>::empty());
        assert(value_of(d.drop_last()) == 0);
    } else {
        law_decimal_is_read_back(n / 10);
        assert(decimal(n).drop_last() == decimal(n / 10));
        assert(decimal(n)[0] == decimal(n / 10)[0]);
        assert forall|i: int| 0 <= i < decimal(n).len() implies '0' <= #[trigger] decimal(n)[i]
            <= '9' by {
            if i < decimal(n / 10).len() {
                assert(decimal(n)[i] == decimal(n / 10)[i]);
            }
        }
    }
}

/// A negative number has a minus sign before the digits of its size; another
/// has its digits alone.
pub proof fn law_signed_decimal(n: nat)
    ensures
        signed_decimal(n as int) == decimal(n),
        n > 0 ==> signed_decimal(-(n as int)) == seq!['-'] + decimal(n),
{
}

/// The capital letters of ASCII, and they alone, become their small letters.
pub proof fn law_ascii_lower_case(s: Seq<char>)
    ensures
        ascii_lowered(s).len() == s.len(),
        forall|i: int|
            0 <= i < s.len() ==> {
                let c = s[i];
                let low = #[trigger] ascii_lowered(s)[i];
                if 'A' <= c <= 'Z' {
                    low as int == c as int + ('a' as int - 'A' as int)
                } else {
                    low == c
                }
            },
{
    assert forall|i: int| 0 <= i < s.len() && 'A' <= s[i] <= 'Z' implies (
    #[trigger] ascii_lowered(s)[i]) as int == s[i] as int + 32 by {
        let c = s[i];
        lemma_capital(c);
    }
}

proof fn lemma_capital(c: char)
    requires
        'A' <= c <= 'Z',
    ensures
        (c as u32 + 32) as char as int == c as int + 32,
{
}

/// What stands before a mark is cut off where the mark first stands; a text
/// without the mark stays whole.
pub proof fn law_cutting_at_a_mark(s: Seq<char>, mark: Seq<char>)
    ensures
        !has_text(s, mark) ==> before_first(s, mark) == s,
        has_text(s, mark) ==> {
            let n = before_first(s, mark).len() as int;
            &&& n + mark.len() <= s.len()
            &&& before_first(s, mark) == s.take(n)
            &&& s.subrange(n, n + mark.len()) == mark
            &&& forall|j: int|
                0 <= j < n ==> j + mark.len() > s.len() || #[trigger] s.subrange(
                    j,
                    j + mark.len(),
                ) != mark
        },
{
    if has_text(s, mark) {
        let i = choose|i: int| occurs_at(s, mark, i);
        let first = lemma_first_occurrence(s, mark, i);
        lemma_before_first(s, mark, first);
        assert(s.take(first).len() == first);
        assert forall|j: int| 0 <= j < first implies j + mark.len() > s.len()
            || #[trigger] s.subrange(j, j + mark.len()) != mark by {
            assert(!occurs_at(s, mark, j));
        }
    } else {
        assert forall|j: int| 0 <= j < s.len() implies !occurs_at(s, mark, j) by {
        }
        lemma_before_first(s, mark, s.len() as int);
        assert(s.take(s.len() as int) == s);
    }
}

proof fn lemma_first_occurrence(s: Seq<char>, mark: Seq<char>, i: int) -> (first: int)
    requires
        occurs_at(s, mark, i),
    ensures
        0 <= first <= i,
        occurs_at(s, mark, first),
        forall|j: int| 0 <= j < first ==> !occurs_at(s, mark, j),
    decreases i,
{
    if exists|j: int| 0 <= j < i && occurs_at(s, mark, j) {
        let j = choose|j: int| 0 <= j < i && occurs_at(s, mark, j);
        lemma_first_occurrence(s, mark, j)
    } else {
        i
    }
}

/// White space is the blank, the controls from tabulation to carriage return,
/// and the other characters that Unicode counts as such.
pub proof fn law_white_space(c: char)
    ensures
        white_space(c) <==> {
            let n = c as int;
            ||| 9 <= n <= 13
            ||| n == 0x20
            ||| n == 0x85
            ||| n == 0xa0
            ||| n == 0x1680
            ||| 0x2000 <= n <= 0x200a
            ||| n == 0x2028
            ||| n == 0x2029
            ||| n == 0x202f
            ||| n == 0x205f
            ||| n == 0x3000
        },
{
}

} // verus!
