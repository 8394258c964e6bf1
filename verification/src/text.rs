//! Text as sequences of characters: searching, trimming, splitting, joining
//! and number formatting.

use vstd::prelude::*;
use vstd::string::*;
use vstd::utf8::is_ascii_chars;

verus! {

/// `String::push` appends the given character to the end of the string.
pub assume_specification[ String::push ](s: &mut String, c: char)
    ensures
        final(s)@ == old(s)@.push(c),
;

/// The characters with the Unicode property `White_Space`.
pub open spec fn white_space(c: char) -> bool {
    ||| '\u{9}' <= c <= '\u{d}'
    ||| c == ' '
    ||| c == '\u{85}'
    ||| c == '\u{a0}'
    ||| c == '\u{1680}'
    ||| '\u{2000}' <= c <= '\u{200a}'
    ||| c == '\u{2028}'
    ||| c == '\u{2029}'
    ||| c == '\u{202f}'
    ||| c == '\u{205f}'
    ||| c == '\u{3000}'
}

/// `char::is_whitespace` tells whether the character has the Unicode property
/// `White_Space`, whose members `white_space` lists.
pub assume_specification[ char::is_whitespace ](c: char) -> (r: bool)
    ensures
        r == white_space(c),
;

/// The lower-case letter of an ASCII capital; every other character as it is.
pub open spec fn ascii_lower(c: char) -> char {
    if 'A' <= c <= 'Z' {
        (c as u32 + 32) as char
    } else {
        c
    }
}

/// Every character of `s` through `ascii_lower`.
pub open spec fn ascii_lowered(s: Seq<char>) -> Seq<char> {
    s.map_values(|c: char| ascii_lower(c))
}

/// What `str::to_lowercase` makes of a text: the Unicode lower-case mapping.
pub uninterp spec fn lowercase(s: Seq<char>) -> Seq<char>;

/// The text, where it is made of ASCII characters, goes to lower case letter by
/// letter.
pub open spec fn lowered_by_rule(s: Seq<char>) -> bool {
    is_ascii_chars(s) ==> lowercase(s) == ascii_lowered(s)
}

/// Calls `str::to_lowercase`. The result is a function of the text alone; on a
/// text of ASCII characters each capital becomes its lower-case letter and
/// nothing else changes. What the mapping does to other characters is left to
/// the Unicode tables.
#[verifier::external_body]
pub(crate) fn to_lowercase(s: &str) -> (r: String)
    ensures
        r@ == lowercase(s@),
        is_ascii_chars(s@) ==> r@ == ascii_lowered(s@),
{
    s.to_lowercase()
}

/// The characters of `s`, one by one.
pub fn chars_of(s: &str) -> (r: Vec<char>)
    ensures
        r@ == s@,
{
    let mut r: Vec<char> = Vec::new();
    for c in it: s.chars()
        invariant
            it.seq() == s@,
            r@ == it.seq().take(it.index()),
    {
        r.push(c);
    }
    r
}

/// The text made of the characters `v[from..to]`.
pub fn text_of(v: &Vec<char>, from: usize, to: usize) -> (r: String)
    requires
        from <= to <= v.len(),
    ensures
        r@ == v@.subrange(from as int, to as int),
{
    let mut r = String::new();
    let mut i: usize = from;
    while i < to
        invariant
            from <= i <= to <= v.len(),
            r@ == v@.subrange(from as int, i as int),
        decreases to - i,
    {
        r.push(v[i]);
        i += 1;
    }
    r
}

/// `t` stands in `s` at position `i`.
pub open spec fn occurs_at(s: Seq<char>, t: Seq<char>, i: int) -> bool {
    0 <= i && i + t.len() <= s.len() && s.subrange(i, i + t.len()) == t
}

/// `t` stands somewhere in `s`.
pub open spec fn has_text(s: Seq<char>, t: Seq<char>) -> bool {
    exists|i: int| occurs_at(s, t, i)
}

fn stands_at(s: &Vec<char>, t: &Vec<char>, i: usize) -> (r: bool)
    requires
        i + t.len() <= s.len(),
    ensures
        r == occurs_at(s@, t@, i as int),
{
    let mut j: usize = 0;
    while j < t.len()
        invariant
            i + t.len() <= s.len(),
            j <= t.len(),
            s@.subrange(i as int, i + j) == t@.take(j as int),
        decreases t.len() - j,
    {
        if s[i + j] != t[j] {
            assert(s@.subrange(i as int, i + t.len())[j as int] != t@[j as int]);
            return false;
        }
        j += 1;
    }
    assert(t@.take(t.len() as int) == t@);
    true
}

/// The position of the first occurrence of `t` in `s`, counted in characters.
pub fn find_text(s: &Vec<char>, t: &Vec<char>) -> (r: Option<usize>)
    ensures
        r matches Some(i) ==> occurs_at(s@, t@, i as int) && forall|j: int|
            0 <= j < i ==> !occurs_at(s@, t@, j),
        r is None <==> !has_text(s@, t@),
{
    if t.len() > s.len() {
        return None;
    }
    let last: usize = s.len() - t.len();
    let mut i: usize = 0;
    while i <= last
        invariant
            last == s.len() - t.len(),
            i <= last + 1,
            forall|j: int| 0 <= j < i ==> !occurs_at(s@, t@, j),
        decreases last + 1 - i,
    {
        if stands_at(s, t, i) {
            return Some(i);
        }
        if i == last {
            return None;
        }
        i += 1;
    }
    None
}

/// Whether `t` stands somewhere in `s`.
pub fn contains_text(s: &str, t: &str) -> (r: bool)
    ensures
        r == has_text(s@, t@),
{
    let hay = chars_of(s);
    let needle = chars_of(t);
    find_text(&hay, &needle).is_some()
}

/// How many characters of `s`, from the left, are white space.
pub open spec fn leading_white(s: Seq<char>) -> nat
    decreases s.len(),
{
    if s.len() > 0 && white_space(s[0]) {
        1 + leading_white(s.skip(1))
    } else {
        0
    }
}

/// `s` without the white space on its left.
pub open spec fn trimmed_start(s: Seq<char>) -> Seq<char> {
    s.skip(leading_white(s) as int)
}

/// `s` without the white space on its right.
pub open spec fn trimmed_end(s: Seq<char>) -> Seq<char>
    decreases s.len(),
{
    if s.len() > 0 && white_space(s.last()) {
        trimmed_end(s.drop_last())
    } else {
        s
    }
}

/// `s` without the white space on either side.
pub open spec fn trimmed(s: Seq<char>) -> Seq<char> {
    trimmed_end(trimmed_start(s))
}

/// Where the white space on the left of `v[from..]` ends.
fn skip_white(v: &Vec<char>, from: usize) -> (r: usize)
    requires
        from <= v.len(),
    ensures
        from <= r <= v.len(),
        r - from == leading_white(v@.skip(from as int)),
        r < v.len() ==> !white_space(v@[r as int]),
{
    let mut i: usize = from;
    while i < v.len() && v[i].is_whitespace()
        invariant
            from <= i <= v.len(),
            leading_white(v@.skip(from as int)) == (i - from) + leading_white(v@.skip(i as int)),
        decreases v.len() - i,
    {
        assert(v@.skip(i as int).skip(1) == v@.skip(i + 1));
        i += 1;
    }
    i
}

/// Where the white space on the right of `v[from..to]` begins.
fn drop_white(v: &Vec<char>, from: usize, to: usize) -> (r: usize)
    requires
        from <= to <= v.len(),
    ensures
        from <= r <= to,
        v@.subrange(from as int, r as int) == trimmed_end(v@.subrange(from as int, to as int)),
{
    let mut i: usize = to;
    while i > from && v[i - 1].is_whitespace()
        invariant
            from <= i <= to <= v.len(),
            trimmed_end(v@.subrange(from as int, i as int)) == trimmed_end(
                v@.subrange(from as int, to as int),
            ),
        decreases i,
    {
        assert(v@.subrange(from as int, i as int).drop_last() == v@.subrange(
            from as int,
            i - 1,
        ));
        i -= 1;
    }
    i
}

/// `s` without the white space on its left.
pub fn trim_start(s: &str) -> (r: String)
    ensures
        r@ == trimmed_start(s@),
{
    let v = chars_of(s);
    assert(v@.skip(0) == s@);
    let from = skip_white(&v, 0);
    assert(v@.subrange(from as int, v.len() as int) == trimmed_start(s@));
    text_of(&v, from, v.len())
}

/// `s` without the white space on its right.
pub fn trim_end(s: &str) -> (r: String)
    ensures
        r@ == trimmed_end(s@),
{
    let v = chars_of(s);
    let to = drop_white(&v, 0, v.len());
    assert(v@.subrange(0, v.len() as int) == s@);
    text_of(&v, 0, to)
}

/// `s` without the white space on either side.
pub fn trim(s: &str) -> (r: String)
    ensures
        r@ == trimmed(s@),
{
    let v = chars_of(s);
    assert(v@.skip(0) == s@);
    let from = skip_white(&v, 0);
    let to = drop_white(&v, from, v.len());
    assert(v@.subrange(from as int, v.len() as int) == trimmed_start(s@));
    text_of(&v, from, to)
}

/// How many characters of `s`, from the left, are not white space.
pub open spec fn leading_word(s: Seq<char>) -> nat
    decreases s.len(),
{
    if s.len() > 0 && !white_space(s[0]) {
        1 + leading_word(s.skip(1))
    } else {
        0
    }
}

/// A run at the left of a text is never longer than the text.
pub proof fn lemma_leading_bounds(s: Seq<char>)
    ensures
        leading_white(s) <= s.len(),
        leading_word(s) <= s.len(),
    decreases s.len(),
{
    if s.len() > 0 {
        lemma_leading_bounds(s.skip(1));
    }
}

/// The maximal runs of `s` without white space, from left to right.
pub open spec fn words(s: Seq<char>) -> Seq<Seq<char>>
    decreases s.len(),
{
    let t = trimmed_start(s);
    let n = leading_word(t) as int;
    if n == 0 {
        Seq::empty()
    } else {
        proof {
            lemma_leading_bounds(s);
            lemma_leading_bounds(t);
        }
        seq![t.take(n)] + words(t.skip(n))
    }
}

fn skip_word(v: &Vec<char>, from: usize) -> (r: usize)
    requires
        from <= v.len(),
    ensures
        from <= r <= v.len(),
        r - from == leading_word(v@.skip(from as int)),
        from < v.len() && !white_space(v@[from as int]) ==> from < r,
{
    let mut i: usize = from;
    while i < v.len() && !v[i].is_whitespace()
        invariant
            from <= i <= v.len(),
            leading_word(v@.skip(from as int)) == (i - from) + leading_word(v@.skip(i as int)),
        decreases v.len() - i,
    {
        assert(v@.skip(i as int).skip(1) == v@.skip(i + 1));
        i += 1;
    }
    i
}

/// The parts of `s` between runs of white space.
pub fn split_whitespace(s: &str) -> (r: Vec<String>)
    ensures
        r.deep_view() == words(s@),
{
    let v = chars_of(s);
    let mut r: Vec<String> = Vec::new();
    let mut i: usize = 0;
    assert(v@.skip(0) == s@);
    assert(r.deep_view() + words(v@.skip(0)) == words(s@));
    loop
        invariant
            i <= v.len(),
            r.deep_view() + words(v@.skip(i as int)) == words(s@),
        ensures
            r.deep_view() == words(s@),
        decreases v.len() - i,
    {
        let from = skip_white(&v, i);
        assert(v@.skip(i as int).skip(from - i) == v@.skip(from as int));
        let to = skip_word(&v, from);
        if to == from {
            assert(words(v@.skip(i as int)) == Seq::<Seq<char>>::empty());
            break ;
        }
        let ghost done = r.deep_view();
        let word = text_of(&v, from, to);
        assert(word@ == v@.skip(from as int).take(to - from));
        assert(v@.skip(from as int).skip(to - from) == v@.skip(to as int));
        r.push(word);
        assert(r.deep_view() == done.push(word@));
        assert(r.deep_view() + words(v@.skip(to as int)) == done + (seq![word@] + words(
            v@.skip(to as int),
        )));
        i = to;
    }
    r
}

/// The words of an ASCII text are ASCII texts.
pub proof fn lemma_words_ascii(s: Seq<char>)
    requires
        is_ascii_chars(s),
    ensures
        forall|k: int| 0 <= k < words(s).len() ==> is_ascii_chars(#[trigger] words(s)[k]),
    decreases s.len(),
{
    let t = trimmed_start(s);
    let n = leading_word(t) as int;
    lemma_leading_bounds(s);
    lemma_leading_bounds(t);
    if n > 0 {
        assert(is_ascii_chars(t));
        assert(is_ascii_chars(t.take(n)));
        assert(is_ascii_chars(t.skip(n)));
        lemma_words_ascii(t.skip(n));
        assert forall|k: int| 0 <= k < words(s).len() implies is_ascii_chars(
            #[trigger] words(s)[k],
        ) by {
            if k > 0 {
                assert(words(s)[k] == words(t.skip(n))[k - 1]);
            }
        }
    }
}

/// A trimmed ASCII text is an ASCII text.
pub proof fn lemma_trimmed_part(s: Seq<char>)
    ensures
        is_ascii_chars(s) ==> is_ascii_chars(trimmed(s)),
{
    lemma_leading_bounds(s);
    lemma_trimmed_end_part(trimmed_start(s));
}

proof fn lemma_trimmed_end_part(s: Seq<char>)
    ensures
        trimmed_end(s).len() <= s.len(),
        trimmed_end(s) == s.take(trimmed_end(s).len() as int),
    decreases s.len(),
{
    if s.len() > 0 && white_space(s.last()) {
        lemma_trimmed_end_part(s.drop_last());
    }
}

/// Every character is white space.
pub open spec fn all_white(s: Seq<char>) -> bool {
    forall|i: int| 0 <= i < s.len() ==> white_space(#[trigger] s[i])
}

/// Trimming takes away just the white space around a text.
pub proof fn lemma_trimmed_framed(before: Seq<char>, s: Seq<char>, after: Seq<char>)
    requires
        all_white(before),
        all_white(after),
        s.len() > 0,
        !white_space(s[0]),
        !white_space(s.last()),
    ensures
        trimmed(before + s + after) == s,
{
    lemma_trimmed_start_framed(before, s + after);
    assert(before + s + after == before + (s + after));
    lemma_trimmed_end_framed(s, after);
}

pub proof fn lemma_trimmed_start_framed(before: Seq<char>, s: Seq<char>)
    requires
        all_white(before),
        s.len() > 0,
        !white_space(s[0]),
    ensures
        leading_white(before + s) == before.len(),
        trimmed_start(before + s) == s,
    decreases before.len(),
{
    if before.len() > 0 {
        assert(white_space(before[0]));
        let rest = before.skip(1);
        assert forall|i: int| 0 <= i < rest.len() implies white_space(#[trigger] rest[i]) by {
            assert(rest[i] == before[i + 1]);
        }
        lemma_trimmed_start_framed(rest, s);
        assert((before + s).skip(1) == rest + s);
    } else {
        assert(before + s == s);
    }
}

pub proof fn lemma_trimmed_end_framed(s: Seq<char>, after: Seq<char>)
    requires
        all_white(after),
        s.len() > 0,
        !white_space(s.last()),
    ensures
        trimmed_end(s + after) == s,
    decreases after.len(),
{
    if after.len() > 0 {
        assert(white_space(after[after.len() - 1]));
        lemma_trimmed_end_framed(s, after.drop_last());
        assert((s + after).drop_last() == s + after.drop_last());
    } else {
        assert(s + after == s);
    }
}

/// The position of the first line feed of `s`, or its length.
pub open spec fn line_length(s: Seq<char>) -> nat
    decreases s.len(),
{
    if s.len() > 0 && s[0] != '\n' {
        1 + line_length(s.skip(1))
    } else {
        0
    }
}

/// A line without the carriage return at its end, where there is one.
pub open spec fn without_return(s: Seq<char>) -> Seq<char> {
    if s.len() > 0 && s.last() == '\r' {
        s.drop_last()
    } else {
        s
    }
}

/// The lines of `s`: a line ends with a line feed, or with a carriage return
/// and a line feed; the last one need not be ended.
pub open spec fn lines(s: Seq<char>) -> Seq<Seq<char>>
    decreases s.len(),
{
    let n = line_length(s) as int;
    if s.len() == 0 {
        Seq::empty()
    } else if n >= s.len() {
        seq![s]
    } else {
        seq![without_return(s.take(n))] + lines(s.skip(n + 1))
    }
}

/// The lines of a text, without their line endings.
pub fn split_lines(s: &str) -> (r: Vec<String>)
    ensures
        r.deep_view() == lines(s@),
{
    let v = chars_of(s);
    let mut r: Vec<String> = Vec::new();
    let mut i: usize = 0;
    assert(v@.skip(0) == s@);
    assert(r.deep_view() + lines(v@.skip(0)) == lines(s@));
    while i < v.len()
        invariant
            i <= v.len(),
            r.deep_view() + lines(v@.skip(i as int)) == lines(s@),
        decreases v.len() - i,
    {
        let mut to: usize = i;
        while to < v.len() && v[to] != '\n'
            invariant
                i <= to <= v.len(),
                line_length(v@.skip(i as int)) == (to - i) + line_length(v@.skip(to as int)),
            decreases v.len() - to,
        {
            assert(v@.skip(to as int).skip(1) == v@.skip(to + 1));
            to += 1;
        }
        let ghost done = r.deep_view();
        let ghost rest = v@.skip(i as int);
        if to == v.len() {
            let line = text_of(&v, i, to);
            assert(line@ == rest);
            assert(lines(rest) == seq![rest]);
            r.push(line);
            assert(r.deep_view() == done.push(rest));
            i = to;
        } else {
            let end: usize = if to > i && v[to - 1] == '\r' {
                to - 1
            } else {
                to
            };
            let line = text_of(&v, i, end);
            assert(line@ == without_return(rest.take(to - i)));
            assert(rest.skip(to - i + 1) == v@.skip(to + 1));
            r.push(line);
            assert(r.deep_view() == done.push(line@));
            assert(r.deep_view() + lines(v@.skip(to + 1)) == done + (seq![line@] + lines(
                v@.skip(to + 1),
            )));
            i = to + 1;
        }
    }
    assert(lines(v@.skip(i as int)) == Seq::<Seq<char>>::empty());
    r
}

/// The parts one after the other, with `sep` between any two of them.
pub open spec fn joined(parts: Seq<Seq<char>>, sep: Seq<char>) -> Seq<char>
    decreases parts.len(),
{
    if parts.len() == 0 {
        Seq::empty()
    } else if parts.len() == 1 {
        parts[0]
    } else {
        joined(parts.drop_last(), sep) + sep + parts.last()
    }
}

/// The parts as one text, with `sep` between any two of them.
pub fn join(parts: &Vec<String>, sep: &str) -> (r: String)
    ensures
        r@ == joined(parts.deep_view(), sep@),
{
    let mut r = String::new();
    let mut i: usize = 0;
    let ghost all = parts.deep_view();
    while i < parts.len()
        invariant
            i <= parts.len(),
            all == parts.deep_view(),
            r@ == joined(all.take(i as int), sep@),
        decreases parts.len() - i,
    {
        if i > 0 {
            r.append(sep);
        }
        r.append(parts[i].as_str());
        assert(all.take(i + 1).drop_last() == all.take(i as int));
        i += 1;
    }
    assert(all.take(i as int) == all);
    r
}

/// The decimal digit of value `d`.
pub open spec fn digit(d: int) -> char {
    (d + 48) as char
}

/// `n` in decimal notation, without leading zeros.
pub open spec fn decimal(n: nat) -> Seq<char>
    decreases n,
{
    if n < 10 {
        seq![digit(n as int)]
    } else {
        decimal(n / 10).push(digit((n % 10) as int))
    }
}

/// `n` in decimal notation, with a minus sign where it is negative.
pub open spec fn signed_decimal(n: int) -> Seq<char> {
    if n < 0 {
        seq!['-'] + decimal((-n) as nat)
    } else {
        decimal(n as nat)
    }
}

/// The decimal notation of a number.
pub fn number_text(n: u64) -> (r: String)
    ensures
        r@ == decimal(n as nat),
    decreases n,
{
    let last: u8 = (n % 10) as u8 + 48;
    if n < 10 {
        let mut r = String::new();
        r.push(last as char);
        r
    } else {
        let mut r = number_text(n / 10);
        r.push(last as char);
        r
    }
}

/// The decimal notation of a signed number.
pub fn signed_number_text(n: i32) -> (r: String)
    ensures
        r@ == signed_decimal(n as int),
{
    if n < 0 {
        let mut r = String::new();
        r.push('-');
        let size: u64 = (-(n as i64)) as u64;
        r.append(number_text(size).as_str());
        r
    } else {
        number_text(n as u64)
    }
}

fn lower(c: char) -> (r: char)
    ensures
        r == ascii_lower(c),
{
    if 'A' <= c && c <= 'Z' {
        (c as u8 + 32) as char
    } else {
        c
    }
}

/// Whether two texts differ at most in the case of ASCII letters.
pub fn eq_ignore_ascii_case(a: &str, b: &str) -> (r: bool)
    ensures
        r == (ascii_lowered(a@) == ascii_lowered(b@)),
{
    let v = chars_of(a);
    let w = chars_of(b);
    let ghost la = ascii_lowered(a@);
    let ghost lb = ascii_lowered(b@);
    if v.len() != w.len() {
        assert(la.len() != lb.len());
        return false;
    }
    let mut i: usize = 0;
    while i < v.len()
        invariant
            i <= v.len() == w.len(),
            v@ == a@,
            w@ == b@,
            la == ascii_lowered(a@),
            lb == ascii_lowered(b@),
            la.take(i as int) == lb.take(i as int),
        decreases v.len() - i,
    {
        if lower(v[i]) != lower(w[i]) {
            assert(la[i as int] != lb[i as int]);
            return false;
        }
        assert(la.take(i + 1) == lb.take(i + 1)) by {
            assert(la.take(i + 1) == la.take(i as int).push(la[i as int]));
            assert(lb.take(i + 1) == lb.take(i as int).push(lb[i as int]));
        }
        i += 1;
    }
    assert(la.take(i as int) == la);
    assert(lb.take(i as int) == lb);
    true
}

/// Whether `s` is one of `list`.
pub fn is_among(list: &Vec<String>, s: &String) -> (r: bool)
    ensures
        r == list.deep_view().contains(s@),
{
    let mut i: usize = 0;
    while i < list.len()
        invariant
            i <= list.len(),
            forall|j: int| 0 <= j < i ==> list.deep_view()[j] != s@,
        decreases list.len() - i,
    {
        if list[i] == *s {
            assert(list.deep_view()[i as int] == s@);
            return true;
        }
        i += 1;
    }
    false
}

/// A join begins with the first part.
pub proof fn lemma_joined_first(parts: Seq<Seq<char>>, sep: Seq<char>)
    requires
        parts.len() > 1,
    ensures
        joined(parts, sep) == parts[0] + sep + joined(parts.skip(1), sep),
    decreases parts.len(),
{
    let tail = parts.skip(1);
    if parts.len() == 2 {
        assert(parts.drop_last().len() == 1);
        assert(joined(parts.drop_last(), sep) == parts[0]);
        assert(joined(tail, sep) == parts[1]);
    } else {
        lemma_joined_first(parts.drop_last(), sep);
        assert(parts.drop_last().skip(1) == tail.drop_last());
        assert(tail.last() == parts.last());
        assert(joined(parts, sep) == (parts[0] + sep + joined(tail.drop_last(), sep)) + sep
            + parts.last());
        assert(joined(tail, sep) == joined(tail.drop_last(), sep) + sep + tail.last());
    }
}

} // verus!
