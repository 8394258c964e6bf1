//! Quoting of command lines for `bash -c`.

use vstd::prelude::*;
use vstd::string::*;
use crate::text::{chars_of, join, joined, lemma_joined_first};

verus! {

/// What stands for `c` between single quotes: a quote closes the quotation,
/// stands behind a backslash, and opens the next one.
pub open spec fn quoted_char(c: char) -> Seq<char> {
    if c == '\'' {
        seq!['\'', '\\', '\'', '\'']
    } else {
        seq![c]
    }
}

/// What stands for `s` between single quotes.
pub open spec fn quoted_body(s: Seq<char>) -> Seq<char>
    decreases s.len(),
{
    if s.len() == 0 {
        Seq::empty()
    } else {
        quoted_char(s[0]) + quoted_body(s.skip(1))
    }
}

/// `s` as one single-quoted shell word.
pub open spec fn quoted(s: Seq<char>) -> Seq<char> {
    seq!['\''] + quoted_body(s) + seq!['\'']
}

/// Every argument as a single-quoted shell word.
pub open spec fn all_quoted(argv: Seq<Seq<char>>) -> Seq<Seq<char>> {
    argv.map_values(|a: Seq<char>| quoted(a))
}

/// Single-quotes a text for safe interpolation into a `bash -c` command.
pub fn shell_quote(s: &str) -> (r: String)
    ensures
        r@ == quoted(s@),
{
    let v = chars_of(s);
    let mut r = String::new();
    r.push('\'');
    let mut i: usize = 0;
    assert(v@.skip(0) == s@);
    while i < v.len()
        invariant
            i <= v.len(),
            r@ + quoted_body(v@.skip(i as int)) == seq!['\''] + quoted_body(s@),
        decreases v.len() - i,
    {
        let ghost before = r@;
        assert(v@.skip(i as int).skip(1) == v@.skip(i + 1));
        if v[i] == '\'' {
            r.push('\'');
            r.push('\\');
            r.push('\'');
            r.push('\'');
        } else {
            r.push(v[i]);
        }
        assert(r@ == before + quoted_char(v@[i as int]));
        assert(before + quoted_body(v@.skip(i as int)) == r@ + quoted_body(v@.skip(i + 1)));
        i += 1;
    }
    assert(quoted_body(v@.skip(i as int)) == Seq::<char>::empty());
    r.push('\'');
    r
}

/// The arguments as one shell command, each single-quoted, with a blank
/// between any two of them.
pub fn shell_join(argv: &Vec<String>) -> (r: String)
    ensures
        r@ == joined(all_quoted(argv.deep_view()), seq![' ']),
{
    let mut parts: Vec<String> = Vec::new();
    let mut i: usize = 0;
    while i < argv.len()
        invariant
            i <= argv.len(),
            parts.len() == i,
            forall|j: int| 0 <= j < i ==> #[trigger] parts[j]@ == quoted(argv[j]@),
        decreases argv.len() - i,
    {
        parts.push(shell_quote(argv[i].as_str()));
        i += 1;
    }
    assert(parts.deep_view() == all_quoted(argv.deep_view()));
    proof {
        reveal_strlit(" ");
    }
    assert(" "@ == seq![' ']);
    join(&parts, " ")
}

/// How a shell reads a command of quotations, escaped characters and blanks.
///
/// `open` tells whether a quotation is open, `word` is what has been read of
/// the current word. The result is the words of the command, or `None` where
/// the command holds anything else: a bare character (which could be an
/// operator, an expansion or a pattern), a backslash at its end or before a
/// line feed, or a quotation that is not closed.
pub open spec fn shell_words(t: Seq<char>, open: bool, word: Option<Seq<char>>) -> Option<
    Seq<Seq<char>>,
>
    decreases t.len(),
{
    let so_far = match word {
        Some(w) => w,
        None => Seq::empty(),
    };
    if t.len() == 0 {
        if open {
            None
        } else if word is Some {
            Some(seq![so_far])
        } else {
            Some(Seq::empty())
        }
    } else if open {
        if t[0] == '\'' {
            shell_words(t.skip(1), false, Some(so_far))
        } else {
            shell_words(t.skip(1), true, Some(so_far.push(t[0])))
        }
    } else if t[0] == '\'' {
        shell_words(t.skip(1), true, Some(so_far))
    } else if t[0] == '\\' && t.len() > 1 && t[1] != '\n' {
        shell_words(t.skip(2), false, Some(so_far.push(t[1])))
    } else if t[0] == ' ' {
        match shell_words(t.skip(1), false, None) {
            Some(rest) => if word is Some {
                Some(seq![so_far] + rest)
            } else {
                Some(rest)
            },
            None => None,
        }
    } else {
        None
    }
}

/// A quotation is read to its end and adds the quoted text to the word.
proof fn lemma_quotation_read(s: Seq<char>, rest: Seq<char>, w: Seq<char>)
    ensures
        shell_words(quoted_body(s) + seq!['\''] + rest, true, Some(w)) == shell_words(
            rest,
            false,
            Some(w + s),
        ),
    decreases s.len(),
{
    let t = quoted_body(s) + seq!['\''] + rest;
    if s.len() == 0 {
        assert(t[0] == '\'');
        assert(t.skip(1) == rest);
        assert(w + s == w);
    } else {
        let more = quoted_body(s.skip(1)) + seq!['\''] + rest;
        assert(t == quoted_char(s[0]) + more);
        lemma_quotation_read(s.skip(1), rest, w.push(s[0]));
        assert(w.push(s[0]) + s.skip(1) == w + s);
        if s[0] == '\'' {
            let t1 = t.skip(1);
            let t2 = t1.skip(2);
            assert(t[0] == '\'' && t1[0] == '\\' && t1[1] == '\'' && t2[0] == '\'');
            assert(t2.skip(1) == more);
            assert(shell_words(t, true, Some(w)) == shell_words(t1, false, Some(w)));
            assert(shell_words(t1, false, Some(w)) == shell_words(t2, false, Some(w.push('\''))));
            assert(shell_words(t2, false, Some(w.push('\''))) == shell_words(
                more,
                true,
                Some(w.push('\'')),
            ));
        } else {
            assert(t.skip(1) == more);
        }
    }
}

/// A quoted text is read back as the text, whatever it holds.
pub proof fn law_quoted_is_one_word(s: Seq<char>)
    ensures
        shell_words(quoted(s), false, None) == Some(seq![s]),
{
    let t = quoted(s);
    let none = Seq::<char>::empty();
    lemma_quotation_read(s, none, none);
    assert(t.skip(1) == quoted_body(s) + seq!['\''] + none);
    assert(none + s == s);
    assert(shell_words(none, false, Some(s)) == Some(seq![s]));
}

/// A quoted command is read back as the arguments that it was made from:
/// as many words, in the same order, each as it was.
pub proof fn law_joined_is_argv(argv: Seq<Seq<char>>)
    ensures
        shell_words(joined(all_quoted(argv), seq![' ']), false, None) == Some(argv),
    decreases argv.len(),
{
    let parts = all_quoted(argv);
    let t = joined(parts, seq![' ']);
    let none = Seq::<char>::empty();
    if argv.len() == 0 {
        assert(argv == Seq::<Seq<char>>::empty());
    } else if argv.len() == 1 {
        law_quoted_is_one_word(argv[0]);
        assert(argv == seq![argv[0]]);
    } else {
        lemma_joined_first(parts, seq![' ']);
        law_joined_is_argv(argv.skip(1));
        assert(parts.skip(1) == all_quoted(argv.skip(1)));
        let more = joined(parts.skip(1), seq![' ']);
        let rest = seq![' '] + more;
        let a = argv[0];
        lemma_quotation_read(a, rest, none);
        assert(t.skip(1) == quoted_body(a) + seq!['\''] + rest);
        assert(t[0] == '\'');
        assert(none + a == a);
        assert(rest.skip(1) == more);
        assert(seq![a] + argv.skip(1) == argv);
    }
}

} // verus!
