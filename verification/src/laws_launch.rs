//! What holds of an entry: what is checked and searched, and how it is
//! launched.

use vstd::prelude::*;
use vstd::string::*;
use vstd::utf8::encode_utf8;
use crate::config::{
    all_lowercase, any_browser_word, browser_word, config_warnings, found_in,
    last_absolute, AppEntry, Config,
};
use crate::launch::{
    first_hit, in_terminal_argv, log_line, no_hit_before, start_dir,
};
use crate::laws_text::law_a_word_is_a_word;
use crate::paths::{
    below, cache_dir_below, logs_below, name_start, parent, safe_name, usual_dir,
};
use crate::prefs::pref_file;
use crate::shell::{all_quoted, law_joined_is_argv, shell_words};
use crate::text::{has_text, joined, lowercase, white_space, words};

verus! {

/// Argument `i` of the command starts at the root.
spec fn root_argument(e: AppEntry, i: int) -> bool {
    0 <= i < e.command.len() && e.command@[i]@.len() > 0 && e.command@[i]@[0] == '/'
}

/// The path that is checked is the configured one. Where none is configured it
/// is the last argument that starts at the root: an argument that does, and
/// behind which none does. Where no argument does, nothing is checked.
pub proof fn law_last_root_argument_is_checked(e: AppEntry)
    ensures
        e.check_path matches Some(p) ==> e.path_to_check() == Some(p@),
        e.check_path is None ==> forall|i: int|
            #![trigger e.command@[i]]
            0 <= i < e.command.len() && e.command@[i]@.len() > 0 && e.command@[i]@[0] == '/' && (
            forall|j: int|
                #![trigger e.command@[j]]
                i < j < e.command.len() ==> e.command@[j]@.len() == 0 || e.command@[j]@[0] != '/')
                ==> e.path_to_check() == Some(e.command@[i]@),
        e.check_path is None && e.path_to_check() is Some ==> exists|i: int|
            #![trigger e.command@[i]]
            0 <= i < e.command.len() && e.command@[i]@.len() > 0 && e.command@[i]@[0] == '/'
                && e.path_to_check() == Some(e.command@[i]@) && forall|j: int|
                #![trigger e.command@[j]]
                i < j < e.command.len() ==> e.command@[j]@.len() == 0 || e.command@[j]@[0] != '/',
        e.check_path is None ==> (e.path_to_check() is None <==> forall|i: int|
            #![trigger e.command@[i]]
            0 <= i < e.command.len() ==> e.command@[i]@.len() == 0 || e.command@[i]@[0] != '/'),
{
    if e.check_path is None {
        let argv = e.command.deep_view();
        let n = argv.len();
        assert(argv.take(n as int) == argv);
        lemma_last_absolute(e, n);
        if e.path_to_check() is Some {
            let k = choose|k: int| #[trigger]
                root_argument(e, k) && k < n && last_absolute(argv) == Some(e.command@[k]@)
                    && forall|j: int| k < j < n ==> !#[trigger] root_argument(e, j);
            assert(e.command@[k]@[0] == '/');
            assert forall|j: int|
                #![trigger e.command@[j]]
                k < j < e.command.len() implies e.command@[j]@.len() == 0 || e.command@[j]@[0]
                != '/' by {
                assert(!root_argument(e, j));
            }
        } else {
            assert forall|i: int|
                #![trigger e.command@[i]]
                0 <= i < e.command.len() implies e.command@[i]@.len() == 0 || e.command@[i]@[0]
                != '/' by {
                assert(!root_argument(e, i));
            }
        }
    }
}

proof fn lemma_last_absolute(e: AppEntry, n: nat)
    requires
        n <= e.command.len(),
    ensures
        last_absolute(e.command.deep_view().take(n as int)) is None ==> forall|i: int|
            0 <= i < n ==> !#[trigger] root_argument(e, i),
        last_absolute(e.command.deep_view().take(n as int)) is Some ==> exists|k: int| #[trigger]
            root_argument(e, k) && k < n && last_absolute(e.command.deep_view().take(n as int))
                == Some(e.command@[k]@) && forall|j: int|
                k < j < n ==> !#[trigger] root_argument(e, j),
    decreases n,
{
    let part = e.command.deep_view().take(n as int);
    if n > 0 {
        lemma_last_absolute(e, (n - 1) as nat);
        assert(part.drop_last() == e.command.deep_view().take(n - 1));
        assert(part.last() == e.command@[n - 1]@);
        if root_argument(e, n - 1) {
            assert(last_absolute(part) == Some(e.command@[n - 1]@));
        } else if last_absolute(part) is Some {
            let k = choose|k: int| #[trigger]
                root_argument(e, k) && k < n - 1 && last_absolute(part) == Some(e.command@[k]@)
                    && forall|j: int| k < j < n - 1 ==> !#[trigger] root_argument(e, j);
            assert(root_argument(e, k));
            assert forall|j: int| k < j < n implies !#[trigger] root_argument(e, j) by {
            }
        }
    }
}

/// A web page is always available. Another entry is where it has a command and,
/// if it has a path to check, the path exists.
pub proof fn law_availability(e: AppEntry, present: bool)
    ensures
        e.url is Some ==> e.is_available(present),
        e.url is None && e.command.len() == 0 ==> !e.is_available(present),
        e.url is None && e.command.len() > 0 && (e.check_path is Some || exists|i: int|
            #![trigger e.command@[i]]
            0 <= i < e.command.len() && e.command@[i]@.len() > 0 && e.command@[i]@[0] == '/')
            ==> e.is_available(present) == present,
        e.url is None && e.command.len() > 0 && e.check_path is None && (forall|i: int|
            #![trigger e.command@[i]]
            0 <= i < e.command.len() ==> e.command@[i]@.len() == 0 || e.command@[i]@[0] != '/')
            ==> e.is_available(present),
{
    law_last_root_argument_is_checked(e);
}

/// A word, in lower case, stands in the name, the description or one of the
/// tags, in lower case.
spec fn word_in_fields(e: AppEntry, word: Seq<char>) -> bool {
    ||| has_text(lowercase(e.name@), lowercase(word))
    ||| has_text(lowercase(e.description@), lowercase(word))
    ||| exists|i: int|
        0 <= i < e.tags.len() && has_text(
            #[trigger] lowercase(e.tags@[i]@),
            lowercase(word),
        )
}

proof fn lemma_found_in_fields(e: AppEntry, word: Seq<char>)
    ensures
        found_in(all_lowercase(e.search_texts()), lowercase(word)) <==> word_in_fields(e, word),
{
    let texts = e.search_texts();
    let fields = all_lowercase(texts);
    let token = lowercase(word);
    assert(fields.len() == 2 + e.tags.len());
    assert(fields[0] == lowercase(e.name@));
    assert(fields[1] == lowercase(e.description@));
    assert forall|i: int| 0 <= i < e.tags.len() implies #[trigger] fields[2 + i] == lowercase(
        e.tags@[i]@,
    ) by {
        assert(texts[2 + i] == e.tags.deep_view()[i]);
    }
    if found_in(fields, token) {
        let k = choose|k: int| 0 <= k < fields.len() && has_text(#[trigger] fields[k], token);
        if k >= 2 {
            assert(fields[2 + (k - 2)] == lowercase(e.tags@[k - 2]@));
        }
    }
    if word_in_fields(e, word) {
        if has_text(lowercase(e.name@), token) {
            assert(has_text(fields[0], token));
        } else if has_text(lowercase(e.description@), token) {
            assert(has_text(fields[1], token));
        } else {
            let i = choose|i: int|
                0 <= i < e.tags.len() && has_text(#[trigger] lowercase(e.tags@[i]@), token);
            assert(has_text(fields[2 + i], token));
        }
    }
}

/// The search finds an entry just where every word stands in the name, the
/// description or one of the tags, whichever of them.
pub proof fn law_search_looks_at_every_field(e: AppEntry, needle: Seq<char>)
    ensures
        e.matches_needle(needle) <==> forall|k: int|
            #![trigger words(needle)[k]]
            0 <= k < words(needle).len() ==> has_text(lowercase(e.name@), lowercase(words(needle)[k])) || has_text(
                lowercase(e.description@),
                lowercase(words(needle)[k]),
            ) || exists|i: int|
                0 <= i < e.tags.len() && has_text(
                    lowercase(#[trigger] e.tags@[i]@),
                    lowercase(words(needle)[k]),
                ),
{
    let tokens = all_lowercase(words(needle));
    let fields = all_lowercase(e.search_texts());
    assert forall|k: int| 0 <= k < words(needle).len() implies (found_in(fields, #[trigger] tokens[k])
        <==> word_in_fields(e, words(needle)[k])) by {
        lemma_found_in_fields(e, words(needle)[k]);
    }
    if e.matches_needle(needle) {
        assert forall|k: int| 0 <= k < words(needle).len() implies word_in_fields(
            e,
            #[trigger] words(needle)[k],
        ) by {
            assert(found_in(fields, tokens[k]));
        }
    }
    if forall|k: int|
        0 <= k < words(needle).len() ==> word_in_fields(e, #[trigger] words(needle)[k]) {
        assert forall|k: int| 0 <= k < tokens.len() implies found_in(
            fields,
            #[trigger] tokens[k],
        ) by {
            assert(word_in_fields(e, words(needle)[k]));
        }
    }
}

/// A word that stands in the name, in the description or in any of the tags
/// finds the entry, and a word that stands in none of them does not.
pub proof fn law_one_word_search(e: AppEntry, word: Seq<char>, i: int)
    requires
        word.len() > 0,
        forall|k: int| 0 <= k < word.len() ==> !white_space(#[trigger] word[k]),
    ensures
        has_text(lowercase(e.name@), lowercase(word)) ==> e.matches_needle(word),
        has_text(lowercase(e.description@), lowercase(word)) ==> e.matches_needle(word),
        0 <= i < e.tags.len() && has_text(lowercase(e.tags@[i]@), lowercase(word))
            ==> e.matches_needle(word),
        e.matches_needle(word) ==> has_text(lowercase(e.name@), lowercase(word)) || has_text(
                lowercase(e.description@),
                lowercase(word),
            ) || exists|i: int|
                0 <= i < e.tags.len() && has_text(
                    lowercase(#[trigger] e.tags@[i]@),
                    lowercase(word),
                ),
{
    law_a_word_is_a_word(word);
    law_search_looks_at_every_field(e, word);
    assert(words(word)[0] == word);
}

/// Without a flag, an entry that is no web page needs a browser just where one
/// of its arguments or tags names one.
pub proof fn law_browser_guess(e: AppEntry)
    requires
        e.requires_browser is None,
    ensures
        e.url is Some ==> e.needs_browser(),
        e.url is None ==> (e.needs_browser() <==> {
            ||| exists|i: int|
                0 <= i < e.command.len() && browser_word(lowercase(#[trigger] e.command@[i]@))
            ||| exists|i: int|
                0 <= i < e.tags.len() && browser_word(lowercase(#[trigger] e.tags@[i]@))
        }),
{
    let all = all_lowercase(e.browser_texts());
    let n = e.command.len() as int;
    assert(all.len() == n + e.tags.len());
    assert forall|i: int| 0 <= i < n implies all[i] == lowercase(#[trigger] e.command@[i]@) by {
        assert(e.browser_texts()[i] == e.command.deep_view()[i]);
    }
    assert forall|i: int| 0 <= i < e.tags.len() implies all[n + i] == lowercase(
        #[trigger] e.tags@[i]@,
    ) by {
        assert(e.browser_texts()[n + i] == e.tags.deep_view()[i]);
    }
    if any_browser_word(all) {
        let k = choose|k: int| 0 <= k < all.len() && browser_word(#[trigger] all[k]);
        if k < n {
            assert(all[k] == lowercase(e.command@[k]@));
        } else {
            assert(all[n + (k - n)] == lowercase(e.tags@[k - n]@));
        }
    }
    if exists|i: int|
        0 <= i < e.command.len() && browser_word(lowercase(#[trigger] e.command@[i]@)) {
        let i = choose|i: int|
            0 <= i < e.command.len() && browser_word(lowercase(#[trigger] e.command@[i]@));
        assert(browser_word(all[i]));
    }
    if exists|i: int| 0 <= i < e.tags.len() && browser_word(lowercase(#[trigger] e.tags@[i]@)) {
        let i = choose|i: int|
            0 <= i < e.tags.len() && browser_word(lowercase(#[trigger] e.tags@[i]@));
        assert(browser_word(all[n + i]));
    }
}

/// Each name of a browser, and of what runs in one, is known by itself.
pub proof fn law_browser_names(s: Seq<char>)
    ensures
        has_text(s, "firefox"@) || has_text(s, "chrome"@) || has_text(s, "chromium"@)
            || has_text(s, "browser"@) || has_text(s, "jupyter"@) || has_text(s, "marimo"@)
            || has_text(s, "portal"@) || has_text(s, "website"@) || has_text(s, "web"@)
            <==> browser_word(s),
{
}

/// An entry more in the configuration adds a warning just where its category is
/// not defined, behind the warnings of the entries before it. The warning names
/// the entry and the category.
pub proof fn law_warnings_follow_the_entries(before: Config, after: Config, a: AppEntry)
    requires
        after.categories == before.categories,
        after.apps@ == before.apps@.push(a),
    ensures
        ({
            let text = "\""@ + a.name@ + "\" references unknown category \""@ + a.category@ + "\""@;
            let known = exists|k: int|
                0 <= k < before.categories.len() && (#[trigger] before.categories@[k]).id@
                    == a.category@;
            config_warnings(after) == if known {
                config_warnings(before)
            } else {
                config_warnings(before).push(text)
            }
        }),
{
    reveal(Seq::filter);
    let ids = before.category_ids();
    let unknown = |x: AppEntry| !ids.contains(x.category@);
    assert(after.category_ids() == ids);
    assert(after.apps@.drop_last() == before.apps@);
    assert(after.apps@.last() == a);
    let known = exists|k: int|
        0 <= k < before.categories.len() && (#[trigger] before.categories@[k]).id@ == a.category@;
    if known {
        let k = choose|k: int|
            0 <= k < before.categories.len() && (#[trigger] before.categories@[k]).id@
                == a.category@;
        assert(ids[k] == a.category@);
    } else if ids.contains(a.category@) {
        let k = choose|k: int| 0 <= k < ids.len() && ids[k] == a.category@;
        assert(before.categories@[k].id@ == a.category@);
    }
    assert(config_warnings(after) =~= if known {
        config_warnings(before)
    } else {
        config_warnings(before).push(crate::config::unknown_category(a))
    });
}

/// A command in a terminal stands behind the terminal and the terminal's own
/// arguments. Held open, it is a script for the shell: it begins with the
/// command, quoted so that the shell reads it back as it was, and ends by
/// waiting for Enter. Not held open, the command follows as it is.
pub proof fn law_terminal_wraps_the_command(
    program: Seq<char>,
    args: Seq<Seq<char>>,
    hold: bool,
    plain: Seq<Seq<char>>,
)
    ensures
        ({
            let argv = in_terminal_argv(program, args, hold, plain);
            let n = args.len() as int;
            &&& argv.len() > n
            &&& argv[0] == program
            &&& argv.subrange(1, n + 1) == args
            &&& !hold ==> argv.skip(n + 1) == plain
            &&& hold ==> {
                &&& argv.len() == n + 4
                &&& argv[n + 1] == "/bin/bash"@
                &&& argv[n + 2] == "-c"@
                &&& exists|command: Seq<char>|
                    #![trigger shell_words(command, false, None)]
                    shell_words(command, false, None) == Some(plain) && argv[n + 3] == command
                        + "; echo; read -r -p 'Press Enter to close...'"@
            }
        }),
{
    let argv = in_terminal_argv(program, args, hold, plain);
    let n = args.len() as int;
    assert(argv.subrange(1, n + 1) == args);
    if hold {
        law_joined_is_argv(plain);
        let command = joined(all_quoted(plain), seq![' ']);
        assert(shell_words(command, false, None) == Some(plain));
        assert(argv[n + 3] == command + "; echo; read -r -p 'Press Enter to close...'"@);
    } else {
        assert(argv.skip(n + 1) == plain);
    }
}

/// The flags of an entry decide: `in_terminal` whether a terminal that was
/// found runs the command, `hold_terminal` whether the terminal waits for Enter
/// afterwards. Without a terminal the command runs as it is.
pub proof fn law_terminal_flags_decide(
    e: AppEntry,
    plain: Seq<Seq<char>>,
    program: String,
    args: Vec<String>,
)
    ensures
        e.start_argv(plain, None) == plain,
        !e.in_terminal ==> e.start_argv(plain, Some((program, args))) == plain,
        e.in_terminal ==> {
            let argv = e.start_argv(plain, Some((program, args)));
            let n = args.len() as int;
            &&& argv.len() > n
            &&& argv[0] == program@
            &&& argv.subrange(1, n + 1) == args.deep_view()
            &&& !e.hold_terminal ==> argv.skip(n + 1) == plain
            &&& e.hold_terminal ==> {
                &&& argv.len() == n + 4
                &&& argv[n + 1] == "/bin/bash"@
                &&& argv[n + 2] == "-c"@
                &&& exists|command: Seq<char>|
                    #![trigger shell_words(command, false, None)]
                    shell_words(command, false, None) == Some(plain) && argv[n + 3] == command
                        + "; echo; read -r -p 'Press Enter to close...'"@
            }
        },
{
    law_terminal_wraps_the_command(program@, args.deep_view(), e.hold_terminal, plain);
}

/// A web page is handed to the opener, and to nothing where there is none;
/// another entry runs its command, every argument in its place.
pub proof fn law_plain_command(e: AppEntry, opener: Option<Seq<char>>)
    ensures
        e.url matches Some(u) ==> (opener matches Some(o) ==> e.plain_argv(opener) == Some(
            seq![o, u@],
        )),
        e.url is Some && opener is None ==> e.plain_argv(opener) is None,
        e.url is None ==> (e.plain_argv(opener) matches Some(argv) && argv.len() == e.command.len()
            && forall|i: int| 0 <= i < argv.len() ==> #[trigger] argv[i] == e.command@[i]@),
{
}

/// A process starts in the configured directory; without one beside the checked
/// path; without either at the root.
pub proof fn law_start_directory(configured: Option<Seq<char>>, beside: Option<Seq<char>>)
    ensures
        configured matches Some(d) ==> start_dir(configured, beside) == d,
        configured is None ==> (beside matches Some(d) ==> start_dir(configured, beside) == d),
        configured is None && beside is None ==> start_dir(configured, beside) == seq!['/'],
{
    reveal_strlit("/");
    assert("/"@ == seq!['/']);
}

/// What stands beside the checked path is its directory: that of the configured
/// path, else that of the last argument that starts at the root.
pub proof fn law_beside_the_checked_path(e: AppEntry, i: int)
    ensures
        e.check_path matches Some(p) ==> e.beside_checked_path() == parent(p@),
        e.check_path is None && 0 <= i < e.command.len() && e.command@[i]@.len() > 0
            && e.command@[i]@[0] == '/' && (forall|j: int|
            #![trigger e.command@[j]]
            i < j < e.command.len() ==> e.command@[j]@.len() == 0 || e.command@[j]@[0] != '/')
            ==> e.beside_checked_path() == parent(e.command@[i]@),
        e.check_path is None && (forall|j: int|
            #![trigger e.command@[j]]
            0 <= j < e.command.len() ==> e.command@[j]@.len() == 0 || e.command@[j]@[0] != '/')
            ==> e.beside_checked_path() is None,
{
    law_last_root_argument_is_checked(e);
}

/// The program that is taken is found where it is taken from, no preferred
/// program is found in any directory, and no earlier directory has it. Nothing
/// is taken just where nothing is found anywhere.
pub proof fn law_preferred_program_is_taken(found: Seq<Vec<bool>>, n: int, d: int)
    ensures
        first_hit(found, n, d) <==> {
            &&& 0 <= n < found.len()
            &&& 0 <= d < found[n]@.len()
            &&& found[n]@[d]
            &&& forall|e: int| 0 <= e < d ==> !#[trigger] found[n]@[e]
            &&& forall|m: int, e: int|
                0 <= m < n && 0 <= e < found[m]@.len() ==> !#[trigger] found[m]@[e]
        },
        no_hit_before(found, found.len() as int) <==> forall|m: int, e: int|
            0 <= m < found.len() && 0 <= e < found[m]@.len() ==> !#[trigger] found[m]@[e],
{
}

/// A relative path is put behind the directory, with one separator between
/// them; an absolute path stays itself.
pub proof fn law_paths_are_put_below(base: Seq<u8>, rel: Seq<u8>)
    ensures
        rel.len() > 0 && rel[0] == '/' as u8 ==> below(base, rel) == rel,
        (rel.len() == 0 || rel[0] != '/' as u8) && base.len() > 0 && base.last() != '/' as u8
            ==> below(base, rel) == base + seq!['/' as u8] + rel,
        (rel.len() == 0 || rel[0] != '/' as u8) && (base.len() == 0 || base.last() == '/' as u8)
            ==> below(base, rel) == base + rel,
{
    assert(base.push('/' as u8) + rel == base + seq!['/' as u8] + rel);
}

/// The directory of a path is what stands before its last name.
pub proof fn law_directory_of_a_path(dir: Seq<char>, name: Seq<char>)
    requires
        name.len() > 0,
        name != seq!['.'],
        forall|i: int| 0 <= i < name.len() ==> #[trigger] name[i] != '/',
    ensures
        usual_dir(name) == Some(Seq::<char>::empty()),
        usual_dir(seq!['/'] + name) == Some(seq!['/']),
        dir.len() > 0 && dir.last() != '/' && dir.last() != '.' ==> usual_dir(
            dir + seq!['/'] + name,
        ) == Some(dir),
{
    let empty = Seq::<char>::empty();
    lemma_name_start(empty, name);
    assert(empty + name == name);
    assert(name.skip(0) == name);
    let top = seq!['/'];
    lemma_name_start(top, name);
    assert((top + name).skip(1) == name);
    let before = dir + seq!['/'];
    lemma_name_start(before, name);
    let path = dir + seq!['/'] + name;
    assert(path.skip(before.len() as int) == name);
    if dir.len() > 0 {
        assert(path[before.len() - 2] == dir.last());
        assert(path.take(before.len() - 1) == dir);
    }
}

proof fn lemma_name_start(before: Seq<char>, name: Seq<char>)
    requires
        before.len() == 0 || before.last() == '/',
        forall|i: int| 0 <= i < name.len() ==> #[trigger] name[i] != '/',
    ensures
        name_start(before + name) == before.len(),
    decreases name.len(),
{
    let path = before + name;
    if name.len() == 0 {
        assert(path == before);
    } else {
        assert(path.last() == name[name.len() - 1]);
        assert(path.drop_last() == before + name.drop_last());
        assert forall|i: int| 0 <= i < name.drop_last().len() implies #[trigger] name.drop_last()[i]
            != '/' by {
            assert(name[i] != '/');
        }
        lemma_name_start(before, name.drop_last());
    }
}

/// A log file is named after its application: every ASCII letter and digit
/// stays, and an underscore stands for every other character.
pub proof fn law_log_name_keeps_letters(name: Seq<char>)
    ensures
        safe_name(name).len() == name.len(),
        forall|i: int|
            0 <= i < name.len() ==> #[trigger] safe_name(name)[i] == if ('a' <= name[i] <= 'z')
                || ('A' <= name[i] <= 'Z') || ('0' <= name[i] <= '9') {
                name[i]
            } else {
                '_'
            },
{
}

/// The launcher keeps its own files in one directory below the user's home.
pub proof fn law_own_directory(home: Seq<u8>)
    ensures
        cache_dir_below(home) == below(home, encode_utf8(".cache/unified_launcher"@)),
        logs_below(home) == below(
            below(home, encode_utf8(".cache/unified_launcher"@)),
            encode_utf8("logs"@),
        ),
{
}

/// A preference stands in the directory that the environment names, else in
/// that of the home directory; an empty name counts as none.
pub proof fn law_preference_file(xdg: Option<Vec<u8>>, home: Option<Vec<u8>>, name: Seq<char>)
    ensures
        ({
            let tools = encode_utf8("venus_rust_tools"@);
            let named = xdg matches Some(x) && x@.len() > 0;
            &&& named ==> pref_file(xdg, home, name) == Some(
                below(below(xdg->Some_0@, tools), encode_utf8(name)),
            )
            &&& !named ==> (home matches Some(h) ==> pref_file(xdg, home, name) == Some(
                below(below(below(h@, encode_utf8(".config"@)), tools), encode_utf8(name)),
            ))
            &&& !named && home is None ==> pref_file(xdg, home, name) is None
        }),
{
}

/// The log begins with the command: a dollar sign, and the arguments with a
/// blank between any two of them.
pub proof fn law_log_begins_with_the_command(first: Seq<Seq<char>>, arg: Seq<char>)
    ensures
        log_line(seq![arg]) == "$ "@ + arg + "\n"@,
        first.len() > 0 ==> log_line(first.push(arg)) == log_line(first).drop_last() + seq![
            ' ',
        ] + arg + "\n"@,
{
    reveal_strlit("\n");
    assert(first.push(arg).drop_last() == first);
    let line = joined(first, seq![' ']);
    assert(log_line(first).drop_last() == "$ "@ + line);
    if first.len() > 0 {
        assert(joined(first.push(arg), seq![' ']) == line + seq![' '] + arg);
        assert(log_line(first.push(arg)) == "$ "@ + (line + seq![' '] + arg) + "\n"@);
    }
}

/// What an entry needs in order to run: its page; without one the path that is
/// checked; without either its command, with a blank between any two arguments.
pub proof fn law_target(e: AppEntry)
    ensures
        e.url matches Some(u) ==> e.target_text() == u@ && e.command_text() == u@,
        e.url is None ==> (e.path_to_check() matches Some(p) ==> e.target_text() == p),
        e.url is None && e.path_to_check() is None ==> e.target_text() == e.command_text(),
        e.url is None ==> e.command_text() == joined(e.command.deep_view(), seq![' ']),
{
    reveal_strlit(" ");
    assert(" "@ == seq![' ']);
}

} // verus!
