//! The configuration: what the launcher shows and how each entry is read.

use vstd::prelude::*;
use vstd::string::*;
use vstd::utf8::is_ascii_chars;
use crate::laws_launch::{law_last_root_argument_is_checked, law_search_looks_at_every_field};
use crate::text::{
    ascii_lowered, chars_of, contains_text, has_text, lemma_words_ascii, lowercase,
    lowered_by_rule, split_whitespace, to_lowercase, words,
};

verus! {

/// Where the configuration is looked for when nothing else names it.
pub const DEFAULT_CONFIG: &'static str =
    "/SNS/VENUS/shared/software/git/rust_unified_launcher/applications.toml";

/// Everything that the configuration file says.
#[derive(Debug)]
pub struct Config {
    pub title: String,
    pub subtitle: String,
    /// Directory below which every successful launch is recorded.
    pub usage_db: Option<String>,
    pub categories: Vec<Category>,
    pub apps: Vec<AppEntry>,
}

/// A group of applications.
#[derive(Debug)]
pub struct Category {
    pub id: String,
    pub name: String,
    /// Not empty: the category is locked until one of these passwords is
    /// typed, in capitals or not. While it is locked its applications are
    /// hidden from the list of all applications, from the search results and
    /// from the recently used ones.
    pub passwords: Vec<String>,
}

/// An application, or a web page.
#[derive(Debug)]
pub struct AppEntry {
    pub name: String,
    pub description: String,
    /// Id of the category that the entry belongs to.
    pub category: String,
    /// Heading inside the category. It is shown wherever the section of the
    /// listed entries changes, so entries of one section stand together.
    pub section: Option<String>,
    /// The arguments of the process, its executable first. May be empty where
    /// `url` is set.
    pub command: Vec<String>,
    /// Web page opened in the default browser instead of running `command`.
    pub url: Option<String>,
    /// Working directory of the process; the directory of the checked path
    /// where it is not set.
    pub workdir: Option<String>,
    /// Path of a screenshot.
    pub preview: Option<String>,
    /// Path whose existence decides availability; where it is not set, the
    /// last argument that starts with `/`.
    pub check_path: Option<String>,
    /// Run inside a terminal emulator, so that console output stays visible.
    pub in_terminal: bool,
    /// With `in_terminal`: keep the window open after the command exits.
    pub hold_terminal: bool,
    /// Remove the font cache before launching.
    pub clear_fontconfig: bool,
    /// Whether launching opens, or depends on, a web browser; guessed where it
    /// is not set.
    pub requires_browser: Option<bool>,
    /// Further words that the search finds.
    pub tags: Vec<String>,
}

/// The title where the configuration gives none.
pub fn default_title() -> (r: String)
    ensures
        r@ == "Neutron Imaging Launcher"@,
{
    "Neutron Imaging Launcher".to_owned()
}

/// The subtitle where the configuration gives none.
pub fn default_subtitle() -> (r: String)
    ensures
        r@ == "Select the application you want to launch"@,
{
    "Select the application you want to launch".to_owned()
}

/// The path of the configuration file: the first argument of the program,
/// else the value of `UNIFIED_LAUNCHER_CONFIG`, else the usual place.
pub fn config_path(argument: Option<String>, variable: Option<String>) -> (r: String)
    ensures
        argument matches Some(a) ==> r@ == a@,
        argument is None ==> (variable matches Some(v) ==> r@ == v@),
        argument is None && variable is None ==> r@ == DEFAULT_CONFIG@,
{
    match argument {
        Some(a) => a,
        None => match variable {
            Some(v) => v,
            None => DEFAULT_CONFIG.to_owned(),
        },
    }
}

/// What reading and parsing the configuration file came to. `outcome` is an
/// error where the file could not be read, and holds an error where it could
/// not be parsed.
pub fn load_config(path: &str, outcome: Result<Result<Config, String>, String>) -> (r: Result<
    Config,
    String,
>)
    ensures
        outcome matches Err(e) ==> (r matches Err(m) && m@ == "Cannot read "@ + path@ + ": "@
            + e@),
        outcome matches Ok(Err(e)) ==> (r matches Err(m) && m@ == "Bad TOML in "@ + path@ + ": "@
            + e@),
        outcome matches Ok(Ok(c)) ==> r == Ok::<Config, String>(c),
{
    match outcome {
        Err(e) => {
            let mut m = "Cannot read ".to_owned();
            m.append(path);
            m.append(": ");
            m.append(e.as_str());
            Err(m)
        },
        Ok(Err(e)) => {
            let mut m = "Bad TOML in ".to_owned();
            m.append(path);
            m.append(": ");
            m.append(e.as_str());
            Err(m)
        },
        Ok(Ok(c)) => Ok(c),
    }
}

/// The path starts at the root.
pub open spec fn absolute(s: Seq<char>) -> bool {
    s.len() > 0 && s[0] == '/'
}

/// The last argument that starts at the root.
pub open spec fn last_absolute(argv: Seq<Seq<char>>) -> Option<Seq<char>>
    decreases argv.len(),
{
    if argv.len() == 0 {
        None
    } else if absolute(argv.last()) {
        Some(argv.last())
    } else {
        last_absolute(argv.drop_last())
    }
}

/// One of the texts holds `token`.
pub open spec fn found_in(fields: Seq<Seq<char>>, token: Seq<char>) -> bool {
    exists|i: int| 0 <= i < fields.len() && has_text(#[trigger] fields[i], token)
}

/// Each token stands in one of the texts.
pub open spec fn all_found_in(fields: Seq<Seq<char>>, tokens: Seq<Seq<char>>) -> bool {
    forall|k: int| 0 <= k < tokens.len() ==> found_in(fields, #[trigger] tokens[k])
}

/// Every text through `lowercase`.
pub open spec fn all_lowercase(texts: Seq<Seq<char>>) -> Seq<Seq<char>> {
    texts.map_values(|s: Seq<char>| lowercase(s))
}

/// Every text is made of ASCII characters.
pub open spec fn all_ascii(texts: Seq<Seq<char>>) -> bool {
    forall|i: int| 0 <= i < texts.len() ==> is_ascii_chars(#[trigger] texts[i])
}

/// Every text through `ascii_lowered`.
pub open spec fn all_ascii_lowered(texts: Seq<Seq<char>>) -> Seq<Seq<char>> {
    texts.map_values(|s: Seq<char>| ascii_lowered(s))
}

/// Each text, where it is made of ASCII characters, goes to lower case letter
/// by letter, whatever the others hold.
pub open spec fn all_lowered_by_rule(texts: Seq<Seq<char>>) -> bool {
    forall|i: int| 0 <= i < texts.len() ==> lowered_by_rule(#[trigger] texts[i])
}

/// Whether one of `fields` holds `token`.
pub fn token_found(fields: &Vec<String>, token: &str) -> (r: bool)
    ensures
        r == found_in(fields.deep_view(), token@),
{
    let mut i: usize = 0;
    while i < fields.len()
        invariant
            i <= fields.len(),
            forall|j: int| 0 <= j < i ==> !has_text(#[trigger] fields.deep_view()[j], token@),
        decreases fields.len() - i,
    {
        if contains_text(fields[i].as_str(), token) {
            assert(has_text(fields.deep_view()[i as int], token@));
            return true;
        }
        i += 1;
    }
    false
}

/// Whether each of `tokens` stands in one of `fields`.
pub fn all_tokens_found(fields: &Vec<String>, tokens: &Vec<String>) -> (r: bool)
    ensures
        r == all_found_in(fields.deep_view(), tokens.deep_view()),
{
    let mut k: usize = 0;
    while k < tokens.len()
        invariant
            k <= tokens.len(),
            forall|j: int|
                0 <= j < k ==> found_in(fields.deep_view(), #[trigger] tokens.deep_view()[j]),
        decreases tokens.len() - k,
    {
        if !token_found(fields, tokens[k].as_str()) {
            assert(!found_in(fields.deep_view(), tokens.deep_view()[k as int]));
            return false;
        }
        k += 1;
    }
    true
}

/// Every text in lower case.
pub fn lower_all(texts: &Vec<String>) -> (r: Vec<String>)
    ensures
        r.deep_view() == all_lowercase(texts.deep_view()),
        forall|i: int|
            0 <= i < texts.len() && is_ascii_chars(texts.deep_view()[i])
                ==> #[trigger] r.deep_view()[i] == ascii_lowered(texts.deep_view()[i]),
        all_lowered_by_rule(texts.deep_view()),
        all_ascii(texts.deep_view()) ==> r.deep_view() == all_ascii_lowered(texts.deep_view()),
{
    let mut r: Vec<String> = Vec::new();
    let mut i: usize = 0;
    while i < texts.len()
        invariant
            i <= texts.len(),
            r.len() == i,
            forall|j: int| 0 <= j < i ==> #[trigger] r[j]@ == lowercase(texts[j]@),
            forall|j: int|
                0 <= j < i && is_ascii_chars(texts.deep_view()[j]) ==> #[trigger] r[j]@
                    == ascii_lowered(texts[j]@),
        decreases texts.len() - i,
    {
        r.push(to_lowercase(texts[i].as_str()));
        i += 1;
    }
    assert(r.deep_view() == all_lowercase(texts.deep_view()));
    proof {
        assert forall|j: int| 0 <= j < texts.len() implies lowered_by_rule(
            #[trigger] texts.deep_view()[j],
        ) by {
            assert(r[j]@ == lowercase(texts[j]@));
        }
        if all_ascii(texts.deep_view()) {
            assert forall|j: int| 0 <= j < texts.len() implies #[trigger] r[j]@ == ascii_lowered(
                texts[j]@,
            ) by {
                assert(is_ascii_chars(texts.deep_view()[j]));
            }
            assert(r.deep_view() == all_ascii_lowered(texts.deep_view()));
        }
    }
    r
}

/// A text in lower case names a browser, or something that runs in one.
pub open spec fn browser_word(s: Seq<char>) -> bool {
    ||| has_text(s, "firefox"@)
    ||| has_text(s, "chrome"@)
    ||| has_text(s, "chromium"@)
    ||| has_text(s, "browser"@)
    ||| has_text(s, "jupyter"@)
    ||| has_text(s, "marimo"@)
    ||| has_text(s, "portal"@)
    ||| has_text(s, "website"@)
    ||| has_text(s, "web"@)
}

/// One of the texts, in lower case, names a browser.
pub open spec fn any_browser_word(texts: Seq<Seq<char>>) -> bool {
    exists|i: int| 0 <= i < texts.len() && browser_word(#[trigger] texts[i])
}

/// Whether one of the texts, given in lower case, names a browser or something
/// that runs in one.
pub fn names_browser(texts: &Vec<String>) -> (r: bool)
    ensures
        r == any_browser_word(texts.deep_view()),
{
    let mut i: usize = 0;
    while i < texts.len()
        invariant
            i <= texts.len(),
            forall|j: int| 0 <= j < i ==> !browser_word(#[trigger] texts.deep_view()[j]),
        decreases texts.len() - i,
    {
        let s = texts[i].as_str();
        if contains_text(s, "firefox") || contains_text(s, "chrome") || contains_text(s, "chromium")
            || contains_text(s, "browser") || contains_text(s, "jupyter") || contains_text(
            s,
            "marimo",
        ) || contains_text(s, "portal") || contains_text(s, "website") || contains_text(s, "web") {
            assert(browser_word(texts.deep_view()[i as int]));
            return true;
        }
        i += 1;
    }
    false
}

fn starts_at_root(s: &str) -> (r: bool)
    ensures
        r == absolute(s@),
{
    let v = chars_of(s);
    v.len() > 0 && v[0] == '/'
}

impl AppEntry {
    /// The path whose existence decides availability.
    pub open spec fn path_to_check(&self) -> Option<Seq<char>> {
        match self.check_path {
            Some(p) => Some(p@),
            None => last_absolute(self.command.deep_view()),
        }
    }

    /// The path whose existence decides availability.
    pub fn checked_path(&self) -> (r: Option<String>)
        ensures
            r is Some <==> self.path_to_check() is Some,
            r matches Some(p) ==> self.path_to_check() == Some(p@),
            self.check_path matches Some(p) ==> r is Some && r->Some_0@ == p@,
            self.check_path is None && r is None ==> forall|i: int|
                #![trigger self.command@[i]]
                0 <= i < self.command.len() ==> self.command@[i]@.len() == 0
                    || self.command@[i]@[0] != '/',
            self.check_path is None && r is Some ==> exists|i: int|
                #![trigger self.command@[i]]
                0 <= i < self.command.len() && self.command@[i]@.len() > 0
                    && self.command@[i]@[0] == '/' && r->Some_0@ == self.command@[i]@
                    && forall|j: int|
                    #![trigger self.command@[j]]
                    i < j < self.command.len() ==> self.command@[j]@.len() == 0
                        || self.command@[j]@[0] != '/',
    {
        proof {
            law_last_root_argument_is_checked(*self);
        }
        if let Some(p) = &self.check_path {
            return Some(p.clone());
        }
        let ghost argv = self.command.deep_view();
        let mut i: usize = self.command.len();
        assert(argv.take(i as int) == argv);
        while i > 0
            invariant
                i <= self.command.len(),
                self.check_path is None,
                argv == self.command.deep_view(),
                last_absolute(argv.take(i as int)) == last_absolute(argv),
            decreases i,
        {
            assert(argv.take(i as int).drop_last() == argv.take(i - 1));
            i -= 1;
            if starts_at_root(self.command[i].as_str()) {
                proof {
                    law_last_root_argument_is_checked(*self);
                }
                return Some(self.command[i].clone());
            }
        }
        None
    }

    /// The entry can be launched, given whether its checked path exists.
    pub open spec fn is_available(&self, present: bool) -> bool {
        ||| self.url is Some
        ||| self.command.len() > 0 && (self.path_to_check() is Some ==> present)
    }

    /// Whether the entry can be launched: a web page always, an application
    /// where it has a command and its checked path, if it has one, exists.
    pub fn available(&self, present: bool) -> (r: bool)
        ensures
            r == self.is_available(present),
    {
        if self.url.is_some() {
            return true;
        }
        self.command.len() > 0 && (present || self.checked_path().is_none())
    }

    /// What the guess about a browser looks at: the command and the tags.
    pub open spec fn browser_texts(&self) -> Seq<Seq<char>> {
        self.command.deep_view() + self.tags.deep_view()
    }

    /// Launching the entry opens, or depends on, a web browser.
    pub open spec fn needs_browser(&self) -> bool {
        match self.requires_browser {
            Some(required) => required,
            None => self.url is Some || any_browser_word(all_lowercase(self.browser_texts())),
        }
    }

    /// Whether launching the entry opens, or depends on, a web browser: as the
    /// configuration says, else guessed from the entry.
    pub fn involves_browser(&self) -> (r: bool)
        ensures
            r == self.needs_browser(),
            self.requires_browser is None && self.url is None ==> all_lowered_by_rule(
                self.browser_texts(),
            ),
            all_ascii(self.browser_texts()) && self.requires_browser is None ==> r == (
            self.url is Some || any_browser_word(all_ascii_lowered(self.browser_texts()))),
    {
        if let Some(required) = self.requires_browser {
            return required;
        }
        if self.url.is_some() {
            return true;
        }
        let command = lower_all(&self.command);
        let tags = lower_all(&self.tags);
        let ghost all = all_lowercase(self.browser_texts());
        let ghost first = command.deep_view();
        let ghost second = tags.deep_view();
        assert(all == first + second);
        let r = names_browser(&command) || names_browser(&tags);
        proof {
            assert forall|i: int| 0 <= i < self.browser_texts().len() implies lowered_by_rule(
                #[trigger] self.browser_texts()[i],
            ) by {
                let n = self.command.len();
                if i < n {
                    assert(self.browser_texts()[i] == self.command.deep_view()[i]);
                } else {
                    assert(self.browser_texts()[i] == self.tags.deep_view()[i - n]);
                }
            }
            if all_ascii(self.browser_texts()) {
                let texts = self.browser_texts();
                assert forall|i: int| 0 <= i < self.command.len() implies is_ascii_chars(
                    #[trigger] self.command.deep_view()[i],
                ) by {
                    assert(texts[i] == self.command.deep_view()[i]);
                }
                assert forall|i: int| 0 <= i < self.tags.len() implies is_ascii_chars(
                    #[trigger] self.tags.deep_view()[i],
                ) by {
                    assert(texts[self.command.len() + i] == self.tags.deep_view()[i]);
                }
                assert(all_ascii_lowered(texts) == first + second);
            }
            if any_browser_word(first) {
                let i = choose|i: int| 0 <= i < first.len() && browser_word(#[trigger] first[i]);
                assert(browser_word(all[i]));
            }
            if any_browser_word(second) {
                let i = choose|i: int| 0 <= i < second.len() && browser_word(#[trigger] second[i]);
                assert(browser_word(all[first.len() + i]));
            }
            if any_browser_word(all) {
                let i = choose|i: int| 0 <= i < all.len() && browser_word(#[trigger] all[i]);
                if i < first.len() {
                    assert(browser_word(first[i]));
                } else {
                    assert(browser_word(second[i - first.len()]));
                }
            }
        }
        r
    }

    /// What the search looks at: the name, the description and the tags.
    pub open spec fn search_texts(&self) -> Seq<Seq<char>> {
        seq![self.name@, self.description@] + self.tags.deep_view()
    }

    /// Every word of `needle` stands in one of the searched texts, in capitals
    /// or not.
    pub open spec fn matches_needle(&self, needle: Seq<char>) -> bool {
        all_found_in(all_lowercase(self.search_texts()), all_lowercase(words(needle)))
    }

    /// Whether the entry is a result of the search for `needle`. Every word of
    /// the needle must stand in the name, the description or a tag, no matter
    /// how the words are split across them.
    pub fn matches(&self, needle: &str) -> (r: bool)
        ensures
            r == self.matches_needle(needle@),
            r == forall|k: int|
                #![trigger words(needle@)[k]]
                0 <= k < words(needle@).len() ==> {
                    let word = lowercase(words(needle@)[k]);
                    ||| has_text(lowercase(self.name@), word)
                    ||| has_text(lowercase(self.description@), word)
                    ||| exists|i: int|
                        0 <= i < self.tags.len() && has_text(
                            lowercase(#[trigger] self.tags@[i]@),
                            word,
                        )
                },
            is_ascii_chars(needle@) ==> r == all_found_in(
                all_lowercase(self.search_texts()),
                all_ascii_lowered(words(needle@)),
            ),
            all_lowered_by_rule(self.search_texts()),
            all_lowered_by_rule(words(needle@)),
            all_ascii(self.search_texts()) && is_ascii_chars(needle@) ==> r == all_found_in(
                all_ascii_lowered(self.search_texts()),
                all_ascii_lowered(words(needle@)),
            ),
    {
        let mut texts: Vec<String> = Vec::new();
        texts.push(self.name.clone());
        texts.push(self.description.clone());
        let mut i: usize = 0;
        while i < self.tags.len()
            invariant
                i <= self.tags.len(),
                texts.len() == 2 + i,
                texts[0]@ == self.name@,
                texts[1]@ == self.description@,
                forall|j: int| 0 <= j < i ==> (#[trigger] texts[2 + j])@ == self.tags[j]@,
            decreases self.tags.len() - i,
        {
            texts.push(self.tags[i].clone());
            i += 1;
        }
        assert(texts.deep_view() == self.search_texts()) by {
            let got = texts.deep_view();
            let want = self.search_texts();
            assert forall|k: int| 0 <= k < got.len() implies got[k] == want[k] by {
                if 2 <= k < 2 + self.tags.len() {
                    assert(texts[2 + (k - 2)]@ == self.tags[k - 2]@);
                }
            }
        }
        let fields = lower_all(&texts);
        let tokens = lower_all(&split_whitespace(needle));
        proof {
            law_search_looks_at_every_field(*self, needle@);
            if is_ascii_chars(needle@) {
                lemma_words_ascii(needle@);
            }
        }
        all_tokens_found(&fields, &tokens)
    }
}

impl Config {
    /// The ids of the categories, in order.
    pub open spec fn category_ids(&self) -> Seq<Seq<char>> {
        self.categories@.map_values(|c: Category| c.id@)
    }

    /// Whether a category has the id `id`.
    pub fn has_category(&self, id: &String) -> (r: bool)
        ensures
            r == self.category_ids().contains(id@),
    {
        let mut i: usize = 0;
        while i < self.categories.len()
            invariant
                i <= self.categories.len(),
                forall|j: int| 0 <= j < i ==> self.category_ids()[j] != id@,
            decreases self.categories.len() - i,
        {
            if self.categories[i].id == *id {
                assert(self.category_ids()[i as int] == id@);
                return true;
            }
            i += 1;
        }
        false
    }
}

/// The warning about an entry whose category does not exist.
pub open spec fn unknown_category(a: AppEntry) -> Seq<char> {
    "\""@ + a.name@ + "\" references unknown category \""@ + a.category@ + "\""@
}

/// The warnings about the entries whose category does not exist.
pub open spec fn config_warnings(cfg: Config) -> Seq<Seq<char>> {
    cfg.apps@.filter(|a: AppEntry| !cfg.category_ids().contains(a.category@)).map_values(
        |a: AppEntry| unknown_category(a),
    )
}

/// Warnings for entries that name a category which the configuration does not
/// define: they would be shown under the raw id otherwise.
pub fn validate_config(cfg: &Config) -> (r: Vec<String>)
    ensures
        r.deep_view() == config_warnings(*cfg),
{
    let mut r: Vec<String> = Vec::new();
    let mut i: usize = 0;
    let ghost unknown = |a: AppEntry| !cfg.category_ids().contains(a.category@);
    let ghost warning = |a: AppEntry| unknown_category(a);
    proof {
        reveal(Seq::filter);
    }
    while i < cfg.apps.len()
        invariant
            i <= cfg.apps.len(),
            unknown == (|a: AppEntry| !cfg.category_ids().contains(a.category@)),
            warning == (|a: AppEntry| unknown_category(a)),
            r.deep_view() == cfg.apps@.take(i as int).filter(unknown).map_values(warning),
        decreases cfg.apps.len() - i,
    {
        let a = &cfg.apps[i];
        let ghost before = r.deep_view();
        let ghost next = cfg.apps@.take(i + 1);
        proof {
            reveal(Seq::filter);
            assert(next.drop_last() == cfg.apps@.take(i as int));
            assert(next.last() == *a);
        }
        if !cfg.has_category(&a.category) {
            let mut w = "\"".to_owned();
            w.append(a.name.as_str());
            w.append("\" references unknown category \"");
            w.append(a.category.as_str());
            w.append("\"");
            r.push(w);
            assert(r.deep_view() == before.push(w@));
            assert(next.filter(unknown).map_values(warning) == before.push(w@));
        }
        i += 1;
    }
    assert(cfg.apps@.take(i as int) == cfg.apps@);
    r
}

} // verus!
