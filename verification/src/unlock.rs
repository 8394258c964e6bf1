//! Choosing categories, and unlocking those that are protected.

use vstd::prelude::*;
use vstd::string::*;
use vstd::utf8::is_ascii_chars;
use crate::config::{
    all_ascii, all_ascii_lowered, all_lowercase, all_lowered_by_rule, lower_all,
};
use crate::frame::Frame;
use crate::state::{says, App};
use crate::text::{
    ascii_lowered, is_among, lemma_trimmed_part, lowercase, lowered_by_rule, to_lowercase, trim,
    trimmed,
};

verus! {

/// `typed`, in lower case, is one of the passwords, given in lower case. An
/// empty text never is.
pub open spec fn is_password(passwords: Seq<Seq<char>>, typed: Seq<char>) -> bool {
    typed.len() > 0 && passwords.contains(typed)
}

/// Whether `typed` is one of the passwords; all of them in lower case.
pub fn password_among(passwords: &Vec<String>, typed: &String) -> (r: bool)
    ensures
        r == is_password(passwords.deep_view(), typed@),
{
    !typed.as_str().is_empty() && is_among(passwords, typed)
}

/// What was typed is one of the passwords, in capitals or not, with or without
/// white space around it.
pub open spec fn unlocks(passwords: Seq<Seq<char>>, input: Seq<char>) -> bool {
    is_password(all_lowercase(passwords), lowercase(trimmed(input)))
}

/// What was typed, without the white space around it, is a password of ASCII
/// characters but for the case of its letters.
pub open spec fn ascii_unlocks(passwords: Seq<Seq<char>>, input: Seq<char>) -> bool {
    &&& trimmed(input).len() > 0
    &&& is_ascii_chars(trimmed(input))
    &&& exists|i: int|
        0 <= i < passwords.len() && is_ascii_chars(#[trigger] passwords[i]) && ascii_lowered(
            passwords[i],
        ) == ascii_lowered(trimmed(input))
}

/// Where ASCII texts go to lower case letter by letter, a password of ASCII
/// characters is known whatever the other passwords hold.
pub proof fn lemma_ascii_unlocks(passwords: Seq<Seq<char>>, input: Seq<char>, i: int)
    requires
        0 <= i < passwords.len(),
        trimmed(input).len() > 0,
        is_ascii_chars(trimmed(input)),
        is_ascii_chars(passwords[i]),
        ascii_lowered(passwords[i]) == ascii_lowered(trimmed(input)),
        lowered_by_rule(passwords[i]),
        lowered_by_rule(trimmed(input)),
    ensures
        unlocks(passwords, input),
{
    assert(all_lowercase(passwords)[i] == lowercase(trimmed(input)));
    assert(ascii_lowered(trimmed(input)).len() == trimmed(input).len());
}

/// Whether what was typed is one of the passwords. Case does not count, nor
/// does the white space around it.
pub fn password_accepted(passwords: &Vec<String>, input: &str) -> (r: bool)
    ensures
        r == unlocks(passwords.deep_view(), input@),
        ascii_unlocks(passwords.deep_view(), input@) ==> r,
        is_ascii_chars(trimmed(input@)) ==> r == is_password(
            all_lowercase(passwords.deep_view()),
            ascii_lowered(trimmed(input@)),
        ),
        all_lowered_by_rule(passwords.deep_view()),
        lowered_by_rule(trimmed(input@)),
        all_ascii(passwords.deep_view()) && is_ascii_chars(input@) ==> r == is_password(
            all_ascii_lowered(passwords.deep_view()),
            ascii_lowered(trimmed(input@)),
        ),
{
    let typed = trim(input);
    proof {
        lemma_trimmed_part(input@);
    }
    let lowered = to_lowercase(typed.as_str());
    let r = password_among(&lower_all(passwords), &lowered);
    proof {
        let all = passwords.deep_view();
        if ascii_unlocks(all, input@) {
            let i = choose|i: int|
                0 <= i < all.len() && is_ascii_chars(#[trigger] all[i]) && ascii_lowered(all[i])
                    == ascii_lowered(trimmed(input@));
            lemma_ascii_unlocks(all, input@, i);
        }
    }
    r
}

/// The ids with `id` among them.
pub open spec fn with_id(ids: Seq<Seq<char>>, id: Seq<char>) -> Seq<Seq<char>> {
    if ids.contains(id) {
        ids
    } else {
        ids.push(id)
    }
}

impl App {
    /// Takes what was typed as the password of category `k`. A right password
    /// unlocks the category for the session; after a wrong one the prompt says
    /// so and takes the next. Either way the prompt is emptied.
    pub fn submit_password(&mut self, k: usize)
        requires
            old(self).wf(),
            k < old(self).categories().len(),
        ensures
            final(self).wf(),
            *final(self) == (App {
                unlocked: final(self).unlocked,
                password_input: final(self).password_input,
                password_wrong: final(self).password_wrong,
                focus_password: final(self).focus_password,
                status: final(self).status,
                ..*old(self)
            }),
            final(self).password_input@.len() == 0,
            ({
                let c = old(self).categories()[k as int];
                if unlocks(c.passwords.deep_view(), old(self).password_input@) {
                    &&& final(self).unlocked.deep_view() == with_id(
                        old(self).unlocked.deep_view(),
                        c.id@,
                    )
                    &&& !final(self).password_wrong
                    &&& final(self).focus_password == old(self).focus_password
                    &&& says(final(self).status, Ok(c.name@ + " unlocked"@))
                } else {
                    &&& final(self).unlocked == old(self).unlocked
                    &&& final(self).password_wrong
                    &&& final(self).focus_password
                    &&& final(self).status == old(self).status
                }
            }),
            ({
                let c = old(self).categories()[k as int];
                &&& ascii_unlocks(c.passwords.deep_view(), old(self).password_input@)
                    ==> !final(self).password_wrong
                    && final(self).unlocked.deep_view().contains(c.id@)
                &&& all_lowered_by_rule(c.passwords.deep_view())
                &&& lowered_by_rule(trimmed(old(self).password_input@))
            }),
            ({
                let c = old(self).categories()[k as int];
                all_ascii(c.passwords.deep_view()) && is_ascii_chars(old(self).password_input@)
                    ==> final(self).password_wrong == !is_password(
                    all_ascii_lowered(c.passwords.deep_view()),
                    ascii_lowered(trimmed(old(self).password_input@)),
                )
            }),
    {
        if let Ok(cfg) = &self.config {
            let c = &cfg.categories[k];
            if password_accepted(&c.passwords, self.password_input.as_str()) {
                let mut msg = c.name.clone();
                msg.append(" unlocked");
                let ghost before = self.unlocked.deep_view();
                if !is_among(&self.unlocked, &c.id) {
                    let id = c.id.clone();
                    self.unlocked.push(id);
                    assert(self.unlocked.deep_view() == before.push(id@));
                    assert(self.unlocked.deep_view()[before.len() as int] == id@);
                }
                self.password_wrong = false;
                self.status = Some(Ok(msg));
            } else {
                self.password_wrong = true;
                self.focus_password = true;
            }
        }
        self.password_input = String::new();
    }

    /// A click in the sidebar: shows a category, or all of them. The password
    /// prompt starts afresh, and gets the keyboard where it opens.
    pub fn click_category(&mut self, f: &Frame, choice: Option<String>)
        requires
            old(self).wf(),
        ensures
            final(self).wf(),
            *final(self) == (App {
                active_category: choice,
                password_input: final(self).password_input,
                password_wrong: false,
                focus_password: choice matches Some(c) && f.locked.deep_view().contains(c@),
                ..*old(self)
            }),
            final(self).password_input@.len() == 0,
    {
        let opens_prompt = match &choice {
            Some(c) => is_among(&f.locked, c),
            None => false,
        };
        self.active_category = choice;
        self.password_input = String::new();
        self.password_wrong = false;
        self.focus_password = opens_prompt;
    }
}

} // verus!
