//! Dark or light colors, a preference that the tools share.

use vstd::prelude::*;
use vstd::string::*;
use crate::paths::bytes_view;
use crate::prefs::pref_file;
use crate::text::{ascii_lowered, eq_ignore_ascii_case, lemma_trimmed_framed, trim, trimmed};

verus! {

/// Which colors are shown.
#[derive(Clone, Copy, Debug, PartialEq, Eq, Structural)]
pub enum Appearance {
    Dark,
    Light,
}

/// The file of the preference.
pub fn pref_path(xdg: &Option<Vec<u8>>, home: &Option<Vec<u8>>) -> (r: Option<Vec<u8>>)
    ensures
        bytes_view(r) == pref_file(*xdg, *home, "theme"@),
{
    crate::prefs::pref_path(xdg, home, "theme")
}

/// The saved text asks for light colors.
pub open spec fn asks_light(saved: Seq<char>) -> bool {
    ascii_lowered(trimmed(saved)) == ascii_lowered("light"@)
}

/// The saved colors; dark where none are saved or they cannot be read.
pub fn load(saved: &Option<String>) -> (r: Appearance)
    ensures
        r == (if saved matches Some(s) && asks_light(s@) {
            Appearance::Light
        } else {
            Appearance::Dark
        }),
{
    match saved {
        Some(s) => if eq_ignore_ascii_case(trim(s.as_str()).as_str(), "light") {
            Appearance::Light
        } else {
            Appearance::Dark
        },
        None => Appearance::Dark,
    }
}

/// What the preference file holds for some colors.
pub open spec fn saved_text(appearance: Appearance) -> Seq<char> {
    match appearance {
        Appearance::Dark => "dark\n"@,
        Appearance::Light => "light\n"@,
    }
}

/// What is written to the preference file.
pub fn save(appearance: Appearance) -> (r: String)
    ensures
        r@ == saved_text(appearance),
{
    match appearance {
        Appearance::Dark => "dark\n".to_owned(),
        Appearance::Light => "light\n".to_owned(),
    }
}

/// A button that switches the colors.
#[derive(Debug)]
pub struct ToggleButton {
    pub label: String,
    pub tip: String,
    /// What the colors become.
    pub next: Appearance,
}

/// The button that switches between dark and light colors.
pub fn toggle_button(now: Appearance) -> (r: ToggleButton)
    ensures
        now is Dark ==> r.next is Light && r.label@ == "\u{2600}"@ && r.tip@
            == "Switch to light colors (applies to all the VENUS rust tools)"@,
        now is Light ==> r.next is Dark && r.label@ == "\u{1f319}"@ && r.tip@
            == "Switch to dark colors (applies to all the VENUS rust tools)"@,
{
    match now {
        Appearance::Dark => ToggleButton {
            label: "\u{2600}".to_owned(),
            tip: "Switch to light colors (applies to all the VENUS rust tools)".to_owned(),
            next: Appearance::Light,
        },
        Appearance::Light => ToggleButton {
            label: "\u{1f319}".to_owned(),
            tip: "Switch to dark colors (applies to all the VENUS rust tools)".to_owned(),
            next: Appearance::Dark,
        },
    }
}

/// Colors that were saved are the colors that are loaded.
pub proof fn law_saved_colors_are_loaded(appearance: Appearance)
    ensures
        asks_light(saved_text(appearance)) <==> appearance is Light,
{
    reveal_strlit("light");
    reveal_strlit("light\n");
    reveal_strlit("dark\n");
    let text = saved_text(appearance);
    let word = text.drop_last();
    assert(text == Seq::<char>::empty() + word + seq!['\n']);
    lemma_trimmed_framed(Seq::empty(), word, seq!['\n']);
    match appearance {
        Appearance::Dark => {
            assert(ascii_lowered(word).len() != ascii_lowered("light"@).len());
        },
        Appearance::Light => {
            assert(word == "light"@);
        },
    }
}

} // verus!
