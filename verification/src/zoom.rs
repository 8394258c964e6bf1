//! Normal or large text, a preference that the tools share.
//!
//! Large text enlarges fonts and widgets together. Switching it in one of the
//! tools switches all of them, the next time each one starts.

use vstd::prelude::*;
use vstd::string::*;
use crate::paths::bytes_view;
use crate::prefs::pref_file;
use crate::text::{ascii_lowered, eq_ignore_ascii_case, lemma_trimmed_framed, trim, trimmed};

verus! {

/// The size of text.
#[derive(Clone, Copy, Debug, PartialEq, Eq, Structural)]
pub enum TextSize {
    Normal,
    Large,
}

/// A button that switches a preference.
#[derive(Debug)]
pub struct ToggleButton {
    pub label: String,
    pub tip: String,
    /// What the preference becomes.
    pub next: TextSize,
}

/// The file of the preference.
pub fn pref_path(xdg: &Option<Vec<u8>>, home: &Option<Vec<u8>>) -> (r: Option<Vec<u8>>)
    ensures
        bytes_view(r) == pref_file(*xdg, *home, "zoom"@),
{
    crate::prefs::pref_path(xdg, home, "zoom")
}

/// The size by which everything is scaled, in percent.
pub fn percent(size: TextSize) -> (r: u32)
    ensures
        r == (match size {
            TextSize::Normal => 100u32,
            TextSize::Large => 125u32,
        }),
{
    match size {
        TextSize::Normal => 100,
        TextSize::Large => 125,
    }
}

/// The saved text asks for large text.
pub open spec fn asks_large(saved: Seq<char>) -> bool {
    ascii_lowered(trimmed(saved)) == ascii_lowered("large"@)
}

/// The saved size; normal where none is saved or it cannot be read.
pub fn load(saved: &Option<String>) -> (r: TextSize)
    ensures
        r == (if saved matches Some(s) && asks_large(s@) {
            TextSize::Large
        } else {
            TextSize::Normal
        }),
{
    match saved {
        Some(s) => if eq_ignore_ascii_case(trim(s.as_str()).as_str(), "large") {
            TextSize::Large
        } else {
            TextSize::Normal
        },
        None => TextSize::Normal,
    }
}

/// What the preference file holds for a size.
pub open spec fn saved_text(size: TextSize) -> Seq<char> {
    match size {
        TextSize::Normal => "normal\n"@,
        TextSize::Large => "large\n"@,
    }
}

/// What is written to the preference file.
pub fn save(size: TextSize) -> (r: String)
    ensures
        r@ == saved_text(size),
{
    match size {
        TextSize::Normal => "normal\n".to_owned(),
        TextSize::Large => "large\n".to_owned(),
    }
}

/// The button that switches between normal and large text.
pub fn toggle_button(now: TextSize) -> (r: ToggleButton)
    ensures
        now is Normal ==> r.next is Large && r.label@ == "\u{1f50d}+"@ && r.tip@
            == "Make all the text larger (applies to all the VENUS rust tools)"@,
        now is Large ==> r.next is Normal && r.label@ == "\u{1f50d}\u{2212}"@ && r.tip@
            == "Switch back to the normal text size (applies to all the VENUS rust tools)"@,
{
    match now {
        TextSize::Normal => ToggleButton {
            label: "\u{1f50d}+".to_owned(),
            tip: "Make all the text larger (applies to all the VENUS rust tools)".to_owned(),
            next: TextSize::Large,
        },
        TextSize::Large => ToggleButton {
            label: "\u{1f50d}\u{2212}".to_owned(),
            tip: "Switch back to the normal text size (applies to all the VENUS rust tools)".to_owned(),
            next: TextSize::Normal,
        },
    }
}

/// A size that was saved is the size that is loaded.
pub proof fn law_saved_size_is_loaded(size: TextSize)
    ensures
        asks_large(saved_text(size)) <==> size is Large,
{
    reveal_strlit("large");
    reveal_strlit("large\n");
    reveal_strlit("normal\n");
    let text = saved_text(size);
    let word = text.drop_last();
    assert(text == Seq::<char>::empty() + word + seq!['\n']);
    lemma_trimmed_framed(Seq::empty(), word, seq!['\n']);
    match size {
        TextSize::Normal => {
            assert(ascii_lowered(word).len() != ascii_lowered("large"@).len());
        },
        TextSize::Large => {
            assert(word == "large"@);
        },
    }
}

} // verus!
