//! Preferences that the tools share: one small file for each.

use vstd::prelude::*;
use vstd::string::*;
use vstd::utf8::encode_utf8;
use crate::paths::{below, bytes_view, join_path};

verus! {

/// The directory of the user's settings: the one that the environment names,
/// unless it is empty, else `.config` below the home directory.
pub open spec fn settings_dir(xdg: Option<Vec<u8>>, home: Option<Vec<u8>>) -> Option<Seq<u8>> {
    match xdg {
        Some(dir) if dir.len() > 0 => Some(dir@),
        _ => match home {
            Some(h) => Some(below(h@, encode_utf8(".config"@))),
            None => None,
        },
    }
}

/// The file of the preference `name`.
pub open spec fn pref_file(
    xdg: Option<Vec<u8>>,
    home: Option<Vec<u8>>,
    name: Seq<char>,
) -> Option<Seq<u8>> {
    match settings_dir(xdg, home) {
        Some(dir) => Some(below(below(dir, encode_utf8("venus_rust_tools"@)), encode_utf8(name))),
        None => None,
    }
}

/// The file of the preference `name`, where the environment tells of a
/// directory for it.
pub fn pref_path(xdg: &Option<Vec<u8>>, home: &Option<Vec<u8>>, name: &str) -> (r: Option<Vec<u8>>)
    ensures
        bytes_view(r) == pref_file(*xdg, *home, name@),
{
    if let Some(dir) = xdg {
        if dir.len() > 0 {
            let tools = join_path(dir, "venus_rust_tools");
            return Some(join_path(&tools, name));
        }
    }
    match home {
        Some(h) => {
            let base = join_path(h, ".config");
            let tools = join_path(&base, "venus_rust_tools");
            Some(join_path(&tools, name))
        },
        None => None,
    }
}

} // verus!
