//! Paths as the system hands them out: sequences of bytes, with `/` between
//! their components.

use vstd::prelude::*;
use vstd::string::*;
use vstd::utf8::{decode_utf8, encode_utf8, valid_utf8};
use crate::text::chars_of;

verus! {

/// What `String::from_utf8_lossy` makes of some bytes.
pub uninterp spec fn lossy(bytes: Seq<u8>) -> Seq<char>;

/// Calls `String::from_utf8_lossy`. The result is a function of the bytes
/// alone; bytes that are valid UTF-8 are decoded. What stands for the invalid
/// parts of other bytes is left open.
#[verifier::external_body]
pub(crate) fn lossy_text(bytes: &Vec<u8>) -> (r: String)
    ensures
        r@ == lossy(bytes@),
        valid_utf8(bytes@) ==> r@ == decode_utf8(bytes@),
{
    String::from_utf8_lossy(bytes).into_owned()
}

/// Bytes that may be missing.
pub open spec fn bytes_view(bytes: Option<Vec<u8>>) -> Option<Seq<u8>> {
    match bytes {
        Some(b) => Some(b@),
        None => None,
    }
}

/// A copy of bytes that may be missing.
pub fn copy_bytes(bytes: &Option<Vec<u8>>) -> (r: Option<Vec<u8>>)
    ensures
        bytes_view(r) == bytes_view(*bytes),
{
    match bytes {
        Some(b) => {
            let c = b.clone();
            assert(c@ == b@);
            Some(c)
        },
        None => None,
    }
}

/// Where the last component of a path begins: behind the last `/`.
pub open spec fn name_start(path: Seq<char>) -> nat
    decreases path.len(),
{
    if path.len() == 0 || path.last() == '/' {
        path.len()
    } else {
        name_start(path.drop_last())
    }
}

/// The directory of a path that ends with an ordinary name, where what stands
/// before the name is nothing, the root, or a path that ends neither with `/`
/// nor with `.`.
pub open spec fn usual_dir(path: Seq<char>) -> Option<Seq<char>> {
    let start = name_start(path) as int;
    let name = path.skip(start);
    if name.len() == 0 || name == seq!['.'] {
        None
    } else if start == 0 {
        Some(Seq::empty())
    } else if start == 1 {
        Some(seq!['/'])
    } else if path[start - 2] == '/' || path[start - 2] == '.' {
        None
    } else {
        Some(path.take(start - 1))
    }
}

/// What `Path::parent` makes of a path.
pub uninterp spec fn parent(path: Seq<char>) -> Option<Seq<char>>;

/// Calls `Path::parent`: the path without its last component. The result is a
/// function of the path alone. The empty path and the root have no parent, and
/// of a path with ordinary components it is what stands before the last `/`,
/// or the root. What becomes of repeated or final separators and of `.`
/// components is left open.
#[verifier::external_body]
pub(crate) fn path_parent(path: &str) -> (r: Option<String>)
    ensures
        r is Some <==> parent(path@) is Some,
        r matches Some(p) ==> parent(path@) == Some(p@),
        path@.len() == 0 || path@ == seq!['/'] ==> r is None,
        usual_dir(path@) is Some ==> r is Some && Some(r->Some_0@) == usual_dir(path@),
{
    std::path::Path::new(path).parent().map(|p| p.to_string_lossy().into_owned())
}

/// `rel` below `base`. An absolute `rel` takes the place of `base`, and a
/// separator is added where `base` does not end with one.
pub open spec fn below(base: Seq<u8>, rel: Seq<u8>) -> Seq<u8> {
    if rel.len() > 0 && rel[0] == 47u8 {
        rel
    } else if base.len() == 0 || base.last() == 47u8 {
        base + rel
    } else {
        base.push(47u8) + rel
    }
}

/// The file or directory that `rel` names below `base`.
pub fn join_path(base: &Vec<u8>, rel: &str) -> (r: Vec<u8>)
    ensures
        r@ == below(base@, encode_utf8(rel@)),
{
    let tail = rel.as_bytes();
    let absolute = tail.len() > 0 && tail[0] == 47u8;
    let mut r: Vec<u8> = Vec::new();
    if !absolute {
        let mut i: usize = 0;
        while i < base.len()
            invariant
                i <= base.len(),
                r@ == base@.take(i as int),
            decreases base.len() - i,
        {
            r.push(base[i]);
            i += 1;
        }
        assert(r@ == base@);
        if r.len() > 0 && r[r.len() - 1] != 47u8 {
            r.push(47u8);
        }
    }
    let ghost start = r@;
    let mut j: usize = 0;
    while j < tail.len()
        invariant
            j <= tail.len(),
            r@ == start + tail@.take(j as int),
        decreases tail.len() - j,
    {
        r.push(tail[j]);
        j += 1;
    }
    assert(tail@.take(j as int) == tail@);
    r
}

/// The launcher's directory below the user's home.
pub open spec fn cache_dir_below(home: Seq<u8>) -> Seq<u8> {
    below(home, encode_utf8(".cache/unified_launcher"@))
}

/// The launcher's own directory, where the home directory is known.
pub fn cache_dir(home: &Option<Vec<u8>>) -> (r: Option<Vec<u8>>)
    ensures
        r is Some <==> home is Some,
        r matches Some(dir) ==> dir@ == cache_dir_below(home->Some_0@),
{
    match home {
        Some(home) => Some(join_path(home, ".cache/unified_launcher")),
        None => None,
    }
}

/// The font cache that some applications want removed before they start.
pub fn fontconfig_dir(home: &Option<Vec<u8>>) -> (r: Option<Vec<u8>>)
    ensures
        r is Some <==> home is Some,
        r matches Some(dir) ==> dir@ == below(
            home->Some_0@,
            encode_utf8(".cache/fontconfig"@),
        ),
{
    match home {
        Some(home) => Some(join_path(home, ".cache/fontconfig")),
        None => None,
    }
}

/// The file that holds the launch history.
pub fn recent_path(home: &Option<Vec<u8>>) -> (r: Option<Vec<u8>>)
    ensures
        r is Some <==> home is Some,
        r matches Some(file) ==> file@ == below(
            cache_dir_below(home->Some_0@),
            encode_utf8("recent.toml"@),
        ),
{
    match cache_dir(home) {
        Some(dir) => Some(join_path(&dir, "recent.toml")),
        None => None,
    }
}

/// The ASCII letters and digits.
pub open spec fn alphanumeric(c: char) -> bool {
    'a' <= c <= 'z' || 'A' <= c <= 'Z' || '0' <= c <= '9'
}

/// `name` with an underscore in place of every character that is not an ASCII
/// letter or digit.
pub open spec fn safe_name(name: Seq<char>) -> Seq<char> {
    name.map_values(
        |c: char|
            if alphanumeric(c) {
                c
            } else {
                '_'
            },
    )
}

/// The directory of the launch logs.
pub open spec fn logs_below(home: Seq<u8>) -> Seq<u8> {
    below(cache_dir_below(home), encode_utf8("logs"@))
}

/// The file that captures the output of the application `app_name`.
pub fn launch_log_path(home: &Option<Vec<u8>>, app_name: &str) -> (r: Option<Vec<u8>>)
    ensures
        r is Some <==> home is Some,
        r matches Some(file) ==> file@ == below(
            logs_below(home->Some_0@),
            encode_utf8(safe_name(app_name@) + ".log"@),
        ),
{
    let v = chars_of(app_name);
    let mut file = String::new();
    let mut i: usize = 0;
    while i < v.len()
        invariant
            i <= v.len(),
            v@ == app_name@,
            file@ == safe_name(app_name@).take(i as int),
        decreases v.len() - i,
    {
        let c = v[i];
        let keep = ('a' <= c && c <= 'z') || ('A' <= c && c <= 'Z') || ('0' <= c && c <= '9');
        file.push(
            if keep {
                c
            } else {
                '_'
            },
        );
        assert(safe_name(app_name@).take(i + 1) == safe_name(app_name@).take(i as int).push(
            safe_name(app_name@)[i as int],
        ));
        i += 1;
    }
    assert(safe_name(app_name@).take(i as int) == safe_name(app_name@));
    file.append(".log");
    match cache_dir(home) {
        Some(dir) => {
            let logs = join_path(&dir, "logs");
            Some(join_path(&logs, file.as_str()))
        },
        None => None,
    }
}

} // verus!
