//! The usage record: every successful launch as one line of JSON.

use vstd::prelude::*;
use vstd::string::*;
use vstd::utf8::encode_utf8;
use crate::browser::{before_first, cut_at};
use crate::config::AppEntry;
use crate::paths::{below, join_path};
use crate::text::{chars_of, decimal, digit, number_text, text_of};

verus! {

/// The hexadecimal digit of value `d`.
pub open spec fn hex_digit(d: int) -> char {
    if d < 10 {
        (d + 48) as char
    } else {
        (d + 87) as char
    }
}

/// What stands for `c` in a JSON string: a quotation mark or a backslash behind
/// a backslash, a control character by its number.
pub open spec fn json_char(c: char) -> Seq<char> {
    if c == '"' || c == '\\' {
        seq!['\\', c]
    } else if c <= '\u{1f}' {
        seq!['\\', 'u', '0', '0', hex_digit(c as int / 16), hex_digit(c as int % 16)]
    } else {
        seq![c]
    }
}

/// What stands for `s` between the quotation marks of a JSON string.
pub open spec fn json_body(s: Seq<char>) -> Seq<char>
    decreases s.len(),
{
    if s.len() == 0 {
        Seq::empty()
    } else {
        json_char(s[0]) + json_body(s.skip(1))
    }
}

/// `s` as a JSON string.
pub open spec fn json_string(s: Seq<char>) -> Seq<char> {
    seq!['"'] + json_body(s) + seq!['"']
}

proof fn lemma_code_point(c: char)
    ensures
        0 <= c as int,
{
}

fn hex(d: u8) -> (r: char)
    requires
        d < 16,
    ensures
        r == hex_digit(d as int),
{
    if d < 10 {
        (d + 48) as char
    } else {
        (d + 87) as char
    }
}

/// A text as a JSON string.
pub fn json_quote(s: &str) -> (r: String)
    ensures
        r@ == json_string(s@),
{
    let v = chars_of(s);
    let mut r = String::new();
    r.push('"');
    let mut i: usize = 0;
    assert(v@.skip(0) == s@);
    while i < v.len()
        invariant
            i <= v.len(),
            r@ + json_body(v@.skip(i as int)) == seq!['"'] + json_body(s@),
        decreases v.len() - i,
    {
        let ghost before = r@;
        let c = v[i];
        assert(v@.skip(i as int).skip(1) == v@.skip(i + 1));
        if c == '"' || c == '\\' {
            r.push('\\');
            r.push(c);
        } else if c <= '\u{1f}' {
            proof {
                lemma_code_point(c);
            }
            let n: u8 = c as u8;
            r.push('\\');
            r.push('u');
            r.push('0');
            r.push('0');
            r.push(hex(n / 16));
            r.push(hex(n % 16));
        } else {
            r.push(c);
        }
        assert(r@ == before + json_char(c));
        assert(before + json_body(v@.skip(i as int)) == r@ + json_body(v@.skip(i + 1)));
        i += 1;
    }
    assert(json_body(v@.skip(i as int)) == Seq::<char>::empty());
    r.push('"');
    r
}

/// The value of a hexadecimal digit.
pub open spec fn hex_value(c: char) -> Option<int> {
    if '0' <= c <= '9' {
        Some(c as int - 48)
    } else if 'a' <= c <= 'f' {
        Some(c as int - 87)
    } else {
        None
    }
}

/// How a reader of JSON reads what stands between the quotation marks of a
/// string: escaped quotation marks and backslashes, characters below 256 by
/// their number, and every other character that is no control character.
pub open spec fn json_read(t: Seq<char>) -> Option<Seq<char>>
    decreases t.len(),
{
    if t.len() == 0 {
        Some(Seq::empty())
    } else {
        let (read, taken) = if t[0] != '\\' {
            (
                if t[0] == '"' || t[0] <= '\u{1f}' {
                    None
                } else {
                    Some(t[0])
                },
                1int,
            )
        } else if t.len() > 1 && (t[1] == '"' || t[1] == '\\') {
            (Some(t[1]), 2int)
        } else if t.len() > 5 && t[1] == 'u' && t[2] == '0' && t[3] == '0' {
            match (hex_value(t[4]), hex_value(t[5])) {
                (Some(a), Some(b)) => (Some((16 * a + b) as char), 6int),
                _ => (None, 1int),
            }
        } else {
            (None, 1int)
        };
        match (read, json_read(t.skip(taken))) {
            (Some(c), Some(rest)) => Some(seq![c] + rest),
            _ => None,
        }
    }
}

/// A JSON string is read back as the text that it was made from.
pub proof fn law_json_read_back(s: Seq<char>)
    ensures
        json_read(json_body(s)) == Some(s),
    decreases s.len(),
{
    if s.len() == 0 {
        assert(s == Seq::<char>::empty());
    } else {
        let c = s[0];
        let t = json_body(s);
        let rest = json_body(s.skip(1));
        law_json_read_back(s.skip(1));
        assert(seq![c] + s.skip(1) == s);
        if c == '"' || c == '\\' {
            assert(t[0] == '\\' && t[1] == c);
            assert(t.skip(2) == rest);
        } else if c <= '\u{1f}' {
            lemma_code_point(c);
            let a = c as int / 16;
            let b = c as int % 16;
            assert(t[0] == '\\' && t[1] == 'u' && t[2] == '0' && t[3] == '0');
            assert(t[4] == hex_digit(a) && t[5] == hex_digit(b));
            assert(hex_value(hex_digit(a)) == Some(a));
            assert(hex_value(hex_digit(b)) == Some(b));
            assert((16 * a + b) as char == c);
            assert(t.skip(6) == rest);
        } else {
            assert(t[0] == c);
            assert(t.skip(1) == rest);
        }
    }
}

/// Who launched what, when and where.
#[derive(Debug)]
pub struct UsageRecord {
    /// Seconds since 1970.
    pub epoch: u64,
    /// The local time.
    pub time: String,
    pub user: String,
    pub full_name: String,
    pub application: String,
    pub category: String,
    pub host: String,
    /// The command, or the web page.
    pub command: String,
}

/// A name and a text value of a JSON object, with a comma before them.
pub open spec fn json_field(key: Seq<char>, value: Seq<char>) -> Seq<char> {
    ",\""@ + key + "\":"@ + json_string(value)
}

/// The line of a launch.
pub open spec fn usage_line(u: UsageRecord) -> Seq<char> {
    "{\"epoch\":"@ + decimal(u.epoch as nat) + json_field("time"@, u.time@) + json_field(
        "user"@,
        u.user@,
    ) + json_field("full_name"@, u.full_name@) + json_field("application"@, u.application@)
        + json_field("category"@, u.category@) + json_field("host"@, u.host@) + json_field(
        "command"@,
        u.command@,
    ) + "}\n"@
}

fn add_field(line: &mut String, key: &str, value: &String)
    ensures
        final(line)@ == old(line)@ + json_field(key@, value@),
{
    line.append(",\"");
    line.append(key);
    line.append("\":");
    line.append(json_quote(value.as_str()).as_str());
    assert(line@ == old(line)@ + json_field(key@, value@));
}

/// The line of JSON that records a launch.
pub fn record_line(u: &UsageRecord) -> (r: String)
    ensures
        r@ == usage_line(*u),
{
    let mut r = "{\"epoch\":".to_owned();
    r.append(number_text(u.epoch).as_str());
    add_field(&mut r, "time", &u.time);
    add_field(&mut r, "user", &u.user);
    add_field(&mut r, "full_name", &u.full_name);
    add_field(&mut r, "application", &u.application);
    add_field(&mut r, "category", &u.category);
    add_field(&mut r, "host", &u.host);
    add_field(&mut r, "command", &u.command);
    r.append("}\n");
    r
}

impl AppEntry {
    /// What is recorded of a launch of the entry.
    pub fn usage_record(
        &self,
        epoch: u64,
        time: String,
        user: String,
        full_name: String,
        host: String,
    ) -> (r: UsageRecord)
        ensures
            r.epoch == epoch,
            r.time@ == time@,
            r.user@ == user@,
            r.full_name@ == full_name@,
            r.application@ == self.name@,
            r.category@ == self.category@,
            r.host@ == host@,
            r.command@ == self.command_text(),
    {
        UsageRecord {
            epoch,
            time,
            user,
            full_name,
            application: self.name.clone(),
            category: self.category.clone(),
            host,
            command: self.command_line(),
        }
    }
}

/// What stands in `s` behind the first occurrence of `mark`; nothing where
/// there is none.
pub open spec fn after_first(s: Seq<char>, mark: char) -> Seq<char>
    decreases s.len(),
{
    if s.len() == 0 {
        s
    } else if s[0] == mark {
        s.skip(1)
    } else {
        after_first(s.skip(1), mark)
    }
}

/// The full name in a line of the user database: what stands in its fifth
/// field, between colons, before the first comma.
pub open spec fn full_name_in(line: Seq<char>) -> Seq<char> {
    let behind = after_first(after_first(after_first(after_first(line, ':'), ':'), ':'), ':');
    before_first(before_first(behind, ":"@), ","@)
}

fn skip_field(v: &Vec<char>, from: usize) -> (r: usize)
    requires
        from <= v.len(),
    ensures
        r <= v.len(),
        v@.skip(r as int) == after_first(v@.skip(from as int), ':'),
{
    let mut i: usize = from;
    while i < v.len() && v[i] != ':'
        invariant
            from <= i <= v.len(),
            after_first(v@.skip(i as int), ':') == after_first(v@.skip(from as int), ':'),
        decreases v.len() - i,
    {
        assert(v@.skip(i as int).skip(1) == v@.skip(i + 1));
        i += 1;
    }
    if i < v.len() {
        assert(v@.skip(i as int).skip(1) == v@.skip(i + 1));
        i + 1
    } else {
        i
    }
}

/// The full name of a user, from the user's line of the user database; empty
/// where the line has no such field.
pub fn full_name_of(line: &str) -> (r: String)
    ensures
        r@ == full_name_in(line@),
{
    let v = chars_of(line);
    assert(v@.skip(0) == line@);
    let second = skip_field(&v, 0);
    let third = skip_field(&v, second);
    let fourth = skip_field(&v, third);
    let fifth = skip_field(&v, fourth);
    let behind = text_of(&v, fifth, v.len());
    assert(behind@ == v@.skip(fifth as int));
    cut_at(cut_at(behind.as_str(), ":").as_str(), ",")
}

/// The directory of the usage records below the configured one.
pub open spec fn records_below(usage_db: Seq<char>) -> Seq<u8> {
    below(encode_utf8(usage_db), encode_utf8("records"@))
}

/// The file that holds the launches of `user`.
pub fn record_path(usage_db: &str, user: &str) -> (r: Vec<u8>)
    ensures
        r@ == below(records_below(usage_db@), encode_utf8(user@ + ".jsonl"@)),
{
    let base = usage_db.as_bytes_vec();
    let records = join_path(&base, "records");
    let mut file = user.to_owned();
    file.append(".jsonl");
    join_path(&records, file.as_str())
}

/// No line feed stands in `s`.
pub open spec fn no_line_feed(s: Seq<char>) -> bool {
    forall|i: int| 0 <= i < s.len() ==> s[i] != '\n'
}

proof fn lemma_json_body_one_line(s: Seq<char>)
    ensures
        no_line_feed(json_body(s)),
    decreases s.len(),
{
    if s.len() > 0 {
        lemma_json_body_one_line(s.skip(1));
        let c = s[0];
        lemma_code_point(c);
        assert(no_line_feed(json_char(c)));
    }
}

proof fn lemma_decimal_one_line(n: nat)
    ensures
        no_line_feed(decimal(n)),
    decreases n,
{
    if n >= 10 {
        lemma_decimal_one_line(n / 10);
    }
    assert(digit((n % 10) as int) != '\n');
}

proof fn lemma_field_one_line(key: Seq<char>, value: Seq<char>)
    requires
        no_line_feed(key),
    ensures
        no_line_feed(json_field(key, value)),
{
    reveal_strlit(",\"");
    reveal_strlit("\":");
    lemma_json_body_one_line(value);
}

/// A launch is recorded as exactly one line, whatever its texts hold: the line
/// ends with a line feed, and no other line feed stands in it.
pub proof fn law_one_line(u: UsageRecord)
    ensures
        usage_line(u).len() > 0,
        usage_line(u).last() == '\n',
        no_line_feed(usage_line(u).drop_last()),
{
    reveal_strlit("{\"epoch\":");
    reveal_strlit("time");
    reveal_strlit("user");
    reveal_strlit("full_name");
    reveal_strlit("application");
    reveal_strlit("category");
    reveal_strlit("host");
    reveal_strlit("command");
    reveal_strlit("}\n");
    lemma_decimal_one_line(u.epoch as nat);
    lemma_field_one_line("time"@, u.time@);
    lemma_field_one_line("user"@, u.user@);
    lemma_field_one_line("full_name"@, u.full_name@);
    lemma_field_one_line("application"@, u.application@);
    lemma_field_one_line("category"@, u.category@);
    lemma_field_one_line("host"@, u.host@);
    lemma_field_one_line("command"@, u.command@);
}

} // verus!
