//! Browsers that run elsewhere: what a launch log, a scan of the analysis
//! machines and a profile lock say about them.

use vstd::prelude::*;
use vstd::string::*;
use vstd::utf8::{decode_utf8, is_ascii_chars, valid_utf8};
use crate::paths::{lossy, lossy_text};
use crate::text::{
    ascii_lowered, chars_of, contains_text, find_text, has_text, is_among, lines, lowercase,
    occurs_at, split_lines, split_whitespace, text_of, to_lowercase, trim, trim_end, trim_start,
    trimmed, trimmed_end, trimmed_start, words,
};

verus! {

/// The script that lists, or kills, the user's browsers on every analysis
/// machine.
pub const BROWSER_SCAN_SCRIPT: &'static str =
    "/SNS/VENUS/shared/software/bin/list_and_fix_running_browser.sh";

/// A log in lower case speaks of a browser that already runs, or of its locked
/// profile.
pub open spec fn lock_words(s: Seq<char>) -> bool {
    ||| has_text(s, "already running"@)
    ||| has_text(s, "is in use"@)
    ||| has_text(s, "singleton"@)
    ||| has_text(s, "parentlock"@)
    ||| has_text(s, "profile directory"@)
}

/// Whether a log, given in lower case, speaks of a browser that already runs.
pub fn mentions_lock(log: &str) -> (r: bool)
    ensures
        r == lock_words(log@),
{
    contains_text(log, "already running") || contains_text(log, "is in use") || contains_text(
        log,
        "singleton",
    ) || contains_text(log, "parentlock") || contains_text(log, "profile directory")
}

/// Whether the launch log, if it could be read, looks like the failure of a
/// browser whose profile is locked.
pub fn log_mentions_browser_lock(log: &Option<String>) -> (r: bool)
    ensures
        r == (log matches Some(text) && lock_words(lowercase(text@))),
        log matches Some(text) ==> is_ascii_chars(text@) ==> r == lock_words(ascii_lowered(text@)),
{
    match log {
        Some(text) => mentions_lock(to_lowercase(text.as_str()).as_str()),
        None => false,
    }
}

/// A line of a scan report that names a machine and the processes found there.
pub open spec fn process_line(line: Seq<char>) -> bool {
    &&& trimmed_start(line).len() > 0
    &&& trimmed_start(line)[0] == '['
    &&& has_text(line, "process(es):"@)
}

/// The report names a machine on which processes were found.
pub open spec fn reports_processes(report: Seq<char>) -> bool {
    exists|k: int| 0 <= k < lines(report).len() && process_line(#[trigger] lines(report)[k])
}

/// Whether a scan found processes. The report lists the machines in blocks
/// that begin with `[host] N process(es):`.
pub fn scan_found_processes(report: &str) -> (r: bool)
    ensures
        r == reports_processes(report@),
{
    let all = split_lines(report);
    let mut k: usize = 0;
    while k < all.len()
        invariant
            k <= all.len(),
            all.deep_view() == lines(report@),
            forall|j: int| 0 <= j < k ==> !process_line(#[trigger] lines(report@)[j]),
        decreases all.len() - k,
    {
        let line = all[k].as_str();
        assert(line@ == all.deep_view()[k as int]);
        let start = chars_of(trim_start(line).as_str());
        if start.len() > 0 && start[0] == '[' && contains_text(line, "process(es):") {
            assert(process_line(lines(report@)[k as int]));
            return true;
        }
        k += 1;
    }
    false
}

/// What stands in `s` before the first occurrence of `mark`; all of `s` where
/// there is none.
pub open spec fn before_first(s: Seq<char>, mark: Seq<char>) -> Seq<char>
    decreases s.len(),
{
    if s.len() == 0 || occurs_at(s, mark, 0) {
        Seq::empty()
    } else {
        seq![s[0]] + before_first(s.skip(1), mark)
    }
}

proof fn lemma_occurs_later(s: Seq<char>, mark: Seq<char>, i: int)
    requires
        s.len() > 0,
        i >= 0,
    ensures
        occurs_at(s.skip(1), mark, i) == occurs_at(s, mark, i + 1),
{
    if i + 1 + mark.len() <= s.len() {
        assert(s.skip(1).subrange(i, i + mark.len()) == s.subrange(i + 1, i + 1 + mark.len()));
    }
}

/// `before_first` ends where `mark` first occurs.
pub proof fn lemma_before_first(s: Seq<char>, mark: Seq<char>, i: int)
    requires
        0 <= i <= s.len(),
        forall|j: int| 0 <= j < i ==> !occurs_at(s, mark, j),
        i < s.len() ==> occurs_at(s, mark, i),
    ensures
        before_first(s, mark) == s.take(i),
    decreases s.len(),
{
    if s.len() == 0 || i == 0 {
        assert(s.take(i) == Seq::<char>::empty());
    } else {
        let tail = s.skip(1);
        assert forall|j: int| 0 <= j < i - 1 implies !occurs_at(tail, mark, j) by {
            lemma_occurs_later(s, mark, j);
        }
        lemma_occurs_later(s, mark, i - 1);
        lemma_before_first(tail, mark, i - 1);
        assert(seq![s[0]] + tail.take(i - 1) == s.take(i));
    }
}

/// What stands in `s` before the first occurrence of `mark`; all of `s` where
/// there is none.
pub fn cut_at(s: &str, mark: &str) -> (r: String)
    ensures
        r@ == before_first(s@, mark@),
{
    let v = chars_of(s);
    let m = chars_of(mark);
    let at: usize = match find_text(&v, &m) {
        Some(i) => i,
        None => v.len(),
    };
    proof {
        if !has_text(s@, mark@) {
            assert forall|j: int| 0 <= j < at implies !occurs_at(s@, mark@, j) by {}
        }
        lemma_before_first(s@, mark@, at as int);
    }
    text_of(&v, 0, at)
}

/// The report of a scan: what the script printed, without its closing hint at
/// another way to run it; its error output where it printed nothing.
pub open spec fn report_text(stdout: Seq<char>, stderr: Seq<char>) -> Seq<char> {
    if trimmed(stdout).len() == 0 {
        stderr
    } else if has_text(stdout, "Re-run with 'kill'"@) {
        trimmed_end(before_first(stdout, "Re-run with 'kill'"@))
    } else {
        stdout
    }
}

/// The report of a scan, from what the script printed.
pub fn scan_report(stdout: String, stderr: String) -> (r: String)
    ensures
        r@ == report_text(stdout@, stderr@),
{
    if trim(stdout.as_str()).as_str().is_empty() {
        stderr
    } else if contains_text(stdout.as_str(), "Re-run with 'kill'") {
        trim_end(cut_at(stdout.as_str(), "Re-run with 'kill'").as_str())
    } else {
        stdout
    }
}

/// The report of a run of the script: from its output and error output, or
/// from why it could not be run.
pub fn run_report(run: Result<(Vec<u8>, Vec<u8>), String>) -> (r: String)
    ensures
        run matches Ok((out, err)) ==> r@ == report_text(lossy(out@), lossy(err@)),
        run matches Ok((out, err)) ==> valid_utf8(out@) && valid_utf8(err@) ==> r@ == report_text(
            decode_utf8(out@),
            decode_utf8(err@),
        ),
        run matches Err(e) ==> r@ == "Could not run the scan script: "@ + e@,
{
    match run {
        Ok((out, err)) => scan_report(lossy_text(&out), lossy_text(&err)),
        Err(e) => {
            let mut r = "Could not run the scan script: ".to_owned();
            r.append(e.as_str());
            r
        },
    }
}

/// The machine that a profile lock names: the lock reads `machine:+process`.
pub open spec fn lock_machine(target: Seq<char>) -> Seq<char> {
    before_first(target, ":"@)
}

/// The lock names a machine, and it is not this one.
pub open spec fn held_elsewhere(target: Seq<char>, here: Seq<Seq<char>>) -> bool {
    lock_machine(target).len() > 0 && !here.contains(lock_machine(target))
}

/// A text that may be missing, as a list.
pub open spec fn listed_text(s: Option<String>) -> Seq<Seq<char>> {
    match s {
        Some(t) => seq![t@],
        None => Seq::empty(),
    }
}

/// The words of a text that may be missing.
pub open spec fn listed_words(s: Option<String>) -> Seq<Seq<char>> {
    match s {
        Some(t) => words(t@),
        None => Seq::empty(),
    }
}

/// The names and addresses under which a lock can name this machine: its name,
/// those that every machine has for itself, its full name and its addresses,
/// as far as they are known.
pub fn own_names(host: String, full: Option<String>, addresses: Option<String>) -> (r: Vec<String>)
    ensures
        r.deep_view() == seq![host@, "localhost"@, "127.0.0.1"@, "127.0.1.1"@] + listed_text(full)
            + listed_words(addresses),
{
    let ghost start = seq![host@, "localhost"@, "127.0.0.1"@, "127.0.1.1"@];
    let mut r: Vec<String> = Vec::new();
    r.push(host);
    r.push("localhost".to_owned());
    r.push("127.0.0.1".to_owned());
    r.push("127.0.1.1".to_owned());
    assert(r.deep_view() == start);
    if let Some(name) = full {
        r.push(name);
        assert(r.deep_view() == start.push(name@));
    }
    let ghost named = r.deep_view();
    assert(named == start + listed_text(full));
    if let Some(list) = addresses {
        let all = split_whitespace(list.as_str());
        let mut k: usize = 0;
        while k < all.len()
            invariant
                k <= all.len(),
                r.deep_view() == named + all.deep_view().take(k as int),
            decreases all.len() - k,
        {
            let ghost before = r.deep_view();
            r.push(all[k].clone());
            assert(r.deep_view() == before.push(all.deep_view()[k as int]));
            assert(all.deep_view().take(k + 1) == all.deep_view().take(k as int).push(
                all.deep_view()[k as int],
            ));
            k += 1;
        }
        assert(all.deep_view().take(k as int) == all.deep_view());
    }
    r
}

/// The first machine other than this one that holds one of the profile locks.
/// `here` are the names and addresses of this machine.
pub fn machine_holding_lock(targets: &Vec<String>, here: &Vec<String>) -> (r: Option<String>)
    ensures
        r is None <==> forall|k: int|
            0 <= k < targets.len() ==> !held_elsewhere(
                (#[trigger] targets[k])@,
                here.deep_view(),
            ),
        r matches Some(m) ==> exists|k: int|
            0 <= k < targets.len() && held_elsewhere((#[trigger] targets[k])@, here.deep_view())
                && m@ == lock_machine(targets[k]@) && forall|j: int|
                0 <= j < k ==> !held_elsewhere((#[trigger] targets[j])@, here.deep_view()),
{
    let mut k: usize = 0;
    while k < targets.len()
        invariant
            k <= targets.len(),
            forall|j: int|
                0 <= j < k ==> !held_elsewhere((#[trigger] targets[j])@, here.deep_view()),
        decreases targets.len() - k,
    {
        let machine = cut_at(targets[k].as_str(), ":");
        if !machine.as_str().is_empty() && !is_among(here, &machine) {
            assert(held_elsewhere(targets[k as int]@, here.deep_view()));
            return Some(machine);
        }
        k += 1;
    }
    None
}

/// A lock that reads `machine:+process` names that machine, whatever the
/// process: a machine's name holds no colon.
pub proof fn law_lock_names_its_machine(machine: Seq<char>, process: Seq<char>)
    requires
        forall|i: int| 0 <= i < machine.len() ==> machine[i] != ':',
    ensures
        lock_machine(machine + ":+"@ + process) == machine,
{
    reveal_strlit(":");
    reveal_strlit(":+");
    let target = machine + ":+"@ + process;
    let n = machine.len() as int;
    assert forall|j: int| 0 <= j < n implies !occurs_at(target, ":"@, j) by {
        assert(target.subrange(j, j + 1)[0] == machine[j]);
        assert(":"@[0] == ':');
    }
    assert(target[n] == ':');
    assert(target.subrange(n, n + 1) == ":"@);
    lemma_before_first(target, ":"@, n);
    assert(target.take(n) == machine);
}

} // verus!
