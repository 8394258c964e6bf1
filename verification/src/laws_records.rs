//! What holds of launches once they are made: what is remembered, recorded and
//! reported of them, and of the state across a new configuration.

use vstd::prelude::*;
use vstd::string::*;
use vstd::utf8::{decode_utf8, encode_utf8, valid_utf8};
use crate::browser::{
    before_first, held_elsewhere, lemma_before_first, listed_text, listed_words, lock_machine,
    lock_words, process_line, report_text, reports_processes, BROWSER_SCAN_SCRIPT,
};
use crate::config::{config_warnings, AppEntry, Config, DEFAULT_CONFIG};
use crate::launch::{names_program, openers, opt_view, terminal_args, terminals};
use crate::laws_launch::{law_availability, law_paths_are_put_below};
use crate::laws_text::{law_decimal_is_read_back, law_white_space_is_trimmed_away, value_of};
use crate::listing::{rows_view, Row, RowView};
use crate::panel::{button_label, disabled_reason};
use crate::paths::{below, bytes_view, lossy};
use crate::recent::{
    history, lemma_history_entry, lemma_history_names, RecentEntry, RecentFile,
};
use crate::requests::launched_text;
use crate::shell::{all_quoted, quoted};
use crate::state::{
    availability, is_position, says, App, BrowserScan, ChildPoll, Failure, PendingLaunch,
    AVAILABILITY_PERIOD, CONFIG_CHECK_PERIOD,
};
use crate::text::{
    all_white, ascii_lowered, decimal, has_text, leading_white, lemma_leading_bounds,
    lemma_trimmed_end_framed, lemma_trimmed_framed, lemma_trimmed_start_framed, lines, lowercase,
    occurs_at, signed_decimal, trimmed, trimmed_end, trimmed_start, white_space, words,
};
use crate::theme::{asks_light, Appearance};
use crate::unlock::{unlocks, with_id};
use crate::usage::{
    after_first, full_name_in, json_body, json_string, records_below, usage_line, UsageRecord,
};
use crate::watch::{
    describes, failed_early, failure_text, is_last_failure, scanning, scanning_text, still_running,
    suspects_browser,
};
use crate::zoom::{asks_large, TextSize};

verus! {

/// A launch counts one more than before, one where there was none, and its time
/// is the last.
pub proof fn law_launch_is_counted(recent: RecentFile, name: Seq<char>, epoch: u64)
    requires
        recent.can_count(name),
    ensures
        recent.after_launch(name, epoch).last_epoch == epoch,
        !recent@.contains_key(name) ==> recent.after_launch(name, epoch).count == 1,
        recent@.contains_key(name) ==> recent.after_launch(name, epoch).count
            - recent@[name].count == 1,
{
}

/// A launch can be counted unless the number is as large as it can be.
pub proof fn law_launches_can_be_counted(recent: RecentFile, name: Seq<char>)
    ensures
        !recent@.contains_key(name) ==> recent.can_count(name),
        recent@.contains_key(name) ==> (recent.can_count(name) <==> recent@[name].count
            != u64::MAX),
{
}

/// The history has the names of its entries; of several entries with one name
/// it has the last.
pub proof fn law_last_entry_counts(entries: Seq<(String, RecentEntry)>, i: int, name: Seq<char>)
    ensures
        history(entries).contains_key(name) <==> exists|k: int|
            0 <= k < entries.len() && (#[trigger] entries[k]).0@ == name,
        0 <= i < entries.len() && entries[i].0@ == name && (forall|k: int|
            i < k < entries.len() ==> (#[trigger] entries[k]).0@ != name) ==> history(entries)[name]
            == entries[i].1,
    decreases entries.len(),
{
    lemma_history_names(entries, name);
    if 0 <= i < entries.len() - 1 {
        let shorter = entries.drop_last();
        law_last_entry_counts(shorter, i, name);
        if entries[i].0@ == name && (forall|k: int|
            i < k < entries.len() ==> (#[trigger] entries[k]).0@ != name) {
            assert(shorter[i].0@ == name);
            assert forall|k: int| i < k < shorter.len() implies (#[trigger] shorter[k]).0@
                != name by {
                assert(entries[k].0@ != name);
            }
            assert(entries[entries.len() - 1].0@ != name);
        }
    }
}

/// An application cools for five seconds after its launch, and no longer; an
/// entry can be launched where it is available and its application does not
/// cool. The times are in nanoseconds.
pub proof fn law_cooldown_is_five_seconds(app: App, idx: usize, now: u64)
    requires
        idx < app.apps().len(),
    ensures
        ({
            let name = app.apps()[idx as int].name@;
            let cools = app.launch_times().contains_key(name) && now - app.launch_times()[name]
                < 5 * 1_000_000_000;
            &&& app.cools(idx, now) == cools
            &&& app.launchable(idx, now) == (app.available@[idx as int] && !cools)
        }),
{
}

/// The screen is drawn again soon just where a process is watched or some
/// launch is less than five seconds old.
pub proof fn law_recent_launch_stirs(app: App, now: u64)
    requires
        app.wf(),
    ensures
        app.stirs(now) <==> app.pending.len() > 0 || exists|k: int|
            0 <= k < app.last_launch.len() && now - (#[trigger] app.last_launch@[k]).1 < 5
                * 1_000_000_000,
{
    let entries = app.last_launch@;
    if exists|name: Seq<char>| #[trigger] app.name_cools(name, now) {
        let name = choose|name: Seq<char>| #[trigger] app.name_cools(name, now);
        lemma_history_names(entries, name);
        let k = choose|k: int| 0 <= k < entries.len() && (#[trigger] entries[k]).0@ == name;
        lemma_history_entry(entries, k);
        assert(now - entries[k].1 < 5 * 1_000_000_000);
    }
    if exists|k: int|
        0 <= k < entries.len() && now - (#[trigger] entries[k]).1 < 5 * 1_000_000_000 {
        let k = choose|k: int|
            0 <= k < entries.len() && now - (#[trigger] entries[k]).1 < 5 * 1_000_000_000;
        lemma_history_entry(entries, k);
        assert(app.name_cools(entries[k].0@, now));
    }
}

/// The configuration file is looked at once in a second, the availability of
/// the applications once in five.
pub proof fn law_periods()
    ensures
        CONFIG_CHECK_PERIOD == 1_000_000_000,
        AVAILABILITY_PERIOD == 5 * CONFIG_CHECK_PERIOD,
{
}

/// A process failed early just where it ended, not with success, less than
/// fifteen seconds after its launch.
pub proof fn law_failure_within_fifteen_seconds(p: PendingLaunch, poll: ChildPoll, now: u64)
    ensures
        failed_early(p, poll, now) <==> match poll {
            ChildPoll::Exited { success, code } => !success && now - p.started < 15 * 1_000_000_000,
            ChildPoll::Running => false,
            ChildPoll::Lost => false,
        },
{
}

/// The failure that is reported is an early one behind which there is none, and
/// there is just one such wherever any process failed early.
pub proof fn law_last_failure_is_reported(
    pending: Seq<PendingLaunch>,
    polls: Seq<ChildPoll>,
    now: u64,
    i: int,
    j: int,
)
    ensures
        is_last_failure(pending, polls, now, i) ==> 0 <= i < pending.len() && failed_early(
            pending[i],
            polls[i],
            now,
        ),
        is_last_failure(pending, polls, now, i) && i < j < pending.len() ==> !failed_early(
            pending[j],
            polls[j],
            now,
        ),
        0 <= j < pending.len() && failed_early(pending[j], polls[j], now) ==> exists|k: int|
            j <= k && #[trigger] is_last_failure(pending, polls, now, k),
{
    if 0 <= j < pending.len() && failed_early(pending[j], polls[j], now) {
        lemma_last_failure(pending, polls, now, j);
    }
}

proof fn lemma_last_failure(
    pending: Seq<PendingLaunch>,
    polls: Seq<ChildPoll>,
    now: u64,
    j: int,
)
    requires
        0 <= j < pending.len(),
        failed_early(pending[j], polls[j], now),
    ensures
        exists|k: int| j <= k && #[trigger] is_last_failure(pending, polls, now, k),
    decreases pending.len() - j,
{
    if !is_last_failure(pending, polls, now, j) {
        let k = choose|k: int|
            j < k < pending.len() && failed_early(#[trigger] pending[k], polls[k], now);
        lemma_last_failure(pending, polls, now, k);
    }
}

/// A process more is kept just where it still runs, behind those that were
/// launched before it.
pub proof fn law_running_process_is_kept(
    pending: Seq<PendingLaunch>,
    p: PendingLaunch,
    polls: Seq<ChildPoll>,
)
    requires
        polls.len() == pending.len() + 1,
    ensures
        still_running(Seq::<PendingLaunch>::empty(), polls).len() == 0,
        polls.last() is Running ==> still_running(pending.push(p), polls) == still_running(
            pending,
            polls,
        ).push(p),
        !(polls.last() is Running) ==> still_running(pending.push(p), polls) == still_running(
            pending,
            polls,
        ),
{
    assert(pending.push(p).drop_last() == pending);
}

/// A process that ended is reported with its exit code, as a number that reads
/// back, or with the signal that killed it where it has none. The name, the log
/// and whether it needs a browser are those of the launch.
pub proof fn law_failure_describes_its_process(f: Failure, p: PendingLaunch, poll: ChildPoll)
    requires
        describes(f, p, poll),
    ensures
        f.name@ == p.name@,
        f.browserish == p.browserish,
        bytes_view(f.log) == bytes_view(p.log),
        poll matches ChildPoll::Exited { success, code: Some(c) } ==> {
            &&& c >= 0 ==> value_of(f.code@) == c
            &&& c < 0 ==> f.code@[0] == '-' && value_of(f.code@.skip(1)) == -c
        },
        (poll matches ChildPoll::Exited { success, code } ==> code is None) ==> f.code@
            == "killed by signal"@,
{
    if let ChildPoll::Exited { success, code: Some(c) } = poll {
        if c >= 0 {
            law_decimal_is_read_back(c as nat);
        } else {
            law_decimal_is_read_back((-c) as nat);
            assert(signed_decimal(c as int).skip(1) == decimal((-c) as nat));
        }
    }
}

/// The report of a failure names the application and the exit code and, where
/// there is a log, the log. A scan that begins is announced behind it.
pub proof fn law_failure_report(f: Failure)
    ensures
        f.log is None ==> failure_text(f) == f.name@ + " exited (code "@ + f.code@ + ")"@,
        f.log matches Some(log) ==> failure_text(f) == f.name@ + " exited (code "@ + f.code@ + ")"@
            + " \u{2014} see "@ + lossy(log@),
        scanning_text()
            == " \u{2014} scanning the analysis machines for an already-running browser\u{2026}"@,
{
}

/// A browser elsewhere is suspected where the application needs one, or the
/// log speaks, in whatever case, of a browser that runs or of its locked
/// profile: any of these phrases, anywhere in it.
pub proof fn law_suspicion(f: Failure, log: Option<String>)
    ensures
        suspects_browser(f, log) <==> f.browserish || (log matches Some(t) && {
            let s = lowercase(t@);
            ||| has_text(s, "already running"@)
            ||| has_text(s, "is in use"@)
            ||| has_text(s, "singleton"@)
            ||| has_text(s, "parentlock"@)
            ||| has_text(s, "profile directory"@)
        }),
{
}

/// A phrase about a locked profile is known wherever it stands.
pub proof fn law_lock_phrase_is_found(before: Seq<char>, after: Seq<char>)
    ensures
        lock_words(before + "already running"@ + after),
        lock_words(before + "is in use"@ + after),
        lock_words(before + "singleton"@ + after),
        lock_words(before + "parentlock"@ + after),
        lock_words(before + "profile directory"@ + after),
{
    crate::laws_text::law_text_is_found(before, "already running"@, after);
    crate::laws_text::law_text_is_found(before, "is in use"@, after);
    crate::laws_text::law_text_is_found(before, "singleton"@, after);
    crate::laws_text::law_text_is_found(before, "parentlock"@, after);
    crate::laws_text::law_text_is_found(before, "profile directory"@, after);
}

/// What is said at the end of a run of the script.
pub proof fn law_scan_verdict(scan: BrowserScan, report: Seq<char>)
    ensures
        scan.fix ==> App::scan_verdict(scan, report) == Ok::<Seq<char>, Seq<char>>(
            "Browser fix finished"@,
        ),
        !scan.fix && reports_processes(report) ==> App::scan_verdict(scan, report) == Err::<
            Seq<char>,
            Seq<char>,
        >(scan.app_name@ + ": your browser is already running on another machine"@),
        !scan.fix && !reports_processes(report) ==> App::scan_verdict(scan, report) == Ok::<
            Seq<char>,
            Seq<char>,
        >("No already-running Firefox/Chrome/Jupyter found on the analysis machines"@),
{
}

/// A scan is under way from its start until its report has come.
pub proof fn law_scan_is_under_way(scan: Option<BrowserScan>)
    ensures
        scan is None ==> !scanning(scan),
        scan matches Some(s) ==> (s.output is Some ==> !scanning(scan)) && (s.output is None
            ==> scanning(scan)),
{
}

/// A scan found processes just where some line of its report, behind white
/// space at most, begins with a bracket and says that there are processes.
pub proof fn law_processes_are_reported(report: Seq<char>)
    ensures
        reports_processes(report) <==> exists|k: int, i: int|
            #![trigger lines(report)[k][i]]
            0 <= k < lines(report).len() && 0 <= i < lines(report)[k].len() && lines(report)[k][i]
                == '[' && all_white(lines(report)[k].take(i)) && has_text(
                lines(report)[k],
                "process(es):"@,
            ),
{
    if reports_processes(report) {
        let k = choose|k: int|
            0 <= k < lines(report).len() && process_line(#[trigger] lines(report)[k]);
        let line = lines(report)[k];
        let i = leading_white(line) as int;
        lemma_leading_bounds(line);
        lemma_leading_are_white(line);
        assert(line[i] == trimmed_start(line)[0]);
        assert(lines(report)[k][i] == '[');
    }
    if exists|k: int, i: int|
        #![trigger lines(report)[k][i]]
        0 <= k < lines(report).len() && 0 <= i < lines(report)[k].len() && lines(report)[k][i]
            == '[' && all_white(lines(report)[k].take(i)) && has_text(
            lines(report)[k],
            "process(es):"@,
        ) {
        let (k, i) = choose|k: int, i: int|
            #![trigger lines(report)[k][i]]
            0 <= k < lines(report).len() && 0 <= i < lines(report)[k].len() && lines(report)[k][i]
                == '[' && all_white(lines(report)[k].take(i)) && has_text(
                lines(report)[k],
                "process(es):"@,
            );
        let line = lines(report)[k];
        assert(line == line.take(i) + line.skip(i));
        lemma_trimmed_start_framed(line.take(i), line.skip(i));
        assert(process_line(line));
    }
}

proof fn lemma_leading_are_white(s: Seq<char>)
    ensures
        leading_white(s) <= s.len(),
        all_white(s.take(leading_white(s) as int)),
    decreases s.len(),
{
    lemma_leading_bounds(s);
    if s.len() > 0 && white_space(s[0]) {
        lemma_leading_are_white(s.skip(1));
        let n = leading_white(s) as int;
        assert forall|i: int| 0 <= i < n implies white_space(#[trigger] s.take(n)[i]) by {
            if i > 0 {
                assert(white_space(s.skip(1).take(n - 1)[i - 1]));
            }
        }
    }
}

/// What is trimmed to nothing is white space.
proof fn lemma_trimmed_to_nothing(s: Seq<char>)
    requires
        trimmed(s).len() == 0,
    ensures
        all_white(s),
{
    lemma_leading_are_white(s);
    let n = leading_white(s) as int;
    let rest = trimmed_start(s);
    lemma_end_trimmed_to_nothing(rest);
    assert forall|i: int| 0 <= i < s.len() implies white_space(#[trigger] s[i]) by {
        if i < n {
            assert(white_space(s.take(n)[i]));
        } else {
            assert(white_space(rest[i - n]));
        }
    }
}

proof fn lemma_end_trimmed_to_nothing(s: Seq<char>)
    requires
        trimmed_end(s).len() == 0,
    ensures
        all_white(s),
    decreases s.len(),
{
    if s.len() > 0 {
        lemma_end_trimmed_to_nothing(s.drop_last());
        assert forall|i: int| 0 <= i < s.len() implies white_space(#[trigger] s[i]) by {
            if i < s.len() - 1 {
                assert(white_space(s.drop_last()[i]));
            }
        }
    }
}

/// The report is the error output where the script printed only white space,
/// and what it printed otherwise, as long as that has no closing hint.
pub proof fn law_report(stdout: Seq<char>, stderr: Seq<char>)
    ensures
        all_white(stdout) ==> report_text(stdout, stderr) == stderr,
        !all_white(stdout) && !has_text(stdout, "Re-run with 'kill'"@) ==> report_text(
            stdout,
            stderr,
        ) == stdout,
{
    if all_white(stdout) {
        law_white_space_is_trimmed_away(stdout);
    } else if trimmed(stdout).len() == 0 {
        lemma_trimmed_to_nothing(stdout);
    }
}

/// The closing hint is not reported: not its first words, nor what follows
/// them, nor the white space before them.
pub proof fn law_report_ends_before_the_hint(
    body: Seq<char>,
    white: Seq<char>,
    rest: Seq<char>,
    stderr: Seq<char>,
)
    requires
        body.len() > 0,
        !white_space(body.last()),
        all_white(white),
        forall|j: int|
            0 <= j < body.len() + white.len() ==> !#[trigger] occurs_at(
                body + white + "Re-run with 'kill'"@ + rest,
                "Re-run with 'kill'"@,
                j,
            ),
    ensures
        report_text(body + white + "Re-run with 'kill'"@ + rest, stderr) == body,
{
    let hint = "Re-run with 'kill'"@;
    let stdout = body + white + hint + rest;
    let n = (body.len() + white.len()) as int;
    reveal_strlit("Re-run with 'kill'");
    assert(stdout.subrange(n, n + hint.len()) == hint);
    assert(occurs_at(stdout, hint, n));
    lemma_before_first(stdout, hint, n);
    assert(stdout.take(n) == body + white);
    lemma_trimmed_end_framed(body, white);
    if trimmed(stdout).len() == 0 {
        lemma_trimmed_to_nothing(stdout);
        assert(white_space(stdout[body.len() - 1]));
    }
}

/// A profile lock is held elsewhere just where it names a machine before its
/// first colon that is none of this one's names.
pub proof fn law_lock_is_held_elsewhere(
    machine: Seq<char>,
    rest: Seq<char>,
    here: Seq<Seq<char>>,
)
    requires
        forall|i: int| 0 <= i < machine.len() ==> machine[i] != ':',
    ensures
        lock_machine(machine + seq![':'] + rest) == machine,
        held_elsewhere(machine + seq![':'] + rest, here) <==> machine.len() > 0 && forall|k: int|
            0 <= k < here.len() ==> #[trigger] here[k] != machine,
        lock_machine(machine) == machine,
{
    reveal_strlit(":");
    lemma_cut_at_char(machine, ':', rest);
    assert(":"@ == seq![':']);
    if here.contains(machine) {
        let k = choose|k: int| 0 <= k < here.len() && here[k] == machine;
        assert(here[k] == machine);
    } else {
        assert forall|k: int| 0 <= k < here.len() implies #[trigger] here[k] != machine by {
            assert(here.contains(here[k]));
        }
    }
}

/// What stands before a character is what has none of it.
proof fn lemma_cut_at_char(s: Seq<char>, c: char, rest: Seq<char>)
    requires
        forall|i: int| 0 <= i < s.len() ==> s[i] != c,
    ensures
        before_first(s + seq![c] + rest, seq![c]) == s,
        before_first(s, seq![c]) == s,
{
    let mark = seq![c];
    let t = s + mark + rest;
    let n = s.len() as int;
    assert forall|j: int| 0 <= j < n implies !occurs_at(t, mark, j) by {
        assert(t.subrange(j, j + 1)[0] == s[j]);
        assert(mark[0] == c);
    }
    assert(t.subrange(n, n + 1) == mark);
    lemma_before_first(t, mark, n);
    assert(t.take(n) == s);
    assert forall|j: int| 0 <= j < n implies !occurs_at(s, mark, j) by {
        assert(s.subrange(j, j + 1)[0] == s[j]);
        assert(mark[0] == c);
    }
    lemma_before_first(s, mark, n);
    assert(s.take(n) == s);
}

/// A launch is recorded under these names, in this order, its texts as JSON
/// strings and its time as a number.
pub proof fn law_recorded_fields(u: UsageRecord)
    ensures
        usage_line(u) == "{\"epoch\":"@ + decimal(u.epoch as nat) + (",\""@ + "time"@ + "\":"@
            + json_string(u.time@)) + (",\""@ + "user"@ + "\":"@ + json_string(u.user@)) + (",\""@
            + "full_name"@ + "\":"@ + json_string(u.full_name@)) + (",\""@ + "application"@
            + "\":"@ + json_string(u.application@)) + (",\""@ + "category"@ + "\":"@ + json_string(
            u.category@,
        )) + (",\""@ + "host"@ + "\":"@ + json_string(u.host@)) + (",\""@ + "command"@ + "\":"@
            + json_string(u.command@)) + "}\n"@,
{
}

/// A JSON string is put together character by character between two quotation
/// marks: a quotation mark and a backslash behind a backslash, what is no
/// control character as it is.
pub proof fn law_json_string_is_made_of_characters(a: Seq<char>, c: char, b: Seq<char>)
    ensures
        json_string(a) == seq!['"'] + json_body(a) + seq!['"'],
        json_body(a + b) == json_body(a) + json_body(b),
        json_body(Seq::empty()).len() == 0,
        c == '"' || c == '\\' ==> json_body(seq![c]) == seq!['\\', c],
        c != '"' && c != '\\' && c >= ' ' ==> json_body(seq![c]) == seq![c],
        c == '\n' ==> json_body(seq![c]) == seq!['\\', 'u', '0', '0', '0', 'a'],
        c == '\u{1b}' ==> json_body(seq![c]) == seq!['\\', 'u', '0', '0', '1', 'b'],
{
    lemma_json_body_joined(a, b);
    assert(seq![c].skip(1) == Seq::<char>::empty());
    let rest = json_body(seq![c].skip(1));
    assert(rest == Seq::<char>::empty());
    assert(json_body(seq![c]) == crate::usage::json_char(c) + rest);
    assert((10 + 87) as char == 'a');
    assert((11 + 87) as char == 'b');
    assert((0 + 48) as char == '0');
    assert((1 + 48) as char == '1');
}

proof fn lemma_json_body_joined(a: Seq<char>, b: Seq<char>)
    ensures
        json_body(a + b) == json_body(a) + json_body(b),
    decreases a.len(),
{
    if a.len() == 0 {
        assert(a + b == b);
        assert(json_body(a) + json_body(b) == json_body(b));
    } else {
        lemma_json_body_joined(a.skip(1), b);
        assert((a + b).skip(1) == a.skip(1) + b);
        assert((a + b)[0] == a[0]);
        assert(json_body(a + b) == json_body(a) + json_body(b));
    }
}

/// The full name stands in the fifth field of the user's line, up to a comma,
/// whether further fields follow or not.
pub proof fn law_full_name_is_in_the_fifth_field(
    a: Seq<char>,
    b: Seq<char>,
    c: Seq<char>,
    d: Seq<char>,
    name: Seq<char>,
    more: Seq<char>,
    rest: Seq<char>,
)
    requires
        forall|i: int| 0 <= i < a.len() ==> a[i] != ':',
        forall|i: int| 0 <= i < b.len() ==> b[i] != ':',
        forall|i: int| 0 <= i < c.len() ==> c[i] != ':',
        forall|i: int| 0 <= i < d.len() ==> d[i] != ':',
        forall|i: int| 0 <= i < name.len() ==> name[i] != ':' && name[i] != ',',
        forall|i: int| 0 <= i < more.len() ==> more[i] != ':',
    ensures
        ({
            let four = a + seq![':'] + (b + seq![':'] + (c + seq![':'] + (d + seq![':']
                + name)));
            &&& full_name_in(four) == name
            &&& full_name_in(four + seq![':'] + rest) == name
            &&& full_name_in(four + seq![','] + more) == name
            &&& full_name_in(four + seq![','] + more + seq![':'] + rest) == name
        }),
{
    lemma_full_name(a, b, c, d, name, Seq::empty());
    lemma_full_name(a, b, c, d, name, seq![':'] + rest);
    lemma_full_name(a, b, c, d, name, seq![','] + more);
    lemma_full_name(a, b, c, d, name, seq![','] + more + seq![':'] + rest);
    let four = a + seq![':'] + (b + seq![':'] + (c + seq![':'] + (d + seq![':'] + name)));
    assert(four + Seq::<char>::empty() == four);
    assert(four + (seq![':'] + rest) == four + seq![':'] + rest);
    assert(four + (seq![','] + more) == four + seq![','] + more);
    assert(four + (seq![','] + more + seq![':'] + rest) == four + seq![','] + more + seq![':']
        + rest);
    assert(name + Seq::<char>::empty() == name);
    lemma_cut_at_char(name, ':', rest);
    assert(name + (seq![':'] + rest) == name + seq![':'] + rest);
    lemma_cut_at_char(name, ',', more);
    let with_more = name + seq![','] + more;
    assert forall|i: int| 0 <= i < with_more.len() implies with_more[i] != ':' by {
        if i < name.len() {
            assert(name[i] != ':');
        } else if i > name.len() {
            assert(more[i - name.len() - 1] != ':');
        }
    }
    lemma_cut_at_char(with_more, ':', rest);
    assert(name + (seq![','] + more) == with_more);
    assert(name + (seq![','] + more + seq![':'] + rest) == with_more + seq![':'] + rest);
}

proof fn lemma_full_name(
    a: Seq<char>,
    b: Seq<char>,
    c: Seq<char>,
    d: Seq<char>,
    name: Seq<char>,
    tail: Seq<char>,
)
    requires
        forall|i: int| 0 <= i < a.len() ==> a[i] != ':',
        forall|i: int| 0 <= i < b.len() ==> b[i] != ':',
        forall|i: int| 0 <= i < c.len() ==> c[i] != ':',
        forall|i: int| 0 <= i < d.len() ==> d[i] != ':',
    ensures
        full_name_in(
            a + seq![':'] + (b + seq![':'] + (c + seq![':'] + (d + seq![':'] + name))) + tail,
        ) == before_first(before_first(name + tail, seq![':']), seq![',']),
{
    reveal_strlit(":");
    reveal_strlit(",");
    assert(":"@ == seq![':']);
    assert(","@ == seq![',']);
    let t4 = name + tail;
    let t3 = d + seq![':'] + t4;
    let t2 = c + seq![':'] + t3;
    let t1 = b + seq![':'] + t2;
    let t0 = a + seq![':'] + t1;
    lemma_after_first(a, ':', t1);
    lemma_after_first(b, ':', t2);
    lemma_after_first(c, ':', t3);
    lemma_after_first(d, ':', t4);
    assert(a + seq![':'] + (b + seq![':'] + (c + seq![':'] + (d + seq![':'] + name))) + tail
        == t0);
}

proof fn lemma_after_first(s: Seq<char>, mark: char, rest: Seq<char>)
    requires
        forall|i: int| 0 <= i < s.len() ==> s[i] != mark,
    ensures
        after_first(s + seq![mark] + rest, mark) == rest,
    decreases s.len(),
{
    let t = s + seq![mark] + rest;
    if s.len() == 0 {
        assert(t.skip(1) == rest);
    } else {
        assert(s[0] != mark);
        lemma_after_first(s.skip(1), mark, rest);
        assert(t.skip(1) == s.skip(1) + seq![mark] + rest);
    }
}

/// The records of the launches stand in a directory of their own.
pub proof fn law_records_directory(usage_db: Seq<char>)
    ensures
        records_below(usage_db) == below(encode_utf8(usage_db), encode_utf8("records"@)),
{
}

/// A text unlocks just where, without the white space around it and in lower
/// case, it is not empty and one of the passwords is the same in lower case,
/// whichever of them.
pub proof fn law_any_password_unlocks(
    passwords: Seq<Seq<char>>,
    before: Seq<char>,
    typed: Seq<char>,
    after: Seq<char>,
)
    requires
        all_white(before),
        all_white(after),
        typed.len() > 0,
        !white_space(typed[0]),
        !white_space(typed.last()),
    ensures
        unlocks(passwords, before + typed + after) <==> lowercase(typed).len() > 0 && exists|i: int|
            0 <= i < passwords.len() && lowercase(#[trigger] passwords[i]) == lowercase(typed),
{
    lemma_trimmed_framed(before, typed, after);
    let low = crate::config::all_lowercase(passwords);
    if low.contains(lowercase(typed)) {
        let i = choose|i: int| 0 <= i < low.len() && low[i] == lowercase(typed);
        assert(lowercase(passwords[i]) == lowercase(typed));
    }
    if exists|i: int|
        0 <= i < passwords.len() && lowercase(#[trigger] passwords[i]) == lowercase(typed) {
        let i = choose|i: int|
            0 <= i < passwords.len() && lowercase(#[trigger] passwords[i]) == lowercase(typed);
        assert(low[i] == lowercase(typed));
    }
}

/// Unlocking adds the category where it is not unlocked yet, and keeps all that
/// were, in their order.
pub proof fn law_unlocking_adds_the_category(ids: Seq<Seq<char>>, id: Seq<char>)
    ensures
        with_id(ids, id).contains(id),
        with_id(ids, id).len() >= ids.len(),
        with_id(ids, id).take(ids.len() as int) == ids,
        ids.contains(id) ==> with_id(ids, id).len() == ids.len(),
        !ids.contains(id) ==> with_id(ids, id).len() == ids.len() + 1,
{
    let all = with_id(ids, id);
    assert(all.take(ids.len() as int) == ids);
    if !ids.contains(id) {
        assert(all[ids.len() as int] == id);
    }
}

/// The words of a button and of why it cannot be pressed.
pub proof fn law_button_words(is_page: bool, target: Seq<char>)
    ensures
        button_label(is_page, true) == "Launching..."@,
        button_label(true, false) == "Open"@,
        button_label(false, false) == "Launch"@,
        disabled_reason(target, true) == "Starting, please wait..."@,
        disabled_reason(target, false) == "Not found: "@ + target,
{
}

/// What is said of a launch: a web page is opened, everything else launched.
pub proof fn law_launch_is_announced(name: Seq<char>)
    ensures
        launched_text(true, name) == "Opened: "@ + name,
        launched_text(false, name) == "Launched: "@ + name,
{
}

/// A saved preference asks for light colors, or for large text, just where it
/// holds that word, in whatever case and with whatever white space around it.
pub proof fn law_saved_words(before: Seq<char>, word: Seq<char>, after: Seq<char>)
    requires
        all_white(before),
        all_white(after),
        word.len() > 0,
        !white_space(word[0]),
        !white_space(word.last()),
    ensures
        asks_light(before + word + after) <==> ascii_lowered(word) == seq!['l', 'i', 'g', 'h', 't'],
        asks_large(before + word + after) <==> ascii_lowered(word) == seq!['l', 'a', 'r', 'g', 'e'],
{
    lemma_trimmed_framed(before, word, after);
    reveal_strlit("light");
    reveal_strlit("large");
    assert(ascii_lowered("light"@) == seq!['l', 'i', 'g', 'h', 't']);
    assert(ascii_lowered("large"@) == seq!['l', 'a', 'r', 'g', 'e']);
}

/// A preference without a word asks for nothing.
pub proof fn law_empty_preference(white: Seq<char>)
    requires
        all_white(white),
    ensures
        !asks_light(white),
        !asks_large(white),
{
    law_white_space_is_trimmed_away(white);
    reveal_strlit("light");
    reveal_strlit("large");
    assert(ascii_lowered(trimmed(white)).len() != ascii_lowered("light"@).len());
    assert(ascii_lowered(trimmed(white)).len() != ascii_lowered("large"@).len());
}

/// What is saved of the preferences: one word and a line feed.
pub proof fn law_saved_preferences()
    ensures
        crate::theme::saved_text(Appearance::Dark) == "dark\n"@,
        crate::theme::saved_text(Appearance::Light) == "light\n"@,
        crate::zoom::saved_text(TextSize::Normal) == "normal\n"@,
        crate::zoom::saved_text(TextSize::Large) == "large\n"@,
{
}

/// Of each entry it is known whether it is available: a page always, another
/// where it has a command and what it needs is present.
pub proof fn law_each_availability(apps: Seq<AppEntry>, present: Seq<bool>, i: int)
    requires
        0 <= i < apps.len(),
    ensures
        availability(apps, present).len() == apps.len(),
        apps[i].url is Some ==> availability(apps, present)[i],
        apps[i].url is None && apps[i].command.len() == 0 ==> !availability(apps, present)[i],
        apps[i].url is None && apps[i].command.len() > 0 && (apps[i].check_path is Some
            || exists|k: int|
            #![trigger apps[i].command@[k]]
            0 <= k < apps[i].command.len() && apps[i].command@[k]@.len() > 0
                && apps[i].command@[k]@[0] == '/') ==> availability(
            apps,
            present,
        )[i] == present[i],
        apps[i].url is None && apps[i].command.len() > 0 && apps[i].check_path is None && (
        forall|k: int|
            #![trigger apps[i].command@[k]]
            0 <= k < apps[i].command.len() ==> apps[i].command@[k]@.len() == 0
                || apps[i].command@[k]@[0] != '/') ==> availability(apps, present)[i],
{
    law_availability(apps[i], present[i]);
}

/// An entry is followed by its name to the first entry that has it, and to none
/// where no entry has it.
pub proof fn law_first_of_the_name_is_found(
    apps: Seq<AppEntry>,
    name: Seq<char>,
    r: Option<usize>,
)
    requires
        is_position(apps, Some(name), r),
    ensures
        r matches Some(i) ==> i < apps.len() && apps[i as int].name@ == name,
        forall|j: int|
            0 <= j < apps.len() && (#[trigger] apps[j]).name@ == name ==> r is Some && r->Some_0
                <= j,
{
    assert forall|j: int| 0 <= j < apps.len() && (#[trigger] apps[j]).name@ == name implies r
        is Some && r->Some_0 <= j by {
    }
}

/// Nothing that was chosen stays nothing.
pub proof fn law_nothing_is_followed_nowhere(apps: Seq<AppEntry>, r: Option<usize>)
    requires
        is_position(apps, None, r),
    ensures
        r is None,
{
}

/// A new configuration: the chosen category stays just where it is still
/// defined, the availability and the warnings are those of the new entries, and
/// when each application was launched stays.
pub proof fn law_reload(before: App, after: App, cfg: Config, present: Seq<bool>)
    requires
        after.reloaded(before, Ok(cfg), present),
    ensures
        after.config == Ok::<Config, String>(cfg),
        after.available.len() == cfg.apps.len(),
        after.launch_times() == before.launch_times(),
        before.active_category is None ==> after.active_category is None,
        before.active_category matches Some(c) ==> {
            let defined = exists|k: int|
                0 <= k < cfg.categories.len() && (#[trigger] cfg.categories@[k]).id@ == c@;
            &&& defined ==> after.active_category == before.active_category
            &&& !defined ==> after.active_category is None
        },
{
    let ids = cfg.category_ids();
    if let Some(c) = before.active_category {
        if ids.contains(c@) {
            let k = choose|k: int| 0 <= k < ids.len() && ids[k] == c@;
            assert(cfg.categories@[k].id@ == c@);
        }
        if exists|k: int|
            0 <= k < cfg.categories.len() && (#[trigger] cfg.categories@[k]).id@ == c@ {
            let k = choose|k: int|
                0 <= k < cfg.categories.len() && (#[trigger] cfg.categories@[k]).id@ == c@;
            assert(ids[k] == c@);
        }
    }
}

/// After a new configuration the preview and the keyboard choice stand on the
/// first entry that has the name of what was chosen; on none where nothing was
/// chosen, or nothing has its name.
pub proof fn law_reload_finds_the_first(
    before: App,
    after: App,
    cfg: Config,
    present: Seq<bool>,
    j: usize,
)
    requires
        after.reloaded(before, Ok(cfg), present),
        j < cfg.apps.len(),
    ensures
        before.selected is None ==> after.selected is None,
        before.highlighted is None ==> after.highlighted is None,
        before.selected matches Some(i) ==> i < before.apps().len() && cfg.apps@[j as int].name@
            == before.apps()[i as int].name@ ==> after.selected is Some && after.selected->Some_0
            <= j && cfg.apps@[after.selected->Some_0 as int].name@
            == before.apps()[i as int].name@,
        before.highlighted matches Some(i) ==> i < before.apps().len() && cfg.apps@[j as int].name@
            == before.apps()[i as int].name@ ==> after.highlighted is Some
            && after.highlighted->Some_0 <= j
            && cfg.apps@[after.highlighted->Some_0 as int].name@
            == before.apps()[i as int].name@,
        after.selected matches Some(k) ==> k < cfg.apps.len() && before.selected is Some,
        after.highlighted matches Some(k) ==> k < cfg.apps.len() && before.highlighted is Some,
{
    assert(cfg.apps@[j as int].name@ == cfg.apps@[j as int].name@);
}

/// A launch that is held back stays held back over a new configuration just
/// where an entry still has its name and the first such entry is open; it then
/// stands for that entry, and the machine stays.
pub proof fn law_held_launch_follows_its_name(
    before: App,
    after: App,
    cfg: Config,
    present: Seq<bool>,
    k: usize,
)
    requires
        after.reloaded(before, Ok(cfg), present),
        before.held is Some,
        before.held->Some_0.app < before.apps().len(),
        k < cfg.apps.len(),
        cfg.apps@[k as int].name@ == before.apps()[before.held->Some_0.app as int].name@,
        forall|j: int|
            0 <= j < k ==> (#[trigger] cfg.apps@[j]).name@
                != before.apps()[before.held->Some_0.app as int].name@,
    ensures
        ({
            let open = forall|c: int|
                0 <= c < cfg.categories.len() && (#[trigger] cfg.categories@[c]).id@
                    == cfg.apps@[k as int].category@ ==> cfg.categories@[c].passwords.len() == 0
                    || after.unlocked.deep_view().contains(cfg.apps@[k as int].category@);
            &&& open ==> after.held is Some && after.held->Some_0.app == k
                && after.held->Some_0.machine == before.held->Some_0.machine
            &&& !open ==> after.held is None
        }),
{
    let name = before.apps()[before.held->Some_0.app as int].name@;
    assert(before.name_at(before.held_app()) == Some(name));
    assert(after.apps() == cfg.apps@);
    assert(after.categories() == cfg.categories@);
    assert forall|i: usize| #[trigger] is_position(
        cfg.apps@,
        before.name_at(before.held_app()),
        Some(i),
    ) implies i == k by {
        if i < k {
            assert(cfg.apps@[i as int].name@ != name);
        } else if k < i {
            assert(cfg.apps@[k as int].name@ == name);
        }
    }
    assert(is_position(cfg.apps@, before.name_at(before.held_app()), Some(k)));
    assert(!is_position(cfg.apps@, before.name_at(before.held_app()), None)) by {
        assert(cfg.apps@[k as int].name@ == name);
    }
}

/// An entry is hidden just where some category of its id is protected and not
/// unlocked.
pub proof fn law_hidden_entries(app: App, idx: usize)
    ensures
        app.is_hidden(idx) <==> exists|k: int|
            0 <= k < app.categories().len() && (#[trigger] app.categories()[k]).id@
                == app.apps()[idx as int].category@ && app.categories()[k].passwords.len() > 0
                && forall|u: int|
                0 <= u < app.unlocked.len() ==> (#[trigger] app.unlocked@[u])@
                    != app.apps()[idx as int].category@,
{
    let id = app.apps()[idx as int].category@;
    let open = app.unlocked.deep_view();
    if open.contains(id) {
        let u = choose|u: int| 0 <= u < open.len() && open[u] == id;
        assert(app.unlocked@[u]@ == id);
    } else {
        assert forall|u: int| 0 <= u < app.unlocked.len() implies (#[trigger] app.unlocked@[u])@
            != id by {
            assert(open[u] == app.unlocked@[u]@);
            assert(open.contains(open[u]));
        }
    }
}

/// The programs that are looked for, the preferred one first, and what stands
/// before the command of a terminal emulator.
pub proof fn law_programs()
    ensures
        openers() == seq!["xdg-open"@, "firefox"@, "google-chrome"@, "chromium-browser"@],
        terminals() == seq!["gnome-terminal"@, "konsole"@, "xfce4-terminal"@, "xterm"@],
        terminal_args() == seq!["--"@, "-e"@, "-x"@, "-e"@],
{
}

/// The texts of a quoted command: each argument between single quotes, in its
/// place; a single quote as the four characters that close the quotation, stand
/// for a quote and open it again.
pub proof fn law_quotation(argv: Seq<Seq<char>>, a: Seq<char>, c: char, b: Seq<char>)
    ensures
        all_quoted(argv).len() == argv.len(),
        forall|i: int| 0 <= i < argv.len() ==> #[trigger] all_quoted(argv)[i] == quoted(argv[i]),
        quoted(Seq::empty()) == seq!['\'', '\''],
        c != '\'' ==> quoted(seq![c]) == seq!['\'', c, '\''],
        c == '\'' ==> quoted(seq![c]) == seq!['\'', '\'', '\\', '\'', '\'', '\''],
        quoted(a + b).drop_last() == quoted(a).drop_last() + quoted(b).drop_last().skip(1),
{
    lemma_quoted_body_joined(a, b);
    assert(quoted(a).drop_last() == seq!['\''] + crate::shell::quoted_body(a));
    assert(quoted(b).drop_last().skip(1) == crate::shell::quoted_body(b));
    assert(quoted(a + b).drop_last() == seq!['\''] + (crate::shell::quoted_body(a)
        + crate::shell::quoted_body(b)));
    assert(seq![c].skip(1) == Seq::<char>::empty());
    let rest = crate::shell::quoted_body(seq![c].skip(1));
    assert(rest == Seq::<char>::empty());
    assert(crate::shell::quoted_body(seq![c]) == crate::shell::quoted_char(c) + rest);
}

proof fn lemma_quoted_body_joined(a: Seq<char>, b: Seq<char>)
    ensures
        crate::shell::quoted_body(a + b) == crate::shell::quoted_body(a)
            + crate::shell::quoted_body(b),
    decreases a.len(),
{
    if a.len() == 0 {
        assert(a + b == b);
        assert(crate::shell::quoted_body(a) == Seq::<char>::empty());
    } else {
        lemma_quoted_body_joined(a.skip(1), b);
        assert((a + b).skip(1) == a.skip(1) + b);
        assert(crate::shell::quoted_body(a + b) == crate::shell::quoted_char(a[0]) + (
        crate::shell::quoted_body(a.skip(1)) + crate::shell::quoted_body(b)));
    }
}

/// A program that was found is named by its directory and its name, with one
/// separator between them; bytes that are no text are replaced.
pub proof fn law_program_path(
    text: Seq<char>,
    names: Seq<Seq<char>>,
    dirs: Seq<Vec<u8>>,
    n: int,
    d: int,
)
    requires
        names_program(text, names, dirs, n, d),
        dirs[d]@.len() > 0,
        dirs[d]@.last() != '/' as u8,
        encode_utf8(names[n]).len() > 0,
        encode_utf8(names[n])[0] != '/' as u8,
    ensures
        ({
            let path = dirs[d]@ + seq!['/' as u8] + encode_utf8(names[n]);
            &&& text == lossy(path)
            &&& valid_utf8(path) ==> text == decode_utf8(path)
        }),
{
    law_paths_are_put_below(dirs[d]@, encode_utf8(names[n]));
}

/// This machine's full name and addresses count where they are known: the name
/// as it is, each word of the other text as an address.
pub proof fn law_known_names(s: String)
    ensures
        listed_text(Some(s)) == seq![s@],
        listed_text(None).len() == 0,
        listed_words(Some(s)) == words(s@),
        listed_words(None).len() == 0,
{
}

/// A value that may be missing shows what it holds, and nothing else shows
/// nothing.
pub proof fn law_what_may_be_missing(s: String, bytes: Vec<u8>, message: String, t: Seq<char>)
    ensures
        opt_view(Some(s)) == Some(s@),
        opt_view(None) is None,
        bytes_view(Some(bytes)) == Some(bytes@),
        bytes_view(None) is None,
        !says(None, Ok(t)) && !says(None, Err(t)),
        says(Some(Ok(message)), Ok(t)) <==> message@ == t,
        says(Some(Err(message)), Err(t)) <==> message@ == t,
        !says(Some(Ok(message)), Err(t)) && !says(Some(Err(message)), Ok(t)),
{
}

/// Rows show what they hold, each in its place.
pub proof fn law_rows_show_what_they_hold(rows: Seq<Row>, i: int)
    requires
        0 <= i < rows.len(),
    ensures
        rows_view(rows).len() == rows.len(),
        match rows[i] {
            Row::Category(s) => rows_view(rows)[i] == RowView::Category(s@),
            Row::Section(s) => rows_view(rows)[i] == RowView::Section(s@),
            Row::App(a) => rows_view(rows)[i] == RowView::App(a as int),
        },
{
}

/// The entries, the categories and the names are those of the configuration.
pub proof fn law_configuration_in_force(app: App, cfg: Config, idx: usize, k: int)
    requires
        app.config == Ok::<Config, String>(cfg),
    ensures
        app.apps() == cfg.apps@,
        app.categories() == cfg.categories@,
        idx < cfg.apps.len() ==> app.name_at(Some(idx)) == Some(cfg.apps@[idx as int].name@),
        idx >= cfg.apps.len() ==> app.name_at(Some(idx)) is None,
        app.name_at(None) is None,
        cfg.category_ids().len() == cfg.categories.len(),
        0 <= k < cfg.categories.len() ==> cfg.category_ids()[k] == cfg.categories@[k].id@,
{
}

/// Of each application the time of its launch is the one that was noted.
pub proof fn law_launch_time_is_noted(app: App, k: int)
    requires
        app.wf(),
        0 <= k < app.last_launch.len(),
    ensures
        app.launch_times().contains_key(app.last_launch@[k].0@),
        app.launch_times()[app.last_launch@[k].0@] == app.last_launch@[k].1,
{
    lemma_history_entry(app.last_launch@, k);
}

/// A launch changes the time of its own application and of no other, and
/// nothing else of the state.
pub proof fn law_launch_notes_its_own_time(
    before: App,
    after: App,
    idx: usize,
    now: u64,
    name: Seq<char>,
)
    requires
        after.noted(before, idx, now),
    ensures
        after == (App { last_launch: after.last_launch, ..before }),
        name == before.apps()[idx as int].name@ ==> after.launch_times().contains_key(name)
            && after.launch_times()[name] == now,
        name != before.apps()[idx as int].name@ ==> after.launch_times().contains_key(name)
            == before.launch_times().contains_key(name) && after.launch_times()[name]
            == before.launch_times()[name],
{
}

/// Where a configuration could not be loaded, nothing is listed, chosen or held
/// back, but for the category, and the launch times stay.
pub proof fn law_failed_reload(before: App, after: App, error: String, present: Seq<bool>)
    requires
        after.reloaded(before, Err(error), present),
    ensures
        after.apps().len() == 0,
        after.available.len() == 0,
        after.config_warnings.len() == 0,
        after.selected is None,
        after.highlighted is None,
        after.held is None,
        after.active_category == before.active_category,
        after.launch_times() == before.launch_times(),
{
}

/// The warnings of a new configuration are those about its own entries.
pub proof fn law_reload_warns(before: App, after: App, cfg: Config, present: Seq<bool>)
    requires
        after.reloaded(before, Ok(cfg), present),
    ensures
        after.config_warnings.deep_view() == config_warnings(cfg),
        after.available@ == availability(cfg.apps@, present),
{
}

/// The places of the configuration and of the script.
pub proof fn law_places()
    ensures
        DEFAULT_CONFIG@
            == "/SNS/VENUS/shared/software/git/rust_unified_launcher/applications.toml"@,
        BROWSER_SCAN_SCRIPT@ == "/SNS/VENUS/shared/software/bin/list_and_fix_running_browser.sh"@,
{
}

} // verus!
