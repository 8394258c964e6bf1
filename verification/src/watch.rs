//! Launched processes and scans for browsers that run elsewhere: what is
//! reported of them.

use vstd::prelude::*;
use vstd::string::*;
use vstd::utf8::{decode_utf8, is_ascii_chars, valid_utf8};
use crate::browser::{
    lock_words, log_mentions_browser_lock, reports_processes, scan_found_processes,
};
use crate::paths::{bytes_view, copy_bytes, lossy, lossy_text};
use crate::state::{
    says, App, BrowserScan, ChildPoll, Failure, PendingLaunch, FAILURE_WINDOW,
};
use crate::text::{ascii_lowered, lowercase, signed_decimal, signed_number_text};

verus! {

/// The process failed soon after it was launched.
pub open spec fn failed_early(p: PendingLaunch, poll: ChildPoll, now: u64) -> bool {
    poll matches ChildPoll::Exited { success, .. } && !success && now - p.started < FAILURE_WINDOW
}

/// The processes that still run, in the order in which they were launched.
pub open spec fn still_running(pending: Seq<PendingLaunch>, polls: Seq<ChildPoll>) -> Seq<
    PendingLaunch,
>
    decreases pending.len(),
{
    if pending.len() == 0 {
        Seq::empty()
    } else {
        let before = still_running(pending.drop_last(), polls);
        if polls[pending.len() - 1] is Running {
            before.push(pending.last())
        } else {
            before
        }
    }
}

/// Process `i` failed early, and no later one did.
pub open spec fn is_last_failure(
    pending: Seq<PendingLaunch>,
    polls: Seq<ChildPoll>,
    now: u64,
    i: int,
) -> bool {
    &&& 0 <= i < pending.len()
    &&& failed_early(pending[i], polls[i], now)
    &&& forall|j: int|
        i < j < pending.len() ==> !failed_early(#[trigger] pending[j], polls[j], now)
}

/// How a process ended.
pub open spec fn exit_text(poll: ChildPoll) -> Seq<char> {
    match poll {
        ChildPoll::Exited { code: Some(c), .. } => signed_decimal(c as int),
        _ => "killed by signal"@,
    }
}

/// The failure of the process `p`.
pub open spec fn describes(f: Failure, p: PendingLaunch, poll: ChildPoll) -> bool {
    &&& f.name@ == p.name@
    &&& f.code@ == exit_text(poll)
    &&& bytes_view(f.log) == bytes_view(p.log)
    &&& f.browserish == p.browserish
}

/// What is reported of a failure.
pub open spec fn failure_text(f: Failure) -> Seq<char> {
    let exited = f.name@ + " exited (code "@ + f.code@ + ")"@;
    match f.log {
        Some(log) => exited + " \u{2014} see "@ + lossy(log@),
        None => exited,
    }
}

/// What is added where a scan for running browsers begins.
pub open spec fn scanning_text() -> Seq<char> {
    " \u{2014} scanning the analysis machines for an already-running browser\u{2026}"@
}

/// The failure may come from a browser that runs elsewhere.
pub open spec fn suspects_browser(f: Failure, log_text: Option<String>) -> bool {
    f.browserish || (log_text matches Some(t) && lock_words(lowercase(t@)))
}

/// A scan is under way.
pub open spec fn scanning(scan: Option<BrowserScan>) -> bool {
    scan matches Some(s) && s.output is None
}

fn exit_code(poll: ChildPoll) -> (r: String)
    ensures
        r@ == exit_text(poll),
{
    match poll {
        ChildPoll::Exited { code: Some(c), .. } => signed_number_text(c),
        _ => "killed by signal".to_owned(),
    }
}

impl App {
    /// Drops the processes that no longer run, and tells of the last one that
    /// failed soon after it was launched. `polls` says of each watched process
    /// what became of it.
    pub fn poll_pending(&mut self, now: u64, polls: &Vec<ChildPoll>) -> (r: Option<Failure>)
        requires
            polls.len() == old(self).pending.len(),
        ensures
            *final(self) == (App { pending: final(self).pending, ..*old(self) }),
            final(self).pending@ == still_running(old(self).pending@, polls@),
            r is None <==> forall|i: int|
                0 <= i < old(self).pending.len() ==> !failed_early(
                    #[trigger] old(self).pending@[i],
                    polls@[i],
                    now,
                ),
            r matches Some(f) ==> exists|i: int| #[trigger]
                is_last_failure(old(self).pending@, polls@, now, i) && describes(
                    f,
                    old(self).pending@[i],
                    polls@[i],
                ),
    {
        let ghost start = self.pending@;
        let mut failure: Option<Failure> = None;
        let mut k: usize = 0;
        let mut at: usize = 0;
        let n: usize = self.pending.len();
        assert(start.skip(0) == start);
        assert(still_running(start.take(0), polls@) + start.skip(0) == start);
        while k < n
            invariant
                k <= n == polls.len() == start.len(),
                start == old(self).pending@,
                *self == (App { pending: self.pending, ..*old(self) }),
                at == still_running(start.take(k as int), polls@).len(),
                at <= k,
                self.pending@ == still_running(start.take(k as int), polls@) + start.skip(k as int),
                failure is None <==> forall|i: int|
                    0 <= i < k ==> !failed_early(#[trigger] start[i], polls@[i], now),
                failure matches Some(f) ==> exists|i: int| #[trigger]
                    is_last_failure(start.take(k as int), polls@, now, i) && describes(
                        f,
                        start[i],
                        polls@[i],
                    ),
            decreases n - k,
        {
            let ghost seen = start.take(k as int);
            let ghost more = start.take(k + 1);
            let ghost was = failure;
            proof {
                assert(more.drop_last() == seen);
                assert(more.last() == start[k as int]);
                assert(self.pending@[at as int] == start[k as int]);
            }
            let keep = match polls[k] {
                ChildPoll::Running => true,
                ChildPoll::Exited { success, .. } => {
                    let p = &self.pending[at];
                    let early = now < p.started || now - p.started < FAILURE_WINDOW;
                    if !success && early {
                        failure = Some(
                            Failure {
                                name: p.name.clone(),
                                code: exit_code(polls[k]),
                                log: copy_bytes(&p.log),
                                browserish: p.browserish,
                            },
                        );
                        assert(failed_early(start[k as int], polls@[k as int], now));
                        assert(is_last_failure(more, polls@, now, k as int));
                        assert(describes(failure->Some_0, start[k as int], polls@[k as int]));
                    }
                    false
                },
                ChildPoll::Lost => false,
            };
            proof {
                if !failed_early(start[k as int], polls@[k as int], now) {
                    assert(failure == was);
                    if was is Some {
                        let i = choose|i: int| #[trigger]
                            is_last_failure(seen, polls@, now, i) && describes(
                                was->Some_0,
                                start[i],
                                polls@[i],
                            );
                        assert(is_last_failure(more, polls@, now, i)) by {
                            assert(more[i] == seen[i]);
                            assert forall|j: int| i < j < more.len() implies !failed_early(
                                #[trigger] more[j],
                                polls@[j],
                                now,
                            ) by {
                                if j < k {
                                    assert(seen[j] == more[j]);
                                }
                            }
                        }
                    }
                }
            }
            if keep {
                assert(still_running(more, polls@) + start.skip(k + 1) == still_running(
                    seen,
                    polls@,
                ) + start.skip(k as int));
                at += 1;
            } else {
                let _ = self.pending.remove(at);
                assert(self.pending@ == still_running(more, polls@) + start.skip(k + 1));
            }
            k += 1;
        }
        assert(start.take(k as int) == start);
        assert(start.skip(k as int) == Seq::<PendingLaunch>::empty());
        failure
    }

    /// Starts a scan, unless one is under way or the script is missing. Returns
    /// whether it was started.
    pub fn start_browser_scan(&mut self, app_name: &str, script_present: bool) -> (r: bool)
        ensures
            r == (!scanning(old(self).browser_scan) && script_present),
            !r ==> *final(self) == *old(self),
            r ==> *final(self) == (App { browser_scan: final(self).browser_scan, ..*old(self) })
                && (final(self).browser_scan matches Some(s) && s.app_name@ == app_name@ && !s.fix
                && s.output is None && !s.show_window),
    {
        self.start_script(app_name, false, script_present)
    }

    /// Starts the script that kills the user's browsers everywhere, unless a
    /// run of the script is under way or it is missing. Returns whether it was
    /// started.
    pub fn start_browser_fix(&mut self, app_name: &str, script_present: bool) -> (r: bool)
        ensures
            r == (!scanning(old(self).browser_scan) && script_present),
            !r ==> *final(self) == *old(self),
            r ==> *final(self) == (App { browser_scan: final(self).browser_scan, ..*old(self) })
                && (final(self).browser_scan matches Some(s) && s.app_name@ == app_name@ && s.fix
                && s.output is None && !s.show_window),
    {
        self.start_script(app_name, true, script_present)
    }

    fn start_script(&mut self, app_name: &str, fix: bool, script_present: bool) -> (r: bool)
        ensures
            r == (!scanning(old(self).browser_scan) && script_present),
            !r ==> *final(self) == *old(self),
            r ==> *final(self) == (App { browser_scan: final(self).browser_scan, ..*old(self) })
                && (final(self).browser_scan matches Some(s) && s.app_name@ == app_name@ && s.fix
                == fix && s.output is None && !s.show_window),
    {
        let busy = match &self.browser_scan {
            Some(s) => s.output.is_none(),
            None => false,
        };
        if busy || !script_present {
            return false;
        }
        self.browser_scan = Some(
            BrowserScan { app_name: app_name.to_owned(), fix, output: None, show_window: false },
        );
        true
    }

    /// Reports a failure, and starts a scan where it may come from a browser
    /// that runs elsewhere. `log_text` is the launch log where it could be
    /// read. Returns whether a scan was started.
    pub fn report_failure(
        &mut self,
        f: &Failure,
        log_text: &Option<String>,
        script_present: bool,
    ) -> (r: bool)
        ensures
            r == (suspects_browser(*f, *log_text) && !scanning(old(self).browser_scan)
                && script_present),
            *final(self) == (App {
                status: final(self).status,
                browser_scan: final(self).browser_scan,
                ..*old(self)
            }),
            !r ==> final(self).browser_scan == old(self).browser_scan && says(
                final(self).status,
                Err(failure_text(*f)),
            ),
            r ==> (final(self).browser_scan matches Some(s) && s.app_name@ == f.name@ && !s.fix
                && s.output is None && !s.show_window) && says(
                final(self).status,
                Err(failure_text(*f) + scanning_text()),
            ),
            log_text matches Some(t) ==> is_ascii_chars(t@) ==> suspects_browser(*f, *log_text) == (
            f.browserish || lock_words(ascii_lowered(t@))),
            f.log matches Some(log) ==> valid_utf8(log@) ==> lossy(log@) == decode_utf8(log@),
    {
        let mut msg = f.name.clone();
        msg.append(" exited (code ");
        msg.append(f.code.as_str());
        msg.append(")");
        if let Some(log) = &f.log {
            msg.append(" \u{2014} see ");
            msg.append(lossy_text(log).as_str());
        }
        assert(msg@ == failure_text(*f));
        let locked = log_mentions_browser_lock(log_text);
        let suspect = f.browserish || locked;
        let started = suspect && self.start_browser_scan(f.name.as_str(), script_present);
        if started {
            msg.append(
                " \u{2014} scanning the analysis machines for an already-running browser\u{2026}",
            );
        }
        self.status = Some(Err(msg));
        started
    }

    /// What is reported when the script has finished.
    pub open spec fn scan_verdict(scan: BrowserScan, report: Seq<char>) -> Result<
        Seq<char>,
        Seq<char>,
    > {
        if scan.fix {
            Ok("Browser fix finished"@)
        } else if reports_processes(report) {
            Err(scan.app_name@ + ": your browser is already running on another machine"@)
        } else {
            Ok("No already-running Firefox/Chrome/Jupyter found on the analysis machines"@)
        }
    }

    /// Takes the report of a run of the script, once it has come. The report
    /// of a fix is shown, that of a scan where it found something.
    pub fn poll_browser_scan(&mut self, received: Option<String>)
        ensures
            !scanning(old(self).browser_scan) || received is None ==> *final(self) == *old(self),
            *final(self) == (App {
                status: final(self).status,
                browser_scan: final(self).browser_scan,
                ..*old(self)
            }),
            scanning(old(self).browser_scan) && received is Some ==> {
                let scan = old(self).browser_scan->Some_0;
                let report = received->Some_0;
                &&& says(final(self).status, App::scan_verdict(scan, report@))
                &&& final(self).browser_scan == Some(
                    (BrowserScan {
                        output: Some(report),
                        show_window: scan.show_window || scan.fix || reports_processes(report@),
                        ..scan
                    }),
                )
            },
    {
        let report = match received {
            Some(report) => report,
            None => {
                return;
            },
        };
        match self.browser_scan.take() {
            None => {},
            Some(scan) => {
                if scan.output.is_some() {
                    self.browser_scan = Some(scan);
                    return;
                }
                let found = scan_found_processes(report.as_str());
                if scan.fix {
                    self.status = Some(Ok("Browser fix finished".to_owned()));
                } else if found {
                    let mut msg = scan.app_name.clone();
                    msg.append(": your browser is already running on another machine");
                    self.status = Some(Err(msg));
                } else {
                    self.status = Some(
                        Ok(
                            "No already-running Firefox/Chrome/Jupyter found on the analysis machines".to_owned(),
                        ),
                    );
                }
                let show_window = scan.show_window || scan.fix || found;
                self.browser_scan = Some(
                    BrowserScan {
                        app_name: scan.app_name,
                        fix: scan.fix,
                        output: Some(report),
                        show_window,
                    },
                );
            },
        }
    }

    /// Takes the report off the screen.
    pub fn close_report(&mut self)
        ensures
            *final(self) == (App { browser_scan: final(self).browser_scan, ..*old(self) }),
            final(self).browser_scan == (match old(self).browser_scan {
                Some(s) => Some((BrowserScan { show_window: false, ..s })),
                None => None,
            }),
    {
        if let Some(s) = self.browser_scan.take() {
            self.browser_scan = Some(
                BrowserScan {
                    app_name: s.app_name,
                    fix: s.fix,
                    output: s.output,
                    show_window: false,
                },
            );
        }
    }
}

} // verus!
