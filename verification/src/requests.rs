//! Requested launches: which are refused, which are held back, and what is
//! remembered of those that are made.

use vstd::prelude::*;
use vstd::string::*;
use crate::listing::locked_categories;
use crate::paths::bytes_view;
use crate::recent::{get_noted, lemma_history_entry, lemma_history_names, put_noted};
use crate::state::{says, App, HeldLaunch, LaunchStep, PendingLaunch, LAUNCH_COOLDOWN};
use crate::text::is_among;

verus! {

/// What is said of an entry that was launched.
pub open spec fn launched_text(is_page: bool, name: Seq<char>) -> Seq<char> {
    if is_page {
        "Opened: "@ + name
    } else {
        "Launched: "@ + name
    }
}

impl App {
    /// The application was launched just now.
    pub open spec fn name_cools(&self, name: Seq<char>, now: u64) -> bool {
        self.launch_times().contains_key(name) && now - self.launch_times()[name] < LAUNCH_COOLDOWN
    }

    /// The entry's application was launched just now, from this entry or from
    /// another that has its name.
    pub open spec fn cools(&self, idx: usize, now: u64) -> bool {
        self.name_at(Some(idx)) matches Some(name) && self.name_cools(name, now)
    }

    /// Whether the entry's application was launched just now, so that it cannot
    /// be launched again yet.
    pub fn cooling(&self, idx: usize, now: u64) -> (r: bool)
        requires
            self.wf(),
        ensures
            r == self.cools(idx, now),
    {
        match self.app_name(Some(idx)) {
            Some(name) => match get_noted(&self.last_launch, &name) {
                Some(t) => now < t || now - t < LAUNCH_COOLDOWN,
                None => false,
            },
            None => false,
        }
    }

    /// The entry can be launched now.
    pub open spec fn launchable(&self, idx: usize, now: u64) -> bool {
        self.available@[idx as int] && !self.cools(idx, now)
    }

    /// The state with the time of a launch noted.
    pub open spec fn noted(&self, before: App, idx: usize, now: u64) -> bool {
        &&& *self == (App { last_launch: self.last_launch, ..before })
        &&& self.launch_times() == before.launch_times().insert(
            before.apps()[idx as int].name@,
            now,
        )
    }

    fn note_launch(&mut self, idx: usize, now: u64)
        requires
            old(self).wf(),
            idx < old(self).apps().len(),
        ensures
            final(self).wf(),
            final(self).noted(*old(self), idx, now),
    {
        if let Some(name) = self.app_name(Some(idx)) {
            put_noted(&mut self.last_launch, name, now);
        }
    }

    /// A request to launch an entry. It is refused where the entry is not
    /// available or was launched just now. Where it needs a browser, the
    /// browser's profile lock is to be read first; else it is to be launched,
    /// and cannot be launched again for a while.
    pub fn begin_launch(&mut self, idx: usize, now: u64) -> (r: LaunchStep)
        requires
            old(self).wf(),
            idx < old(self).apps().len(),
        ensures
            final(self).wf(),
            !old(self).launchable(idx, now) ==> r is Refuse,
            old(self).launchable(idx, now) && old(self).apps()[idx as int].needs_browser() ==> r
                is CheckBrowser,
            old(self).launchable(idx, now) && !old(self).apps()[idx as int].needs_browser() ==> r
                is Start,
            r is Start ==> final(self).noted(*old(self), idx, now),
            !(r is Start) ==> *final(self) == *old(self),
    {
        if !self.available[idx] || self.cooling(idx, now) {
            return LaunchStep::Refuse;
        }
        let browser = match &self.config {
            Ok(cfg) => cfg.apps[idx].involves_browser(),
            Err(_) => false,
        };
        if browser {
            return LaunchStep::CheckBrowser;
        }
        self.note_launch(idx, now);
        LaunchStep::Start
    }

    /// The profile lock was read: `machine` is another machine that holds it,
    /// if one does. Such a launch is held back; else the entry is to be
    /// launched, and cannot be launched again for a while. Returns whether to
    /// launch.
    pub fn browser_checked(&mut self, idx: usize, now: u64, machine: Option<String>) -> (r: bool)
        requires
            old(self).wf(),
            idx < old(self).apps().len(),
        ensures
            final(self).wf(),
            r == (old(self).launchable(idx, now) && machine is None),
            r ==> final(self).noted(*old(self), idx, now),
            !old(self).launchable(idx, now) ==> *final(self) == *old(self),
            old(self).launchable(idx, now) && machine is Some ==> *final(self) == (App {
                held: Some((HeldLaunch { app: idx, machine: machine->Some_0 })),
                ..*old(self)
            }),
    {
        if !self.available[idx] || self.cooling(idx, now) {
            return false;
        }
        match machine {
            Some(machine) => {
                self.held = Some(HeldLaunch { app: idx, machine });
                false
            },
            None => {
                self.note_launch(idx, now);
                true
            },
        }
    }

    /// The held launch is wanted all the same. Returns the entry to launch,
    /// unless it can no longer be launched or is hidden. Nothing is held back
    /// afterwards.
    pub fn launch_anyway(&mut self, now: u64) -> (r: Option<usize>)
        requires
            old(self).wf(),
        ensures
            final(self).wf(),
            r == (match old(self).held {
                Some(h) if old(self).launchable(h.app, now) && !old(self).is_hidden(h.app) => Some(
                    h.app,
                ),
                _ => None,
            }),
            r matches Some(i) ==> final(self).noted((App { held: None, ..*old(self) }), i, now),
            r is None ==> *final(self) == (App { held: None, ..*old(self) }),
    {
        match self.held.take() {
            Some(h) => {
                let hidden = match &self.config {
                    Ok(cfg) => is_among(
                        &locked_categories(&cfg.categories, &self.unlocked),
                        &cfg.apps[h.app].category,
                    ),
                    Err(_) => false,
                };
                if hidden || !self.available[h.app] || self.cooling(h.app, now) {
                    return None;
                }
                self.note_launch(h.app, now);
                Some(h.app)
            },
            None => None,
        }
    }

    /// The held launch is not wanted any more.
    pub fn cancel_held(&mut self)
        ensures
            *final(self) == (App { held: None, ..*old(self) }),
    {
        self.held = None;
    }

    /// The entry was launched: it is reported, its process is watched, and the
    /// launch is noted in the history.
    pub fn launched(&mut self, idx: usize, now: u64, log: Option<Vec<u8>>, epoch: u64)
        requires
            old(self).wf(),
            idx < old(self).apps().len(),
            old(self).recent.can_count(old(self).apps()[idx as int].name@),
        ensures
            final(self).wf(),
            *final(self) == (App {
                status: final(self).status,
                pending: final(self).pending,
                recent: final(self).recent,
                ..*old(self)
            }),
            ({
                let a = old(self).apps()[idx as int];
                let started = final(self).pending@.last();
                &&& says(final(self).status, Ok(launched_text(a.url is Some, a.name@)))
                &&& final(self).pending@ == old(self).pending@.push(started)
                &&& started.name@ == a.name@
                &&& started.started == now
                &&& bytes_view(started.log) == bytes_view(log)
                &&& started.browserish == a.needs_browser()
                &&& final(self).recent@ == old(self).recent@.insert(
                    a.name@,
                    old(self).recent.after_launch(a.name@, epoch),
                )
            }),
    {
        if let Ok(cfg) = &self.config {
            let a = &cfg.apps[idx];
            let mut msg = if a.url.is_some() {
                "Opened: ".to_owned()
            } else {
                "Launched: ".to_owned()
            };
            msg.append(a.name.as_str());
            let browserish = a.involves_browser();
            let name = a.name.clone();
            self.recent.record(&name, epoch);
            self.status = Some(Ok(msg));
            self.pending.push(PendingLaunch { name, started: now, log, browserish });
        }
    }

    /// The entry could not be launched.
    pub fn launch_failed(&mut self, error: String)
        ensures
            *final(self) == (App { status: Some(Err(error)), ..*old(self) }),
    {
        self.status = Some(Err(error));
    }

    /// The screen changes by itself soon: a process is watched, or an
    /// application was launched just now.
    pub open spec fn stirs(&self, now: u64) -> bool {
        self.pending.len() > 0 || exists|name: Seq<char>| #[trigger] self.name_cools(name, now)
    }

    /// Whether the screen is to be drawn again soon.
    pub fn fast_repaint(&self, now: u64) -> (r: bool)
        requires
            self.wf(),
        ensures
            r == self.stirs(now),
    {
        if self.pending.len() > 0 {
            return true;
        }
        let mut k: usize = 0;
        while k < self.last_launch.len()
            invariant
                k <= self.last_launch.len(),
                self.wf(),
                forall|j: int|
                    0 <= j < k ==> now - (#[trigger] self.last_launch@[j]).1 >= LAUNCH_COOLDOWN,
            decreases self.last_launch.len() - k,
        {
            let t: u64 = self.last_launch[k].1;
            if now < t || now - t < LAUNCH_COOLDOWN {
                proof {
                    lemma_history_entry(self.last_launch@, k as int);
                    assert(self.name_cools(self.last_launch@[k as int].0@, now));
                }
                return true;
            }
            k += 1;
        }
        proof {
            assert forall|name: Seq<char>| !#[trigger] self.name_cools(name, now) by {
                lemma_history_names(self.last_launch@, name);
                if self.launch_times().contains_key(name) {
                    let j = choose|j: int|
                        0 <= j < self.last_launch@.len() && (#[trigger] self.last_launch@[j]).0@
                            == name;
                    lemma_history_entry(self.last_launch@, j);
                }
            }
        }
        false
    }
}

} // verus!
