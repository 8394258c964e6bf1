//! The state of the launcher and every decision that changes it.
//!
//! Times are nanoseconds of one clock that never goes back.

use vstd::prelude::*;
use vstd::string::*;
use crate::config::{config_warnings, validate_config, AppEntry, Category, Config};
use crate::launch::opt_view;
use crate::listing::{is_locked, locked_categories};
use crate::recent::{distinct_names, history, RecentFile};
use crate::text::is_among;

verus! {

/// How long an application cannot be launched again.
pub const LAUNCH_COOLDOWN: u64 = 5_000_000_000;

/// How long after a launch a failed exit is reported.
pub const FAILURE_WINDOW: u64 = 15_000_000_000;

/// How often the configuration file is looked at.
pub const CONFIG_CHECK_PERIOD: u64 = 1_000_000_000;

/// How often it is checked which applications are available.
pub const AVAILABILITY_PERIOD: u64 = 5_000_000_000;

/// A launched process, watched for a while so that an immediate failure is
/// reported, and kept afterwards only until it exits.
#[derive(Debug)]
pub struct PendingLaunch {
    pub name: String,
    pub started: u64,
    /// The file that captures its output.
    pub log: Option<Vec<u8>>,
    /// It opens a browser, so a failure may come from a browser elsewhere.
    pub browserish: bool,
}

/// What became of a watched process.
#[derive(Clone, Copy, Debug, PartialEq, Eq)]
pub enum ChildPoll {
    Running,
    /// It exited; there is no code where a signal ended it.
    Exited { success: bool, code: Option<i32> },
    /// It can no longer be asked.
    Lost,
}

/// A process that failed soon after it was launched.
#[derive(Debug)]
pub struct Failure {
    pub name: String,
    /// Its exit code, or how it ended otherwise.
    pub code: String,
    pub log: Option<Vec<u8>>,
    pub browserish: bool,
}

/// A run of the browser script on the analysis machines.
#[derive(Debug)]
pub struct BrowserScan {
    /// The application whose failed launch led to the scan.
    pub app_name: String,
    /// The script kills what it finds, rather than listing it.
    pub fix: bool,
    /// The report; none while the script runs.
    pub output: Option<String>,
    /// The report is on the screen.
    pub show_window: bool,
}

/// A launch that waits because a browser on another machine holds the profile.
#[derive(Debug)]
pub struct HeldLaunch {
    /// Position of the entry.
    pub app: usize,
    pub machine: String,
}

/// What is to be done about a requested launch.
#[derive(Clone, Copy, Debug, PartialEq, Eq)]
pub enum LaunchStep {
    /// Nothing: the entry is not available, or was launched just now.
    Refuse,
    /// The browser's profile lock is to be read first.
    CheckBrowser,
    /// The entry is to be launched.
    Start,
}

/// What is to be done after a look at the configuration file.
#[derive(Clone, Copy, Debug, PartialEq, Eq)]
pub enum Housekeeping {
    Nothing,
    Reload,
    RefreshAvailability,
}

/// Everything that the launcher remembers.
#[derive(Debug)]
pub struct App {
    /// The configuration, or why there is none.
    pub config: Result<Config, String>,
    pub config_warnings: Vec<String>,
    /// Of each entry, whether it can be launched.
    pub available: Vec<bool>,
    /// The entry in the preview panel.
    pub selected: Option<usize>,
    /// The entry chosen with the keyboard.
    pub highlighted: Option<usize>,
    /// The chosen entry is to be scrolled into view.
    pub scroll_to_highlight: bool,
    /// The chosen category; none shows every category.
    pub active_category: Option<String>,
    pub search: String,
    /// The search bar is to get the keyboard.
    pub focus_search: bool,
    /// The last message, and whether it is good news.
    pub status: Option<Result<String, String>>,
    /// When each application was last launched, by its name: an application
    /// may stand in several categories.
    pub last_launch: Vec<(String, u64)>,
    pub recent: RecentFile,
    /// The ids of the protected categories that were unlocked in this session.
    pub unlocked: Vec<String>,
    /// What has been typed at the password prompt.
    pub password_input: String,
    /// The last password was wrong.
    pub password_wrong: bool,
    /// The password field is to get the keyboard.
    pub focus_password: bool,
    pub pending: Vec<PendingLaunch>,
    pub browser_scan: Option<BrowserScan>,
    /// The launch that was held back.
    pub held: Option<HeldLaunch>,
    pub last_config_check: u64,
    pub last_availability_check: u64,
}

/// A position that exists, or none.
pub open spec fn valid_index(i: Option<usize>, n: nat) -> bool {
    i matches Some(k) ==> k < n
}

/// The message is `text`, good news or bad.
pub open spec fn says(
    status: Option<Result<String, String>>,
    text: Result<Seq<char>, Seq<char>>,
) -> bool {
    match text {
        Ok(t) => status matches Some(Ok(m)) && m@ == t,
        Err(t) => status matches Some(Err(m)) && m@ == t,
    }
}

/// The first of `apps` with the given name, if any.
pub open spec fn is_position(
    apps: Seq<AppEntry>,
    name: Option<Seq<char>>,
    r: Option<usize>,
) -> bool {
    match r {
        Some(i) => i < apps.len() && name == Some(apps[i as int].name@) && forall|j: int|
            0 <= j < i ==> name != Some((#[trigger] apps[j]).name@),
        None => forall|j: int| 0 <= j < apps.len() ==> name != Some((#[trigger] apps[j]).name@),
    }
}

fn position_of(apps: &Vec<AppEntry>, name: &Option<String>) -> (r: Option<usize>)
    ensures
        is_position(apps@, opt_view(*name), r),
{
    match name {
        Some(n) => {
            let mut i: usize = 0;
            while i < apps.len()
                invariant
                    i <= apps.len(),
                    *name == Some(*n),
                    forall|j: int|
                        0 <= j < i ==> opt_view(*name) != Some((#[trigger] apps@[j]).name@),
                decreases apps.len() - i,
            {
                if apps[i].name == *n {
                    return Some(i);
                }
                i += 1;
            }
            None
        },
        None => None,
    }
}

/// Of each entry, whether it can be launched, given whether its checked path
/// exists.
pub open spec fn availability(apps: Seq<AppEntry>, present: Seq<bool>) -> Seq<bool> {
    Seq::new(apps.len(), |i: int| apps[i].is_available(present[i]))
}

/// Of each entry, whether it can be launched.
pub fn check_available(apps: &Vec<AppEntry>, present: &Vec<bool>) -> (r: Vec<bool>)
    requires
        present.len() == apps.len(),
    ensures
        r@ == availability(apps@, present@),
{
    let mut r: Vec<bool> = Vec::new();
    let mut i: usize = 0;
    while i < apps.len()
        invariant
            i <= apps.len() == present.len(),
            r@ == availability(apps@, present@).take(i as int),
        decreases apps.len() - i,
    {
        r.push(apps[i].available(present[i]));
        assert(availability(apps@, present@).take(i + 1) == availability(apps@, present@).take(
            i as int,
        ).push(availability(apps@, present@)[i as int]));
        i += 1;
    }
    assert(availability(apps@, present@).take(i as int) == availability(apps@, present@));
    r
}

impl App {
    /// The entries of the configuration; none where there is no configuration.
    pub open spec fn apps(&self) -> Seq<AppEntry> {
        match self.config {
            Ok(c) => c.apps@,
            Err(_) => Seq::empty(),
        }
    }

    /// The categories of the configuration.
    pub open spec fn categories(&self) -> Seq<Category> {
        match self.config {
            Ok(c) => c.categories@,
            Err(_) => Seq::empty(),
        }
    }

    /// What holds at all times: the availability of each entry is known, every
    /// remembered position exists, and nothing is remembered twice.
    pub open spec fn wf(&self) -> bool {
        &&& self.available.len() == self.apps().len()
        &&& valid_index(self.selected, self.apps().len())
        &&& valid_index(self.highlighted, self.apps().len())
        &&& self.held matches Some(h) ==> h.app < self.apps().len()
        &&& self.recent.wf()
        &&& self.unlocked.deep_view().no_duplicates()
        &&& distinct_names(self.last_launch@)
    }

    /// When each application was last launched.
    pub open spec fn launch_times(&self) -> Map<Seq<char>, u64> {
        history(self.last_launch@)
    }

    /// The entry is hidden: its category is locked.
    pub open spec fn is_hidden(&self, idx: usize) -> bool {
        is_locked(
            self.categories(),
            self.unlocked.deep_view(),
            self.apps()[idx as int].category@,
        )
    }

    /// The name of the entry at `idx`.
    pub open spec fn name_at(&self, idx: Option<usize>) -> Option<Seq<char>> {
        match idx {
            Some(i) if i < self.apps().len() => Some(self.apps()[i as int].name@),
            _ => None,
        }
    }

    /// The name of the entry at `idx`, where there is one.
    pub fn app_name(&self, idx: Option<usize>) -> (r: Option<String>)
        ensures
            opt_view(r) == self.name_at(idx),
    {
        match (&self.config, idx) {
            (Ok(cfg), Some(i)) => if i < cfg.apps.len() {
                Some(cfg.apps[i].name.clone())
            } else {
                None
            },
            _ => None,
        }
    }

    /// The position of the entry whose launch was held back.
    pub open spec fn held_app(&self) -> Option<usize> {
        match self.held {
            Some(h) => Some(h.app),
            None => None,
        }
    }

    /// What loading a configuration leaves of the state before it: `config` is
    /// in force, the preview, the keyboard choice and the held launch follow
    /// their entries by name, and a chosen category that is gone is no longer
    /// chosen. A held launch whose entry is hidden is dropped. Without a
    /// configuration nothing is chosen but the category. When each application
    /// was last launched stays, whatever was loaded.
    pub open spec fn reloaded(
        &self,
        before: App,
        loaded: Result<Config, String>,
        present: Seq<bool>,
    ) -> bool {
        &&& self.config == loaded
        &&& self.launch_times() == before.launch_times()
        &&& match loaded {
            Ok(cfg) => {
                &&& self.available@ == availability(cfg.apps@, present)
                &&& self.config_warnings.deep_view() == config_warnings(cfg)
                &&& is_position(cfg.apps@, before.name_at(before.selected), self.selected)
                &&& is_position(cfg.apps@, before.name_at(before.highlighted), self.highlighted)
                &&& match self.held_app() {
                    Some(i) => is_position(
                        cfg.apps@,
                        before.name_at(before.held_app()),
                        Some(i),
                    ) && !self.is_hidden(i),
                    None => is_position(cfg.apps@, before.name_at(before.held_app()), None)
                        || exists|i: usize| #[trigger]
                        is_position(cfg.apps@, before.name_at(before.held_app()), Some(i))
                            && self.is_hidden(i),
                }
                &&& self.held matches Some(h) ==> h.machine == before.held->Some_0.machine
                &&& self.active_category == match before.active_category {
                    Some(c) if cfg.category_ids().contains(c@) => Some(c),
                    _ => None,
                }
            },
            Err(_) => {
                &&& self.available.len() == 0
                &&& self.config_warnings.len() == 0
                &&& self.selected is None
                &&& self.highlighted is None
                &&& self.held is None
                &&& self.active_category == before.active_category
            },
        }
    }

    /// Puts a configuration in force that was just loaded. `present` tells of
    /// each of its entries whether the checked path exists. The search, the
    /// category, the unlocked categories and the history stay, and so do the
    /// preview, the keyboard choice and the cooldown where their entries still
    /// exist.
    pub fn reload(&mut self, loaded: Result<Config, String>, present: &Vec<bool>, announce: bool)
        requires
            old(self).wf(),
            loaded matches Ok(cfg) ==> present.len() == cfg.apps.len(),
        ensures
            final(self).wf(),
            final(self).reloaded(*old(self), loaded, present@),
            announce ==> says(final(self).status, Ok("Configuration reloaded"@)),
            !announce ==> final(self).status == old(self).status,
            *final(self) == (App {
                config: final(self).config,
                config_warnings: final(self).config_warnings,
                available: final(self).available,
                selected: final(self).selected,
                highlighted: final(self).highlighted,
                held: final(self).held,
                active_category: final(self).active_category,
                status: final(self).status,
                ..*old(self)
            }),
    {
        let selected_name = self.app_name(self.selected);
        let highlighted_name = self.app_name(self.highlighted);
        let held = self.held.take();
        let held_index: Option<usize> = match &held {
            Some(h) => Some(h.app),
            None => None,
        };
        let held_name = self.app_name(held_index);
        match &loaded {
            Ok(cfg) => {
                self.available = check_available(&cfg.apps, present);
                self.config_warnings = validate_config(cfg);
                self.selected = position_of(&cfg.apps, &selected_name);
                self.highlighted = position_of(&cfg.apps, &highlighted_name);
                let locked = locked_categories(&cfg.categories, &self.unlocked);
                self.held = match (position_of(&cfg.apps, &held_name), held) {
                    (Some(app), Some(h)) => if is_among(&locked, &cfg.apps[app].category) {
                        None
                    } else {
                        Some(HeldLaunch { app, machine: h.machine })
                    },
                    _ => None,
                };
                let gone = match &self.active_category {
                    Some(c) => !cfg.has_category(c),
                    None => false,
                };
                if gone {
                    self.active_category = None;
                }
            },
            Err(_) => {
                self.available = Vec::new();
                self.config_warnings = Vec::new();
                self.selected = None;
                self.highlighted = None;
                self.held = None;
            },
        }
        self.config = loaded;
        if announce {
            self.status = Some(Ok("Configuration reloaded".to_owned()));
        }
    }

    /// The launcher at its start, with the configuration and the history that
    /// were loaded.
    pub fn new(recent: RecentFile, loaded: Result<Config, String>, present: &Vec<bool>) -> (r: App)
        requires
            recent.wf(),
            loaded matches Ok(cfg) ==> present.len() == cfg.apps.len(),
        ensures
            r.wf(),
            r.config == loaded,
            loaded matches Ok(cfg) ==> r.available@ == availability(cfg.apps@, present@)
                && r.config_warnings.deep_view() == config_warnings(cfg),
            loaded is Err ==> r.config_warnings.len() == 0,
            r.selected is None,
            r.highlighted is None,
            !r.scroll_to_highlight,
            r.active_category is None,
            r.search@.len() == 0,
            r.focus_search,
            r.status is None,
            r.last_launch.len() == 0,
            r.launch_times() == Map::<Seq<char>, u64>::empty(),
            r.recent == recent,
            r.unlocked.len() == 0,
            r.password_input@.len() == 0,
            !r.password_wrong,
            !r.focus_password,
            r.pending.len() == 0,
            r.browser_scan is None,
            r.held is None,
            r.last_config_check == 0,
            r.last_availability_check == 0,
    {
        let mut app = App {
            config: Err(String::new()),
            config_warnings: Vec::new(),
            available: Vec::new(),
            selected: None,
            highlighted: None,
            scroll_to_highlight: false,
            active_category: None,
            search: String::new(),
            focus_search: true,
            status: None,
            last_launch: Vec::new(),
            recent,
            unlocked: Vec::new(),
            password_input: String::new(),
            password_wrong: false,
            focus_password: false,
            pending: Vec::new(),
            browser_scan: None,
            held: None,
            last_config_check: 0,
            last_availability_check: 0,
        };
        app.reload(loaded, present, false);
        app
    }
}

} // verus!
