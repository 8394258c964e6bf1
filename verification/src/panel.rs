//! The texts on the screen.

use vstd::prelude::*;
use vstd::string::*;
use crate::config::{default_subtitle, default_title, AppEntry};
use crate::launch::opt_view;
use crate::state::App;
use crate::text::{join, joined};

verus! {

/// The button of an entry.
#[derive(Debug)]
pub struct LaunchButton {
    pub label: String,
    pub enabled: bool,
    /// What the pointer shows over the button.
    pub hover: String,
    /// What it shows while the button cannot be pressed.
    pub disabled_hover: String,
}

/// How a message is meant.
#[derive(Clone, Copy, Debug, PartialEq, Eq, Structural)]
pub enum Tone {
    Good,
    Bad,
    Idle,
}

/// A message on the screen.
#[derive(Debug)]
pub struct Message {
    pub text: String,
    pub tone: Tone,
}

/// The label of the button.
pub open spec fn button_label(is_page: bool, cooling: bool) -> Seq<char> {
    if cooling {
        "Launching..."@
    } else if is_page {
        "Open"@
    } else {
        "Launch"@
    }
}

/// Why the button cannot be pressed.
pub open spec fn disabled_reason(target: Seq<char>, cooling: bool) -> Seq<char> {
    if cooling {
        "Starting, please wait..."@
    } else {
        "Not found: "@ + target
    }
}

impl AppEntry {
    /// What the entry runs: its web page, or its command.
    pub open spec fn command_text(&self) -> Seq<char> {
        match self.url {
            Some(u) => u@,
            None => joined(self.command.deep_view(), " "@),
        }
    }

    /// What the entry runs: its web page, or its command.
    pub fn command_line(&self) -> (r: String)
        ensures
            r@ == self.command_text(),
    {
        match &self.url {
            Some(u) => u.clone(),
            None => join(&self.command, " "),
        }
    }

    /// What the entry needs in order to run: its web page, its checked path,
    /// or its command.
    pub open spec fn target_text(&self) -> Seq<char> {
        match (self.url, self.path_to_check()) {
            (None, Some(p)) => p,
            _ => self.command_text(),
        }
    }

    /// What the entry needs in order to run.
    pub fn target(&self) -> (r: String)
        ensures
            r@ == self.target_text(),
    {
        if self.url.is_none() {
            if let Some(p) = self.checked_path() {
                return p;
            }
        }
        self.command_line()
    }

    /// The button of the entry.
    pub fn launch_button(&self, available: bool, cooling: bool) -> (r: LaunchButton)
        ensures
            r.label@ == button_label(self.url is Some, cooling),
            r.enabled == (available && !cooling),
            r.hover@ == self.target_text(),
            r.disabled_hover@ == disabled_reason(self.target_text(), cooling),
    {
        let label = if cooling {
            "Launching...".to_owned()
        } else if self.url.is_some() {
            "Open".to_owned()
        } else {
            "Launch".to_owned()
        };
        let hover = self.target();
        let disabled_hover = if cooling {
            "Starting, please wait...".to_owned()
        } else {
            let mut reason = "Not found: ".to_owned();
            reason.append(hover.as_str());
            reason
        };
        LaunchButton { label, enabled: available && !cooling, hover, disabled_hover }
    }

    /// The line of the tags, where there are any.
    pub fn tags_line(&self) -> (r: Option<String>)
        ensures
            opt_view(r) == (if self.tags.len() == 0 {
                None
            } else {
                Some("Tags: "@ + joined(self.tags.deep_view(), ", "@))
            }),
    {
        if self.tags.len() == 0 {
            return None;
        }
        let mut line = "Tags: ".to_owned();
        line.append(join(&self.tags, ", ").as_str());
        Some(line)
    }
}

impl App {
    /// The title of the launcher.
    pub fn title(&self) -> (r: String)
        ensures
            r@ == (match self.config {
                Ok(cfg) => cfg.title@,
                Err(_) => "Neutron Imaging Launcher"@,
            }),
    {
        match &self.config {
            Ok(cfg) => cfg.title.clone(),
            Err(_) => default_title(),
        }
    }

    /// The line below the title.
    pub fn subtitle(&self) -> (r: String)
        ensures
            r@ == (match self.config {
                Ok(cfg) => cfg.subtitle@,
                Err(_) => "Select the application you want to launch"@,
            }),
    {
        match &self.config {
            Ok(cfg) => cfg.subtitle.clone(),
            Err(_) => default_subtitle(),
        }
    }

    /// The message in the status bar.
    pub fn status_message(&self) -> (r: Message)
        ensures
            match self.status {
                Some(Ok(m)) => r.text@ == m@ && r.tone == Tone::Good,
                Some(Err(m)) => r.text@ == m@ && r.tone == Tone::Bad,
                None => r.text@ == "Ready"@ && r.tone == Tone::Idle,
            },
    {
        match &self.status {
            Some(Ok(m)) => Message { text: m.clone(), tone: Tone::Good },
            Some(Err(m)) => Message { text: m.clone(), tone: Tone::Bad },
            None => Message { text: "Ready".to_owned(), tone: Tone::Idle },
        }
    }

    /// The warnings about the configuration, where there are any.
    pub fn warnings_line(&self) -> (r: Option<String>)
        ensures
            opt_view(r) == (if self.config_warnings.len() == 0 {
                None
            } else {
                Some("\u{26a0} "@ + joined(self.config_warnings.deep_view(), "; "@))
            }),
    {
        if self.config_warnings.len() == 0 {
            return None;
        }
        let mut line = "\u{26a0} ".to_owned();
        line.append(join(&self.config_warnings, "; ").as_str());
        Some(line)
    }
}

/// The heading of the password prompt.
pub fn prompt_title(category: &str) -> (r: String)
    ensures
        r@ == category@ + " is protected"@,
{
    let mut r = category.to_owned();
    r.append(" is protected");
    r
}

/// Why the report of a scan is shown.
pub fn scan_notice(app_name: &str) -> (r: String)
    ensures
        r@ == app_name@
            + " could not open the browser: your Firefox/Chrome profile is on shared storage and is locked by a session on the machine(s) listed below."@,
{
    let mut r = app_name.to_owned();
    r.append(
        " could not open the browser: your Firefox/Chrome profile is on shared storage and is locked by a session on the machine(s) listed below.",
    );
    r
}

/// Why a launch is held back.
pub fn held_notice(app_name: &str, machine: &str) -> (r: String)
    ensures
        r@ == app_name@
            + " opens a browser, but your browser profile is on shared storage and is in use on "@
            + machine@ + "."@,
{
    let mut r = app_name.to_owned();
    r.append(" opens a browser, but your browser profile is on shared storage and is in use on ");
    r.append(machine);
    r.append(".");
    r
}

} // verus!
