//! What the launcher does of its own accord: it watches its configuration file
//! and which applications are available.

use vstd::prelude::*;
use vstd::string::*;
use crate::config::Config;
use crate::state::{
    availability, check_available, says, App, Housekeeping, AVAILABILITY_PERIOD,
    CONFIG_CHECK_PERIOD,
};

verus! {

impl App {
    /// Whether it is time to look at the configuration file. Where it is, the
    /// next look is a period later.
    pub fn config_check_due(&mut self, now: u64) -> (r: bool)
        ensures
            r == (now - old(self).last_config_check >= CONFIG_CHECK_PERIOD),
            r ==> *final(self) == (App { last_config_check: now, ..*old(self) }),
            !r ==> *final(self) == *old(self),
    {
        if now >= self.last_config_check && now - self.last_config_check >= CONFIG_CHECK_PERIOD {
            self.last_config_check = now;
            return true;
        }
        false
    }

    /// What a look at the configuration file asks for. A file that changed is
    /// loaded again; else the availability of the applications is refreshed,
    /// where that was not done for a while.
    pub fn config_checked(&mut self, now: u64, changed: bool) -> (r: Housekeeping)
        ensures
            changed ==> r is Reload,
            !changed && now - old(self).last_availability_check >= AVAILABILITY_PERIOD ==> r
                is RefreshAvailability,
            !changed && now - old(self).last_availability_check < AVAILABILITY_PERIOD ==> r
                is Nothing,
            r is RefreshAvailability ==> *final(self) == (App {
                last_availability_check: now,
                ..*old(self)
            }),
            !(r is RefreshAvailability) ==> *final(self) == *old(self),
    {
        if changed {
            return Housekeeping::Reload;
        }
        if now >= self.last_availability_check && now - self.last_availability_check
            >= AVAILABILITY_PERIOD {
            self.last_availability_check = now;
            return Housekeeping::RefreshAvailability;
        }
        Housekeeping::Nothing
    }

    /// Puts the configuration in force that was loaded because its file
    /// changed, and says so.
    pub fn config_file_changed(&mut self, loaded: Result<Config, String>, present: &Vec<bool>)
        requires
            old(self).wf(),
            loaded matches Ok(cfg) ==> present.len() == cfg.apps.len(),
        ensures
            final(self).wf(),
            final(self).reloaded(*old(self), loaded, present@),
            says(final(self).status, Ok("Configuration reloaded (file changed)"@)),
            *final(self) == (App {
                config: final(self).config,
                config_warnings: final(self).config_warnings,
                available: final(self).available,
                selected: final(self).selected,
                highlighted: final(self).highlighted,
                held: final(self).held,
                active_category: final(self).active_category,
                status: final(self).status,
                ..*old(self)
            }),
    {
        self.reload(loaded, present, false);
        self.status = Some(Ok("Configuration reloaded (file changed)".to_owned()));
    }

    /// Takes over which checked paths exist.
    pub fn refresh_available(&mut self, present: &Vec<bool>)
        requires
            old(self).wf(),
            present.len() == old(self).apps().len(),
        ensures
            final(self).wf(),
            *final(self) == (App { available: final(self).available, ..*old(self) }),
            final(self).available@ == availability(old(self).apps(), present@),
    {
        if let Ok(cfg) = &self.config {
            self.available = check_available(&cfg.apps, present);
        }
        assert(self.available@ == availability(self.apps(), present@));
    }
}

} // verus!
