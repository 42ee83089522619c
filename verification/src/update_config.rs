//! The updater's configuration and its documented defaults.

use vstd::prelude::*;

verus! {

/// How and when the application checks for updates.
#[derive(Debug)]
pub struct UpdateConfig {
    /// Check for updates on launch, after a delay.
    pub check_on_launch: bool,
    /// Launch check delay in seconds.
    pub launch_delay: u64,
    /// Background check interval in hours.
    pub check_interval_hours: u64,
    /// Download updates without asking.
    pub auto_download: bool,
    /// Install updates without asking.
    pub auto_install: bool,
    /// Show notifications.
    pub show_notifications: bool,
}

impl Default for UpdateConfig {
    /// The defaults: check 5 seconds after launch and every 6 hours,
    /// download automatically, ask before installing, and notify.
    fn default() -> (c: UpdateConfig)
        ensures
            c.check_on_launch,
            c.launch_delay == 5,
            c.check_interval_hours == 6,
            c.auto_download,
            !c.auto_install,
            c.show_notifications,
    {
        UpdateConfig {
            check_on_launch: true,
            launch_delay: 5,
            check_interval_hours: 6,
            auto_download: true,
            auto_install: false,
            show_notifications: true,
        }
    }
}

} // verus!
