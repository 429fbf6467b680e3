//! User configuration.

use crate::app_string::string_views;
use vstd::prelude::*;

verus! {

/// Launcher settings.
#[derive(Debug, Clone)]
pub struct Configuration {
    /// Format "[Modifiers]-Key", e.g. `alt-space` or `ctrl-win-KeyC`.
    pub open_search_hotkey: String,
    pub launch_on_boot: bool,
    /// Directories scanned for applications.
    pub application_dirs: Vec<String>,
    /// Applications listed by path, in addition to those found.
    pub applications: Vec<String>,
}

impl Default for Configuration {
    fn default() -> (r: Configuration)
        ensures
            r.open_search_hotkey@ == "alt-space"@,
            r.launch_on_boot,
            string_views(r.application_dirs@) == seq![
                "/Applications"@,
                "/Applications/Utilities"@,
                "/System/Applications"@,
                "/System/Applications/Utilities"@,
                "/System/Library/CoreServices/Applications"@,
                "~/Applications"@,
            ],
            string_views(r.applications@) == seq!["/System/Library/CoreServices/Finder.app"@],
    {
        let application_dirs = vec![
            "/Applications".to_owned(),
            "/Applications/Utilities".to_owned(),
            "/System/Applications".to_owned(),
            "/System/Applications/Utilities".to_owned(),
            "/System/Library/CoreServices/Applications".to_owned(),
            "~/Applications".to_owned(),
        ];
        let applications = vec!["/System/Library/CoreServices/Finder.app".to_owned()];
        assert(string_views(application_dirs@) =~= seq![
            "/Applications"@,
            "/Applications/Utilities"@,
            "/System/Applications"@,
            "/System/Applications/Utilities"@,
            "/System/Library/CoreServices/Applications"@,
            "~/Applications"@,
        ]);
        assert(string_views(applications@) =~= seq!["/System/Library/CoreServices/Finder.app"@]);
        Configuration {
            open_search_hotkey: "alt-space".to_owned(),
            launch_on_boot: true,
            application_dirs,
            applications,
        }
    }
}

} // verus!
