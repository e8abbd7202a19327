//! Settings of the graphical shell that persist between runs.

use vstd::prelude::*;

verus! {

/// What the graphical shell remembers about its own presentation.
#[derive(Debug)]
pub struct AppConfig {
    pub do_not_show_install_prompt: bool,
    pub theme: String,
}

impl Default for AppConfig {
    /// A fresh configuration: the install prompt shows, the theme is dark.
    fn default() -> (r: Self)
        ensures
            r.do_not_show_install_prompt == false,
            r.theme@ == "dark"@,
    {
        AppConfig { do_not_show_install_prompt: false, theme: "dark".to_owned() }
    }
}

} // verus!
