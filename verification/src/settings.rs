//! Where the two builds of the target executable are found.

use vstd::prelude::*;

verus! {

/// The paths of the 32-bit and of the 64-bit executable; an empty path
/// stands for a build that was not set.
#[derive(Debug)]
pub struct Settings {
    pub path_32: String,
    pub path_64: String,
}

/// The text of the two paths.
pub struct SettingsView {
    pub path_32: Seq<char>,
    pub path_64: Seq<char>,
}

impl View for Settings {
    type V = SettingsView;

    open spec fn view(&self) -> SettingsView {
        SettingsView { path_32: self.path_32@, path_64: self.path_64@ }
    }
}

/// Settings in which no path is set.
pub open spec fn unset() -> SettingsView {
    SettingsView { path_32: Seq::empty(), path_64: Seq::empty() }
}

impl Settings {
    /// Settings with these two paths.
    pub fn new(path_32: String, path_64: String) -> (settings: Self)
        ensures
            settings@ == (SettingsView { path_32: path_32@, path_64: path_64@ }),
    {
        Settings { path_32, path_64 }
    }
}

impl Default for Settings {
    fn default() -> (settings: Self)
        ensures
            settings@ == unset(),
    {
        Settings { path_32: String::new(), path_64: String::new() }
    }
}

impl Clone for Settings {
    fn clone(&self) -> (copy: Self)
        ensures
            copy@ == self@,
    {
        Settings { path_32: self.path_32.clone(), path_64: self.path_64.clone() }
    }
}

} // verus!
