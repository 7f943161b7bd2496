//! Application-level settings (per device). They live in the app config
//! directory, not in the vault sidecar, which only holds vault-derived data.

use vstd::prelude::*;

verus! {

#[derive(Debug, Clone, Copy, PartialEq, Eq)]
pub enum ThemeKind {
    WarmPaper,
    ColdStone,
    NightInk,
}

#[derive(Debug, Clone, Copy, PartialEq, Eq)]
pub enum FontPreset {
    Serif,
    SansSerif,
}

/// Where the settings file is.
pub struct ConfigService {
    path: String,
}

impl ConfigService {
    pub closed spec fn spec_path(&self) -> Seq<char> {
        self.path@
    }

    pub fn new(path: String) -> (s: Self)
        ensures
            s.spec_path() == path@,
    {
        ConfigService { path }
    }

    pub fn path(&self) -> (p: &str)
        ensures
            p@ == self.spec_path(),
    {
        self.path.as_str()
    }
}

} // verus!
