//! Tiny persisted settings.

use std::path::PathBuf;

use vstd::prelude::*;

verus! {

/// A path of the file system, carried through as it is.
#[verifier::external_type_specification]
#[verifier::external_body]
pub struct ExPathBuf(PathBuf);

/// The settings.
#[derive(Debug, Clone)]
pub struct Config {
    /// Where received files are saved. None = Downloads/caybul-inbox.
    pub dest_dir: Option<PathBuf>,
}

impl Default for Config {
    fn default() -> (r: Self)
        ensures
            r.dest_dir is None,
    {
        Config { dest_dir: None }
    }
}

/// The settings, from what the settings file holds; the defaults where there is no
/// file or it cannot be read.
pub fn load(stored: Option<Config>) -> (r: Config)
    ensures
        match stored {
            Some(c) => r == c,
            None => r.dest_dir is None,
        },
{
    match stored {
        Some(c) => c,
        None => Config::default(),
    }
}

impl Config {
    /// Where received files go: the folder that was chosen, or else the inbox.
    pub fn destination(self, inbox: PathBuf) -> (r: PathBuf)
        ensures
            r == match self.dest_dir {
                Some(dir) => dir,
                None => inbox,
            },
    {
        match self.dest_dir {
            Some(dir) => dir,
            None => inbox,
        }
    }
}

} // verus!
