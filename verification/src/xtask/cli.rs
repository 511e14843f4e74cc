//! The build profiles that the command line knows.

use vstd::prelude::*;

verus! {

/// A build profile.
#[derive(Debug, Copy, Clone, PartialEq, Eq, Structural)]
pub enum Profile {
    /// Release mode, artifacts go in target/wasm32-unknown-unknown/release/
    Release,
    /// Dev mode, artifacts go in target/wasm32-unknown-unknown/debug/
    Dev,
}

impl Profile {
    /// The directory that holds the artifacts of the profile.
    pub open spec fn stem(self) -> Seq<char> {
        match self {
            Profile::Release => "release"@,
            Profile::Dev => "debug"@,
        }
    }

    /// The name by which the build tool knows the profile.
    pub open spec fn name(self) -> Seq<char> {
        match self {
            Profile::Release => "release"@,
            Profile::Dev => "dev"@,
        }
    }

    /// Computes [`stem`](Profile::stem).
    pub fn artifact_stem(&self) -> (stem: String)
        ensures
            stem@ == self.stem(),
    {
        match self {
            Profile::Release => "release".to_owned(),
            Profile::Dev => "debug".to_owned(),
        }
    }

    /// Computes [`name`](Profile::name).
    pub fn profile_name(&self) -> (name: String)
        ensures
            name@ == self.name(),
    {
        match self {
            Profile::Release => "release".to_owned(),
            Profile::Dev => "dev".to_owned(),
        }
    }

    /// Whether scripts of this profile are generated with debug
    /// information: only those of the dev profile are.
    pub fn is_debug(&self) -> (debug: bool)
        ensures
            debug == (*self == Profile::Dev),
    {
        match self {
            Profile::Release => false,
            Profile::Dev => true,
        }
    }
}

} // verus!
