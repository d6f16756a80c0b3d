use vstd::prelude::*;
use vstd::string::StringExecFns;

verus! {

/// A failure while processing one subvolume: creating its storage
/// directory, scanning it, or a snapshot create/delete the external tool
/// refused.  Carries a human-readable description.
#[derive(Debug)]
pub struct SubVolumeError(pub String);

impl SubVolumeError {
    /// The error's description, prefixed like the log line it becomes.
    pub fn message(&self) -> (r: String)
        ensures
            r@ == "Subvolume error: "@ + self.0@,
    {
        let mut m = String::from_str("Subvolume error: ");
        m.append(self.0.as_str());
        m
    }
}

/// A failure of the run as a whole: configuration unreadable or
/// unparsable, or a subvolume that could not be processed at all.
#[derive(Debug)]
pub struct MainError(pub String);

impl MainError {
    /// The error's description.
    pub fn message(&self) -> (r: String)
        ensures
            r@ == self.0@,
    {
        String::from_str(self.0.as_str())
    }
}

} // verus!
