//! What can go wrong in the file pool itself.

use vstd::prelude::*;

verus! {

/// A failure of the file pool. Failures of the host's files are not among
/// them: those come from whoever performs the pool's actions.
#[derive(Debug)]
pub enum PoolError {
    /// No file has that path.
    FileNotFound,
    /// The metadata file has not been opened.
    NotInited,
    /// The metadata file holds bytes that are no metadata; the text says why.
    Decode(String),
    /// The system has no random bytes for the name of a new file.
    NoRandomness,
}

impl PoolError {
    /// The failure in words.
    pub fn message(&self) -> (text: String)
        ensures
            match *self {
                PoolError::FileNotFound => text@ == "file not found"@,
                PoolError::NotInited => text@ == "metadata file is not inited"@,
                PoolError::Decode(why) => text@ == why@,
                PoolError::NoRandomness => text@
                    == "could not retrieve random bytes for uuid"@,
            },
    {
        match self {
            PoolError::FileNotFound => "file not found".to_owned(),
            PoolError::NotInited => "metadata file is not inited".to_owned(),
            PoolError::Decode(why) => why.clone(),
            PoolError::NoRandomness => "could not retrieve random bytes for uuid".to_owned(),
        }
    }
}

} // verus!
