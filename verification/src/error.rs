use vstd::prelude::*;

verus! {

/// What can go wrong while building an animator or computing a frame.
#[derive(Debug, PartialEq, Eq)]
pub enum Error {
    /// No file of the given name was found; the payload is the name that was sought.
    PathError(String),
    /// A keyframe channel was sampled at a tick for which it has no bracketing keys.
    DataError,
    /// The weighted entry at this position in the list yields a tick outside its clip.
    ConfigError(usize),
    /// A bone or mesh index does not fit into the fixed-size output tables.
    Precondition,
}

impl Error {
    /// A short description of the error.
    pub fn message(&self) -> (r: String)
        ensures
            r@ == match *self {
                Error::PathError(_) => "filename not found"@,
                Error::DataError => "animation time out of bounds"@,
                Error::ConfigError(_) => "target animation tick out of range"@,
                Error::Precondition => "bone or mesh index exceeds output capacity"@,
            },
    {
        match self {
            Error::PathError(_) => "filename not found".to_string(),
            Error::DataError => "animation time out of bounds".to_string(),
            Error::ConfigError(_) => "target animation tick out of range".to_string(),
            Error::Precondition => "bone or mesh index exceeds output capacity".to_string(),
        }
    }
}

} // verus!
