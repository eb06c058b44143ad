use vstd::prelude::*;

verus! {

/// Failures reported by the store and its engines.
#[derive(Debug)]
pub enum KvsError {
    /// A filesystem or network failure, with its message.
    Io(String),
    /// A malformed log line or wire message, with its message.
    Serde(String),
    /// `remove` of a key that the store does not hold.
    KeyNotFound,
    /// The directory was created by another engine.
    WrongMeta,
    /// A stored value that is not valid UTF-8, with its message.
    Utf8(String),
}

impl KvsError {
    /// The human-readable text of the error.
    pub open spec fn message_spec(&self) -> Seq<char> {
        match self {
            KvsError::Io(m) => m@,
            KvsError::Serde(m) => m@,
            KvsError::KeyNotFound => "Key not found"@,
            KvsError::WrongMeta => "wrong meta"@,
            KvsError::Utf8(m) => m@,
        }
    }

    /// The human-readable text of the error.
    pub fn message(&self) -> (s: String)
        ensures
            s@ == self.message_spec(),
    {
        match self {
            KvsError::Io(m) => m.clone(),
            KvsError::Serde(m) => m.clone(),
            KvsError::KeyNotFound => "Key not found".to_string(),
            KvsError::WrongMeta => "wrong meta".to_string(),
            KvsError::Utf8(m) => m.clone(),
        }
    }
}

} // verus!
