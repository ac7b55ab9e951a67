use vstd::prelude::*;

verus! {

/// Why a command or a synchronization step on the group registry failed.
#[derive(Clone, Copy, Debug, PartialEq, Eq, Structural)]
pub enum Error {
    /// `create`, `join` or `subscribe` on a group that already has an entry.
    AlreadyExists,
    /// The group has no entry in the registry.
    NotFound,
    /// No member of the group's roster has the given public key.
    UserNotFound,
    /// The operation needs cryptographic state, and the entry only observes the log.
    NotAMember,
    /// A blob's index is ahead of the position expected next.
    OutOfOrder,
    /// The remote append failed after the local state had already advanced;
    /// the same blob has to be sent again.
    PublishFailure,
    /// Malformed persisted or wire data.
    DecodeFailure,
    /// The group's log has reached the last position an index can name.
    LogFull,
}

impl Error {
    /// A short human-readable description of the error.
    pub open spec fn spec_message(&self) -> &'static str {
        match self {
            Error::AlreadyExists => "Group already exists!",
            Error::NotFound => "Group doesn't exist!",
            Error::UserNotFound => "User not found!",
            Error::NotAMember => "Not a member of the group!",
            Error::OutOfOrder => "Blob from the future",
            Error::PublishFailure => "Publishing the blob failed; it has to be sent again",
            Error::DecodeFailure => "Failed to decode",
            Error::LogFull => "The group's log is full",
        }
    }

    /// A short human-readable description of the error.
    pub fn message(&self) -> (r: &'static str)
        ensures
            r == self.spec_message(),
    {
        match self {
            Error::AlreadyExists => "Group already exists!",
            Error::NotFound => "Group doesn't exist!",
            Error::UserNotFound => "User not found!",
            Error::NotAMember => "Not a member of the group!",
            Error::OutOfOrder => "Blob from the future",
            Error::PublishFailure => "Publishing the blob failed; it has to be sent again",
            Error::DecodeFailure => "Failed to decode",
            Error::LogFull => "The group's log is full",
        }
    }
}

} // verus!
