//! The library's error taxonomy.

use vstd::prelude::*;

verus! {

/// Everything that can go wrong while normalizing vendor data or
/// reconciling the live session.
#[derive(Debug, Clone, PartialEq, Eq)]
pub enum LeagueHelperError {
    /// A required positional field was absent or unreadable; the payload
    /// names the field (and, where known, the character and role).
    MissingField(String),
    /// An ID did not resolve against the reference data.
    InvalidReference(String),
    /// The rune-count invariant (exactly 9 ordered rune IDs) was violated.
    IncompleteRunePage,
    /// No catalog entry exists for the live selection.
    NoBuildFound,
    /// The page inventory is at capacity and holds no deletable page.
    InventoryFull,
    /// The vendor's current patch version could not be discovered.
    VersionUnavailable,
    /// An I/O collaborator failed; the payload is its message, opaque.
    TransportFailure(String),
    /// Any other failure, described by its message.
    Other(String),
}

impl LeagueHelperError {
    /// Wraps a plain message, as the catch-all variant.
    pub fn new(message: &str) -> (r: LeagueHelperError)
        ensures
            r matches LeagueHelperError::Other(m) && m@ == message@,
    {
        LeagueHelperError::Other(message.to_owned())
    }

    /// The human-readable message carried by this error.
    pub open spec fn message_spec(self) -> Seq<char> {
        match self {
            LeagueHelperError::MissingField(m) => m@,
            LeagueHelperError::InvalidReference(m) => m@,
            LeagueHelperError::IncompleteRunePage => "Could not find a complete rune page"@,
            LeagueHelperError::NoBuildFound => "No build data found."@,
            LeagueHelperError::InventoryFull => "No deletable rune page slot is free"@,
            LeagueHelperError::VersionUnavailable => "Failed to read patch version"@,
            LeagueHelperError::TransportFailure(m) => m@,
            LeagueHelperError::Other(m) => m@,
        }
    }

    /// The human-readable message carried by this error.
    pub fn message(&self) -> (r: String)
        ensures
            r@ == self.message_spec(),
    {
        match self {
            LeagueHelperError::MissingField(m) => m.clone(),
            LeagueHelperError::InvalidReference(m) => m.clone(),
            LeagueHelperError::IncompleteRunePage => {
                "Could not find a complete rune page".to_owned()
            },
            LeagueHelperError::NoBuildFound => "No build data found.".to_owned(),
            LeagueHelperError::InventoryFull => "No deletable rune page slot is free".to_owned(),
            LeagueHelperError::VersionUnavailable => "Failed to read patch version".to_owned(),
            LeagueHelperError::TransportFailure(m) => m.clone(),
            LeagueHelperError::Other(m) => m.clone(),
        }
    }
}

/// Attaches a message to an absent value, mirroring how optional reads
/// are turned into descriptive errors throughout the library.
pub trait ErrorExt<T>: Sized {
    /// Whether a value is present.
    spec fn has_value(self) -> bool;

    /// The value, when one is present.
    spec fn the_value(self) -> T;

    /// Turns an absent value into a `MissingField` error carrying `msg`.
    fn context(self, msg: &str) -> (r: Result<T, LeagueHelperError>)
        ensures
            self.has_value() ==> (r matches Ok(v) && v == self.the_value()),
            !self.has_value() ==> (r matches Err(LeagueHelperError::MissingField(m)) && m@
                == msg@);
}

impl<T> ErrorExt<T> for Option<T> {
    open spec fn has_value(self) -> bool {
        self is Some
    }

    open spec fn the_value(self) -> T {
        self->0
    }

    fn context(self, msg: &str) -> (r: Result<T, LeagueHelperError>)
    {
        match self {
            Some(v) => Ok(v),
            None => Err(LeagueHelperError::MissingField(msg.to_owned())),
        }
    }
}

} // verus!
