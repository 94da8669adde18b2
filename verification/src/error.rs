//! What can go wrong inside the core.

use vstd::prelude::*;

verus! {

/// An error of the core. Failures of sockets and storage never get here:
/// they are the host program's.
#[derive(Debug)]
pub enum CoreError {
    /// The text is not the URL of a relay. Holds the text as it was given.
    InvalidUrl(String),
    /// Two assignments for different relays were to be merged.
    MergeDifferentRelays,
    /// A direct message was addressed to more than one recipient.
    GroupDmsNotYetSupported,
    /// The host named a worker task that the supervisor does not know, or
    /// one that it knows already.
    UnknownMinion,
    /// The URL cannot be read as a URI.
    InvalidUri,
    /// The URL names no host.
    UrlHasNoHostname,
    /// The URL names a host without a name.
    UrlHasEmptyHostname,
    /// No id could be made for a subscription: the clock stands before
    /// 1970.
    NoNonce,
}

impl CoreError {
    /// A sentence for the log.
    pub fn message(&self) -> (r: &'static str)
        ensures
            r@ == match *self {
                CoreError::InvalidUrl(_) => "Invalid URL"@,
                CoreError::MergeDifferentRelays =>
                    "Attempted to merge relay assignments on different relays"@,
                CoreError::GroupDmsNotYetSupported => "Group DMs are not yet supported"@,
                CoreError::UnknownMinion => "No such minion"@,
                CoreError::InvalidUri => "Invalid URI"@,
                CoreError::UrlHasNoHostname => "URL has no hostname"@,
                CoreError::UrlHasEmptyHostname => "URL has empty hostname"@,
                CoreError::NoNonce => "No nonce: the clock stands before 1970"@,
            },
    {
        match self {
            CoreError::InvalidUrl(_) => "Invalid URL",
            CoreError::MergeDifferentRelays =>
                "Attempted to merge relay assignments on different relays",
            CoreError::GroupDmsNotYetSupported => "Group DMs are not yet supported",
            CoreError::UnknownMinion => "No such minion",
            CoreError::InvalidUri => "Invalid URI",
            CoreError::UrlHasNoHostname => "URL has no hostname",
            CoreError::UrlHasEmptyHostname => "URL has empty hostname",
            CoreError::NoNonce => "No nonce: the clock stands before 1970",
        }
    }
}

} // verus!
