//! The errors that the transport reports.

use vstd::prelude::*;

verus! {

/// Why a packet or a signaling record was not accepted.
#[derive(Clone, Copy, Debug, PartialEq, Eq, Structural)]
pub enum RtpError {
    /// The buffer is too short to hold the fixed RTP header.
    MalformedHeader,
    /// A packet arrived from a source that is not in the registry.
    UnknownPeer,
    /// A field of a signaling record is missing or cannot be read.
    AddressParse,
    /// The local codec parameters have not been announced yet.
    MissingSpecs,
    /// The stream of this kind has already been started.
    DuplicateStreamInit,
}

impl RtpError {
    /// A short description, for logs.
    pub fn message(&self) -> (text: &'static str)
        ensures
            text@ == (match *self {
                RtpError::MalformedHeader => "malformed RTP header"@,
                RtpError::UnknownPeer => "unknown peer"@,
                RtpError::AddressParse => "bad signaling field"@,
                RtpError::MissingSpecs => "codec parameters not announced"@,
                RtpError::DuplicateStreamInit => "stream already initialized"@,
            }),
    {
        match self {
            RtpError::MalformedHeader => "malformed RTP header",
            RtpError::UnknownPeer => "unknown peer",
            RtpError::AddressParse => "bad signaling field",
            RtpError::MissingSpecs => "codec parameters not announced",
            RtpError::DuplicateStreamInit => "stream already initialized",
        }
    }
}

} // verus!
