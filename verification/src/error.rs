use vstd::prelude::*;

verus! {

/// Every failure the resolution-and-decode pipeline can report.
///
/// `NotFound` is a legitimate negative answer (an identifier absent from an
/// index), distinct from the structural failures. `NetworkError`,
/// `ConfigFetchError` and `IOError` are produced by the unverified I/O shell
/// around this library; the verified core itself only produces the
/// format-level kinds.
#[derive(Clone, Copy, Debug, PartialEq, Eq, Structural)]
pub enum Error {
    /// Transport or connection failure while talking to the patch server or CDN.
    NetworkError,
    /// Failure while sequencing the initialization manifests.
    ConfigFetchError,
    /// A structural violation in a root file, archive index, or container header.
    MalformedFormat,
    /// A chunk's integrity checksum does not match its compressed bytes.
    ChecksumMismatch,
    /// A recognized but unimplemented chunk encoding mode.
    UnsupportedEncoding,
    /// An identifier or key absent from the root or archive index.
    NotFound,
    /// Local cache read or write failure.
    IOError,
    /// Fewer bytes are available than a chunk or block declares.
    TruncatedInput,
}

impl Error {
    /// A short human-readable rendering of the error kind.
    pub fn message(&self) -> (r: &'static str)
        ensures
            r@.len() > 0,
    {
        let r = match self {
            Error::NetworkError => "network error",
            Error::ConfigFetchError => "configuration fetch failed",
            Error::MalformedFormat => "malformed format",
            Error::ChecksumMismatch => "chunk checksum mismatch",
            Error::UnsupportedEncoding => "unsupported chunk encoding",
            Error::NotFound => "not found",
            Error::IOError => "local cache i/o error",
            Error::TruncatedInput => "truncated input",
        };
        proof {
            reveal_strlit("network error");
            reveal_strlit("configuration fetch failed");
            reveal_strlit("malformed format");
            reveal_strlit("chunk checksum mismatch");
            reveal_strlit("unsupported chunk encoding");
            reveal_strlit("not found");
            reveal_strlit("local cache i/o error");
            reveal_strlit("truncated input");
        }
        r
    }
}

} // verus!
