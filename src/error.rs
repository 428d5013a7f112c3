use vstd::prelude::*;

verus! {

/// Why a run stopped. Every error ends the run.
#[derive(Debug, Clone, Copy, PartialEq, Eq, Structural)]
pub enum HlsError {
    /// A numeric directive held something other than a `u32`.
    Parse,
    /// The manifest, the key or a segment could not be fetched.
    Network,
    /// A segment could not be decrypted: wrong key size or bad padding.
    Crypto,
    /// The output could not be created or written.
    Io,
}

} // verus!
