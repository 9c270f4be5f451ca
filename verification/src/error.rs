//! The kinds of failure that a run can report.

use vstd::prelude::*;

verus! {

/// Why a file could not be rewritten, or why a run could not start.
#[derive(Clone, Copy, Debug, PartialEq, Eq, Structural)]
pub enum SieveError {
    /// The root directory or a file is missing or cannot be opened.
    Path,
    /// The input is not valid gzip, or what it decodes to is not line-structured text.
    Codec,
    /// Reading, writing, flushing or renaming failed.
    Io,
    /// The worker pool was asked for in a way that cannot be honoured.
    PoolConfig,
}

impl SieveError {
    /// The name under which the kind appears in diagnostics.
    pub fn name(&self) -> (r: &'static str)
        ensures
            r@ == match *self {
                SieveError::Path => "PathError"@,
                SieveError::Codec => "CodecError"@,
                SieveError::Io => "IoError"@,
                SieveError::PoolConfig => "PoolConfigError"@,
            },
    {
        match self {
            SieveError::Path => "PathError",
            SieveError::Codec => "CodecError",
            SieveError::Io => "IoError",
            SieveError::PoolConfig => "PoolConfigError",
        }
    }
}

} // verus!
