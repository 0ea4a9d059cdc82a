//! What a caller may choose about encoding.

use vstd::prelude::*;
use crate::chunk::limit_ok;
use crate::consts::MAX_CHUNK;
use crate::error::EncoderError;
use crate::zlib::{level_ok, DEFAULT_LEVEL, MAX_LEVEL};

verus! {

/// The choices that encoding leaves open.
#[derive(Clone, Copy, Debug, PartialEq, Eq, Structural)]
pub struct Config {
    /// How hard the image data is packed: 0 (not at all) to 10.
    pub level: u8,
    /// The most payload that one image data chunk gets: 1 to 2^31 - 1.
    pub chunk_limit: u32,
}

impl Config {
    /// Both choices are in range.
    pub open spec fn valid(self) -> bool {
        level_ok(self.level) && limit_ok(self.chunk_limit)
    }

    /// Why the choices are refused, if they are: the level is looked at
    /// first.
    pub open spec fn refusal(self) -> Option<EncoderError> {
        if !level_ok(self.level) {
            Some(EncoderError::Level)
        } else if !limit_ok(self.chunk_limit) {
            Some(EncoderError::ChunkLimit)
        } else {
            None
        }
    }

    /// The middle level, and chunks as large as the format lets them be.
    pub fn new() -> (config: Config)
        ensures
            config == (Config { level: DEFAULT_LEVEL, chunk_limit: MAX_CHUNK }),
            config.valid(),
    {
        Config { level: DEFAULT_LEVEL, chunk_limit: MAX_CHUNK }
    }

    /// Tells whether the choices are in range, and if not, which is not.
    pub fn check(&self) -> (r: Result<(), EncoderError>)
        ensures
            r == match self.refusal() {
                Some(e) => Err::<(), EncoderError>(e),
                None => Ok::<(), EncoderError>(()),
            },
    {
        if self.level > MAX_LEVEL {
            Err(EncoderError::Level)
        } else if self.chunk_limit < 1 || self.chunk_limit > MAX_CHUNK {
            Err(EncoderError::ChunkLimit)
        } else {
            Ok(())
        }
    }
}

impl Default for Config {
    fn default() -> (config: Config)
        ensures
            config == (Config { level: DEFAULT_LEVEL, chunk_limit: MAX_CHUNK }),
    {
        Config::new()
    }
}

} // verus!
