//! What the caller may choose when compressing.

use crate::delta::MAX_DELTA_ENCODING_ORDER;
use crate::errors::PcoError;
use vstd::prelude::*;

verus! {

/// The compression level used where none is chosen.
pub const DEFAULT_COMPRESSION_LEVEL: usize = 8;

/// The highest compression level.
pub const MAX_COMPRESSION_LEVEL: usize = 12;

/// The settings of a chunk's compression.
///
/// The level says how much effort to spend. It is not written to the stream.
/// The order of delta encoding says how often the numbers are replaced by
/// their differences before they are written: it is written to the chunk,
/// and reading a stream needs no settings.
#[derive(Clone, Copy, Debug, PartialEq, Eq, Structural)]
pub struct ChunkConfig {
    pub compression_level: usize,
    pub delta_encoding_order: usize,
}

impl ChunkConfig {
    /// Whether the settings are ones that compression accepts.
    pub open spec fn spec_valid(self) -> bool {
        &&& self.compression_level <= MAX_COMPRESSION_LEVEL
        &&& self.delta_encoding_order <= MAX_DELTA_ENCODING_ORDER
    }

    /// Why settings are refused: for their level first, then for their order.
    pub open spec fn spec_validate(self) -> Result<(), PcoError> {
        if self.compression_level > MAX_COMPRESSION_LEVEL {
            Err(PcoError::CompressionLevel { level: self.compression_level })
        } else if self.delta_encoding_order > MAX_DELTA_ENCODING_ORDER {
            Err(PcoError::DeltaEncodingOrder { order: self.delta_encoding_order })
        } else {
            Ok(())
        }
    }

    /// The same settings with another compression level.
    pub fn with_compression_level(self, level: usize) -> (r: ChunkConfig)
        ensures
            r == (ChunkConfig { compression_level: level, ..self }),
    {
        ChunkConfig { compression_level: level, ..self }
    }

    /// The same settings with another order of delta encoding.
    pub fn with_delta_encoding_order(self, order: usize) -> (r: ChunkConfig)
        ensures
            r == (ChunkConfig { delta_encoding_order: order, ..self }),
    {
        ChunkConfig { delta_encoding_order: order, ..self }
    }

    /// Accepts levels and orders up to the highest, and refuses the others
    /// with what was asked for.
    pub fn validate(&self) -> (r: Result<(), PcoError>)
        ensures
            r == self.spec_validate(),
            r is Ok <==> self.spec_valid(),
    {
        if self.compression_level > MAX_COMPRESSION_LEVEL {
            Err(PcoError::CompressionLevel { level: self.compression_level })
        } else if self.delta_encoding_order > MAX_DELTA_ENCODING_ORDER {
            Err(PcoError::DeltaEncodingOrder { order: self.delta_encoding_order })
        } else {
            Ok(())
        }
    }
}

impl Default for ChunkConfig {
    fn default() -> (r: ChunkConfig)
        ensures
            r == (ChunkConfig {
                compression_level: DEFAULT_COMPRESSION_LEVEL,
                delta_encoding_order: 0,
            }),
    {
        ChunkConfig { compression_level: DEFAULT_COMPRESSION_LEVEL, delta_encoding_order: 0 }
    }
}

} // verus!
