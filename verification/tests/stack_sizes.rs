use pco_core::bench::stat::BenchStat;
use pco_core::config::ChunkConfig;
use pco_core::errors::PcoError;
use pco_core::num_vec::NumVec;
use pco_core::standalone::{
    ChunkDecompressor, FileDecompressor, MaybeChunkDecompressor, NumberTypeOrTermination, Progress,
};
use std::mem;

#[test]
fn test_stack_sizes() {
    // What is handed around by value stays small: a chunk that is being read
    // is a cursor into the caller's bytes, not a copy of them.

    // compression
    assert_eq!(mem::size_of::<ChunkConfig>(), 16);
    assert_eq!(mem::size_of::<NumVec>(), 32);
    assert_eq!(mem::size_of::<BenchStat>(), 48);

    // decompression
    assert_eq!(mem::size_of::<FileDecompressor>(), 8);
    assert_eq!(mem::size_of::<ChunkDecompressor<u64>>(), 96);
    assert_eq!(mem::size_of::<MaybeChunkDecompressor<u64>>(), 96);
    assert_eq!(mem::size_of::<Progress>(), 16);
    assert_eq!(mem::size_of::<Result<NumberTypeOrTermination, PcoError>>(), 16);
}
