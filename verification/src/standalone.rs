//! The stream: a header, chunks of numbers of one kind each, and the byte
//! that ends it.
//!
//! ```text
//! stream := header chunk* 0
//! header := 'p' 'c' 'o' '!'  version  n_hint (8 bytes)
//! chunk  := tag  n (8 bytes, not 0)  order (1 byte, at most 7)  page
//! page   := n latents, each of the width of the tag's kind
//! ```
//!
//! All integers are written lowest byte first. The tag of a chunk is the byte
//! of its kind, which is never 0. The latents of a page are the differences,
//! of the chunk's order, of the latents of the chunk's numbers: a stream says
//! itself how it is read.

use crate::config::ChunkConfig;
use crate::data_types::{latents_of, numbers_of, Number, NumberType};
use crate::delta::{
    delta_encode, lemma_delta_n_len, lemma_levels_fit, lemma_levels_of_none, lemma_next_levels,
    lemma_undelta_delta_n, lemma_undelta_n_len, lemma_undelta_n_take, spec_delta_n, spec_fits,
    spec_levels, spec_undelta_n, undelta_next, MAX_DELTA_ENCODING_ORDER,
};
use crate::errors::PcoError;
use crate::wire::{
    lemma_le_bytes_len, lemma_le_round_trip, lemma_le_value_bound, lemma_page_latents_fit,
    lemma_page_len, lemma_page_round_trip, lemma_page_slot, lemma_pow256_below,
    lemma_pow256_values, read_le, spec_le_bytes, spec_le_value, spec_page, spec_page_latents,
    spec_pow256, write_le,
};
use core::marker::PhantomData;
use vstd::prelude::*;

verus! {

/// The byte that stands where a chunk's tag would, once no chunk follows.
pub const MAGIC_TERMINATION_BYTE: u8 = 0;

/// The version of the format that this library writes and reads.
pub const FORMAT_VERSION: u8 = 1;

/// The number of bytes of a header.
pub const HEADER_LEN: usize = 13;

/// The number of bytes of a chunk before its page: the tag, the count and
/// the order of the delta encoding.
pub const CHUNK_META_LEN: usize = 10;

/// What stands where a chunk's tag is expected.
#[derive(Clone, Copy, Debug, PartialEq, Eq, Structural)]
pub enum NumberTypeOrTermination {
    /// The stream ends here.
    Termination,
    /// A chunk of this kind begins here.
    Known(NumberType),
    /// A byte that is the tag of no kind this library knows.
    Unknown(u8),
}

/// How far a chunk has been read.
#[derive(Clone, Copy, Debug, PartialEq, Eq, Structural)]
pub struct Progress {
    /// How many numbers the call wrote.
    pub n_processed: usize,
    /// Whether the chunk has now given all its numbers.
    pub finished: bool,
}

/// What a chunk says of itself before its page.
pub ghost struct ChunkMeta {
    /// How many numbers the chunk holds.
    pub n: nat,
    /// The order of the delta encoding of its page.
    pub delta_encoding_order: nat,
}

/// Whether `src` begins with the four bytes `pco!`.
pub open spec fn spec_has_magic(src: Seq<u8>) -> bool {
    &&& src.len() >= 4
    &&& src[0] == 112
    &&& src[1] == 99
    &&& src[2] == 111
    &&& src[3] == 33
}

/// The bytes of a header with the given hint.
pub open spec fn spec_header(n_hint: u64) -> Seq<u8> {
    seq![112u8, 99u8, 111u8, 33u8, FORMAT_VERSION] + spec_le_bytes(n_hint as nat, 8)
}

/// The bytes of a chunk of the given kind that holds the given latents,
/// delta encoded in the given order.
pub open spec fn spec_chunk(kind: NumberType, order: nat, latents: Seq<u64>) -> Seq<u8> {
    seq![kind.spec_descriminant()] + spec_le_bytes(latents.len(), 8) + seq![order as u8]
        + spec_page(
        spec_delta_n(latents, order, kind.spec_max_latent()),
        kind.spec_byte_width() as nat,
    )
}

/// The bytes of a whole stream for the given latents: a header with their
/// count as the hint, one chunk with all of them unless there are none, and
/// the byte that ends the stream.
pub open spec fn spec_file(kind: NumberType, order: nat, latents: Seq<u64>) -> Seq<u8> {
    if latents.len() == 0 {
        spec_header(0) + seq![MAGIC_TERMINATION_BYTE]
    } else {
        spec_header(latents.len() as u64) + (spec_chunk(kind, order, latents)
            + seq![MAGIC_TERMINATION_BYTE])
    }
}

/// The hint of the header at the start of `src`, or why there is no header.
pub open spec fn spec_parse_header(src: Seq<u8>) -> Result<u64, PcoError> {
    if src.len() < HEADER_LEN {
        Err(PcoError::InsufficientData { available: src.len() as usize })
    } else if !spec_has_magic(src) {
        Err(PcoError::MagicHeader)
    } else if src[4] != FORMAT_VERSION {
        Err(PcoError::FormatVersion { version: src[4] })
    } else {
        Ok(spec_le_value(src.subrange(5, 13)) as u64)
    }
}

/// What a byte means where a tag is expected.
pub open spec fn spec_tag(byte: u8) -> NumberTypeOrTermination {
    if byte == MAGIC_TERMINATION_BYTE {
        NumberTypeOrTermination::Termination
    } else {
        match NumberType::spec_from_descriminant(byte) {
            Some(kind) => NumberTypeOrTermination::Known(kind),
            None => NumberTypeOrTermination::Unknown(byte),
        }
    }
}

/// What stands at the start of `src`, where a tag is expected.
pub open spec fn spec_peek(src: Seq<u8>) -> Result<NumberTypeOrTermination, PcoError> {
    if src.len() == 0 {
        Err(PcoError::InsufficientData { available: 0 })
    } else {
        Ok(spec_tag(src[0]))
    }
}

/// What the chunk at the start of `src` says of itself, if it is there in
/// full: its count is not 0, its order is one there is, and its page, of as
/// many latents of `width` bytes as it counts, does not run past the end.
pub open spec fn spec_chunk_meta(width: nat, src: Seq<u8>) -> Result<ChunkMeta, PcoError> {
    if src.len() < CHUNK_META_LEN {
        Err(PcoError::InsufficientData { available: src.len() as usize })
    } else {
        let n = spec_le_value(src.subrange(1, 9));
        let order = src[9];
        if n == 0 {
            Err(PcoError::EmptyChunk)
        } else if order > MAX_DELTA_ENCODING_ORDER {
            Err(PcoError::DeltaOrder { declared: order })
        } else if n * width > src.len() - CHUNK_META_LEN {
            Err(PcoError::InsufficientData { available: src.len() as usize })
        } else {
            Ok(ChunkMeta { n, delta_encoding_order: order as nat })
        }
    }
}

/// The latents in the page of the chunk of `n` numbers at the start of `src`,
/// as they are stored.
pub open spec fn spec_chunk_stored(width: nat, src: Seq<u8>, n: nat) -> Seq<u64> {
    spec_page_latents(src.skip(CHUNK_META_LEN as int), width, n)
}

/// The latents of the numbers of the chunk at the start of `src`: the
/// running sums, of the chunk's order, of what its page stores.
pub open spec fn spec_chunk_latents(kind: NumberType, src: Seq<u8>, meta: ChunkMeta) -> Seq<u64> {
    spec_undelta_n(
        spec_chunk_stored(kind.spec_byte_width() as nat, src, meta.n),
        meta.delta_encoding_order,
        kind.spec_max_latent(),
    )
}

/// What follows the chunk of `n` numbers at the start of `src`.
pub open spec fn spec_chunk_rest(width: nat, src: Seq<u8>, n: nat) -> Seq<u8> {
    src.skip(CHUNK_META_LEN + n * width)
}

/// How the stream goes on at the start of `src`, for a reader of numbers of
/// kind `kind`: with a chunk of that kind, or with its end.
pub open spec fn spec_chunk_start(kind: NumberType, src: Seq<u8>) -> Result<
    Option<ChunkMeta>,
    PcoError,
> {
    match spec_peek(src) {
        Err(e) => Err(e),
        Ok(NumberTypeOrTermination::Termination) => Ok(None),
        Ok(NumberTypeOrTermination::Unknown(byte)) => Err(PcoError::UnknownNumberType { byte }),
        Ok(NumberTypeOrTermination::Known(found)) => if found != kind {
            Err(PcoError::NumberTypeMismatch { expected: kind, found })
        } else {
            match spec_chunk_meta(kind.spec_byte_width() as nat, src) {
                Err(e) => Err(e),
                Ok(meta) => Ok(Some(meta)),
            }
        },
    }
}

/// The latents of a stream without its header, for a reader of numbers of
/// kind `kind`: those of its one chunk, or none where it ends at once.
/// Anything but the end of the stream after the chunk is an error.
pub open spec fn spec_decompress_chunks(kind: NumberType, src: Seq<u8>) -> Result<
    Seq<u64>,
    PcoError,
> {
    let width = kind.spec_byte_width() as nat;
    match spec_chunk_start(kind, src) {
        Err(e) => Err(e),
        Ok(None) => Ok(Seq::empty()),
        Ok(Some(meta)) => match spec_peek(spec_chunk_rest(width, src, meta.n)) {
            Err(e) => Err(e),
            Ok(NumberTypeOrTermination::Termination) => Ok(spec_chunk_latents(kind, src, meta)),
            Ok(NumberTypeOrTermination::Unknown(byte)) => Err(
                PcoError::UnknownNumberType { byte },
            ),
            Ok(NumberTypeOrTermination::Known(found)) => Err(PcoError::ExtraChunk { found }),
        },
    }
}

/// The latents of a whole stream, for a reader of numbers of kind `kind`.
pub open spec fn spec_simple_decompress(kind: NumberType, src: Seq<u8>) -> Result<
    Seq<u64>,
    PcoError,
> {
    match spec_parse_header(src) {
        Err(e) => Err(e),
        Ok(_) => spec_decompress_chunks(kind, src.skip(HEADER_LEN as int)),
    }
}

/// Reads the header in front of a stream and then stands for the stream.
#[derive(Clone, Debug)]
pub struct FileDecompressor {
    n_hint: u64,
}

impl FileDecompressor {
    /// The count of numbers that the writer of the stream announced.
    pub closed spec fn spec_n_hint(&self) -> u64 {
        self.n_hint
    }

    /// Reads the header. Gives the decompressor and what follows the header,
    /// or says what is wrong with the header.
    pub fn new(src: &[u8]) -> (r: Result<(FileDecompressor, &[u8]), PcoError>)
        ensures
            match r {
                Ok((file_decompressor, rest)) => {
                    &&& spec_parse_header(src@) == Ok::<u64, PcoError>(
                        file_decompressor.spec_n_hint(),
                    )
                    &&& rest@ == src@.skip(HEADER_LEN as int)
                },
                Err(e) => spec_parse_header(src@) == Err::<u64, PcoError>(e),
            },
    {
        if src.len() < HEADER_LEN {
            return Err(PcoError::InsufficientData { available: src.len() });
        }
        if !(src[0] == 112 && src[1] == 99 && src[2] == 111 && src[3] == 33) {
            return Err(PcoError::MagicHeader);
        }
        if src[4] != FORMAT_VERSION {
            return Err(PcoError::FormatVersion { version: src[4] });
        }
        let n_hint = read_le(src, 5, 8);
        proof {
            lemma_le_value_bound(src@.subrange(5, 13));
            lemma_pow256_below(8);
        }
        let rest = &src[HEADER_LEN..src.len()];
        Ok((FileDecompressor { n_hint }, rest))
    }

    /// The count of numbers that the writer of the stream announced. It may
    /// serve to size a buffer, and says nothing of what the stream holds.
    #[verifier::when_used_as_spec(spec_n_hint)]
    pub fn n_hint(&self) -> (r: u64)
        ensures
            r == self.spec_n_hint(),
    {
        self.n_hint
    }

    /// Looks at the byte where a chunk's tag is expected, and reads nothing
    /// past it.
    pub fn peek_number_type_or_termination(&self, src: &[u8]) -> (r: Result<
        NumberTypeOrTermination,
        PcoError,
    >)
        ensures
            r == spec_peek(src@),
    {
        if src.len() == 0 {
            return Err(PcoError::InsufficientData { available: 0 });
        }
        let byte = src[0];
        if byte == MAGIC_TERMINATION_BYTE {
            Ok(NumberTypeOrTermination::Termination)
        } else {
            match NumberType::from_descriminant(byte) {
                Some(kind) => Ok(NumberTypeOrTermination::Known(kind)),
                None => Ok(NumberTypeOrTermination::Unknown(byte)),
            }
        }
    }

    /// Begins to read the chunk at the start of `src` as numbers of the type
    /// `T`, or finds that the stream ends there.
    ///
    /// The tag is judged first: nothing after it is read unless it is the tag
    /// of `T`. A chunk is accepted only if it is there in full.
    pub fn chunk_decompressor<'a, T: Number>(&self, src: &'a [u8]) -> (r: Result<
        MaybeChunkDecompressor<'a, T>,
        PcoError,
    >)
        ensures
            match r {
                Ok(MaybeChunkDecompressor::Chunk(chunk)) => {
                    let width = T::spec_number_type().spec_byte_width() as nat;
                    &&& spec_chunk_start(T::spec_number_type(), src@) == Ok::<
                        Option<ChunkMeta>,
                        PcoError,
                    >(Some(chunk.meta()))
                    &&& chunk.spec_n_processed() == 0
                    &&& chunk.latents() == spec_chunk_latents(
                        T::spec_number_type(),
                        src@,
                        chunk.meta(),
                    )
                    &&& chunk.rest() == spec_chunk_rest(width, src@, chunk.spec_n())
                },
                Ok(MaybeChunkDecompressor::EndOfData(rest)) => {
                    &&& spec_chunk_start(T::spec_number_type(), src@) == Ok::<
                        Option<ChunkMeta>,
                        PcoError,
                    >(None)
                    &&& rest@ == src@.skip(1)
                },
                Err(e) => spec_chunk_start(T::spec_number_type(), src@) == Err::<
                    Option<ChunkMeta>,
                    PcoError,
                >(e),
            },
    {
        let kind = T::number_type();
        let len = src.len();
        match self.peek_number_type_or_termination(src) {
            Err(e) => Err(e),
            Ok(NumberTypeOrTermination::Termination) => Ok(
                MaybeChunkDecompressor::EndOfData(&src[1..len]),
            ),
            Ok(NumberTypeOrTermination::Unknown(byte)) => Err(
                PcoError::UnknownNumberType { byte },
            ),
            Ok(NumberTypeOrTermination::Known(found)) => {
                if found != kind {
                    return Err(PcoError::NumberTypeMismatch { expected: kind, found });
                }
                if len < CHUNK_META_LEN {
                    return Err(PcoError::InsufficientData { available: len });
                }
                let count = read_le(src, 1, 8);
                proof {
                    lemma_le_value_bound(src@.subrange(1, 9));
                    lemma_pow256_below(8);
                }
                if count == 0 {
                    return Err(PcoError::EmptyChunk);
                }
                let order = src[9];
                if order as usize > MAX_DELTA_ENCODING_ORDER {
                    return Err(PcoError::DeltaOrder { declared: order });
                }
                let width = kind.byte_width();
                let available = len - CHUNK_META_LEN;
                let room = available / width;
                proof {
                    lemma_room(count as int, width as int, available as int);
                }
                if count > room as u64 {
                    return Err(PcoError::InsufficientData { available: len });
                }
                let page = &src[CHUNK_META_LEN..len];
                let levels: [u64; 7] = [0, 0, 0, 0, 0, 0, 0];
                proof {
                    let stored = spec_page_latents(page@, width as nat, count as nat);
                    assert(stored.take(0) =~= Seq::<u64>::empty());
                    lemma_levels_of_none(order as nat, kind.spec_max_latent(), levels@);
                    assert(page@.skip(count * width) =~= src@.skip(CHUNK_META_LEN + count * width));
                }
                let chunk = ChunkDecompressor {
                    page,
                    n: count as usize,
                    delta_encoding_order: order as usize,
                    cursor: Cursor { n_processed: 0, levels },
                    phantom: PhantomData,
                };
                Ok(MaybeChunkDecompressor::Chunk(chunk))
            },
        }
    }

    /// Reads the stream after its header to the end: the numbers of its one
    /// chunk, or no numbers where the stream ends at once.
    pub fn simple_decompress<T: Number>(&self, src: &[u8]) -> (r: Result<Vec<T>, PcoError>)
        ensures
            match r {
                Ok(nums) => {
                    &&& spec_decompress_chunks(T::spec_number_type(), src@) is Ok
                    &&& nums@ == numbers_of::<T>(
                        spec_decompress_chunks(T::spec_number_type(), src@)->Ok_0,
                    )
                },
                Err(e) => spec_decompress_chunks(T::spec_number_type(), src@) == Err::<
                    Seq<u64>,
                    PcoError,
                >(e),
            },
    {
        match self.chunk_decompressor::<T>(src) {
            Err(e) => Err(e),
            Ok(MaybeChunkDecompressor::EndOfData(_)) => {
                let nums: Vec<T> = Vec::new();
                assert(nums@ =~= numbers_of::<T>(Seq::<u64>::empty()));
                Ok(nums)
            },
            Ok(MaybeChunkDecompressor::Chunk(chunk)) => {
                let mut chunk = chunk;
                let mut nums: Vec<T> = Vec::new();
                let ghost numbers = chunk.numbers();
                chunk.decompress_remaining_extend(&mut nums);
                assert(nums@ =~= numbers);
                let rest = chunk.into_src();
                match self.peek_number_type_or_termination(rest) {
                    Err(e) => Err(e),
                    Ok(NumberTypeOrTermination::Termination) => Ok(nums),
                    Ok(NumberTypeOrTermination::Unknown(byte)) => Err(
                        PcoError::UnknownNumberType { byte },
                    ),
                    Ok(NumberTypeOrTermination::Known(found)) => Err(
                        PcoError::ExtraChunk { found },
                    ),
                }
            },
        }
    }
}

/// As many latents of `width` bytes as fit in `available` bytes are `available
/// / width`.
proof fn lemma_room(count: int, width: int, available: int)
    requires
        0 <= count,
        0 < width,
        0 <= available,
    ensures
        count * width > available <==> count > available / width,
{
    vstd::arithmetic::div_mod::lemma_fundamental_div_mod(available, width);
    let q = available / width;
    let r = available % width;
    assert(0 <= r < width);
    if count > q {
        assert(count * width >= (q + 1) * width) by (nonlinear_arith)
            requires
                count >= q + 1,
                width > 0,
        ;
        assert((q + 1) * width == width * q + width) by (nonlinear_arith);
    } else {
        assert(count * width <= q * width) by (nonlinear_arith)
            requires
                count <= q,
                width > 0,
        ;
        assert(q * width == width * q) by (nonlinear_arith);
    }
}

/// How far a chunk has been read, and the running sums of each order up to
/// there.
#[derive(Clone, Copy)]
struct Cursor {
    n_processed: usize,
    levels: [u64; 7],
}

/// A chunk that is being read: numbers of the type `T`, given out in order,
/// as many at a time as the caller has room for.
pub struct ChunkDecompressor<'a, T: Number> {
    /// The stream from the first byte of the chunk's page on.
    page: &'a [u8],
    n: usize,
    delta_encoding_order: usize,
    cursor: Cursor,
    phantom: PhantomData<T>,
}

/// A chunk to read, or the end of the stream.
pub enum MaybeChunkDecompressor<'a, T: Number> {
    /// A chunk begins here.
    Chunk(ChunkDecompressor<'a, T>),
    /// The stream ends here. What follows the byte that ends it is handed
    /// back.
    EndOfData(&'a [u8]),
}

/// How many numbers a pull gives: all that the caller has room for, or all that
/// are left, whichever is less.
pub open spec fn spec_pull(n: nat, n_processed: nat, room: nat) -> nat {
    if room < n - n_processed {
        room
    } else {
        (n - n_processed) as nat
    }
}

impl<'a, T: Number> ChunkDecompressor<'a, T> {
    #[verifier::type_invariant]
    spec fn well_formed(self) -> bool {
        &&& 1 <= self.n
        &&& self.cursor.n_processed <= self.n
        &&& self.n * T::spec_number_type().spec_byte_width() <= self.page@.len()
        &&& self.delta_encoding_order <= MAX_DELTA_ENCODING_ORDER
        &&& self.levels_at(self.cursor.levels@, self.cursor.n_processed as int)
    }

    /// Whether `levels` holds the running sums of each order after the
    /// first `index` latents of the page.
    closed spec fn levels_at(&self, levels: Seq<u64>, index: int) -> bool {
        levels.take(self.delta_encoding_order as int) == spec_levels(
            self.stored().take(index),
            self.delta_encoding_order as nat,
            T::spec_number_type().spec_max_latent(),
        )
    }

    /// The latents of the page, as they are stored.
    closed spec fn stored(&self) -> Seq<u64> {
        spec_page_latents(
            self.page@,
            T::spec_number_type().spec_byte_width() as nat,
            self.n as nat,
        )
    }

    /// What the chunk says of itself before its page.
    pub closed spec fn meta(&self) -> ChunkMeta {
        ChunkMeta { n: self.n as nat, delta_encoding_order: self.delta_encoding_order as nat }
    }

    /// The latents of all the numbers of the chunk.
    pub closed spec fn latents(&self) -> Seq<u64> {
        spec_undelta_n(
            self.stored(),
            self.delta_encoding_order as nat,
            T::spec_number_type().spec_max_latent(),
        )
    }

    /// All the numbers of the chunk.
    pub open spec fn numbers(&self) -> Seq<T> {
        numbers_of(self.latents())
    }

    /// How many numbers the chunk holds.
    pub open spec fn spec_n(&self) -> nat {
        self.meta().n
    }

    /// The order of the delta encoding of the chunk.
    pub open spec fn spec_delta_encoding_order(&self) -> nat {
        self.meta().delta_encoding_order
    }

    /// How many numbers have been given out.
    pub closed spec fn spec_n_processed(&self) -> nat {
        self.cursor.n_processed as nat
    }

    /// The bytes of the stream that have not been read: what is left of the
    /// page, and what follows the chunk.
    pub closed spec fn unread(&self) -> Seq<u8> {
        self.page@.skip(self.cursor.n_processed * T::spec_number_type().spec_byte_width())
    }

    /// The bytes of the stream that follow the chunk.
    pub closed spec fn rest(&self) -> Seq<u8> {
        self.page@.skip(self.n * T::spec_number_type().spec_byte_width())
    }

    /// Whether all the numbers have been given out.
    pub open spec fn spec_finished(&self) -> bool {
        self.spec_n_processed() == self.spec_n()
    }

    /// How many numbers the chunk holds.
    pub fn n(&self) -> (r: usize)
        ensures
            r == self.spec_n(),
            1 <= r,
            self.numbers().len() == r,
    {
        proof {
            use_type_invariant(self);
            lemma_undelta_n_len(
                self.stored(),
                self.delta_encoding_order as nat,
                T::spec_number_type().spec_max_latent(),
            );
        }
        self.n
    }

    /// How many numbers have been given out.
    pub fn n_processed(&self) -> (r: usize)
        ensures
            r == self.spec_n_processed(),
            r <= self.spec_n(),
    {
        proof {
            use_type_invariant(self);
        }
        self.cursor.n_processed
    }

    /// The order of the delta encoding of the chunk, as the chunk itself
    /// says it.
    pub fn delta_encoding_order(&self) -> (r: usize)
        ensures
            r == self.spec_delta_encoding_order(),
            r <= MAX_DELTA_ENCODING_ORDER,
    {
        proof {
            use_type_invariant(self);
        }
        self.delta_encoding_order
    }

    /// Reads the number at `index` of the chunk, where `levels` holds the
    /// running sums up to it, and brings them up to date.
    fn next_number(&self, index: usize, levels: &mut [u64; 7]) -> (r: T)
        requires
            index < self.spec_n(),
            self.levels_at(old(levels)@, index as int),
        ensures
            r == self.numbers()[index as int],
            self.levels_at(final(levels)@, index + 1),
    {
        proof {
            use_type_invariant(self);
        }
        let kind = T::number_type();
        let width = kind.byte_width();
        let max = kind.max_latent();
        let order = self.delta_encoding_order;
        let len = self.page.len();
        let ghost seen = self.stored().take(index as int);
        let ghost before = levels@;
        proof {
            lemma_page_slot(index as int, self.n as int, width as nat);
            lemma_le_value_bound(
                self.page@.subrange(index * width, (index + 1) * width),
            );
            lemma_pow256_below(width as nat);
            lemma_pow256_values();
            assert forall|i: int| 0 <= i < self.stored().len() implies #[trigger] self.stored()[i]
                <= max by {
                lemma_page_latents_fit(self.page@, width as nat, self.n as nat, i);
            }
            assert(self.stored()[index as int] <= max);
            assert(spec_fits(seen, max)) by {
                assert forall|i: int| 0 <= i < seen.len() implies #[trigger] seen[i] <= max by {
                    assert(self.stored()[i] <= max);
                }
            }
            lemma_levels_fit(seen, order as nat, max);
        }
        let stored = read_le(self.page, index * width, width);
        let latent = undelta_next(levels, order, stored, max);
        proof {
            assert(self.stored().take(index + 1) =~= seen.push(stored));
            lemma_next_levels(seen, stored, order as nat, max, before);
            lemma_undelta_n_take(self.stored(), order as nat, max, index + 1);
            assert(self.latents().take(index + 1).last() == self.latents()[index as int]);
        }
        T::from_latent_ordered(latent)
    }

    /// Writes the next numbers of the chunk to the front of `dst`: as many as
    /// `dst` has room for, or all that are left. The rest of `dst` stays as it
    /// is. A chunk that has given out all its numbers gives an error, and
    /// nothing changes.
    pub fn decompress(&mut self, dst: &mut [T]) -> (r: Result<Progress, PcoError>)
        ensures
            final(self).latents() == old(self).latents(),
            final(self).meta() == old(self).meta(),
            final(self).rest() == old(self).rest(),
            match r {
                Ok(progress) => {
                    &&& !old(self).spec_finished()
                    &&& progress.n_processed == spec_pull(
                        old(self).spec_n(),
                        old(self).spec_n_processed(),
                        old(dst)@.len(),
                    )
                    &&& final(self).spec_n_processed() == old(self).spec_n_processed()
                        + progress.n_processed
                    &&& progress.finished == final(self).spec_finished()
                    &&& final(dst)@ == old(self).numbers().subrange(
                        old(self).spec_n_processed() as int,
                        final(self).spec_n_processed() as int,
                    ) + old(dst)@.skip(progress.n_processed as int)
                },
                Err(e) => {
                    &&& old(self).spec_finished()
                    &&& e == PcoError::ChunkFinished
                    &&& final(self).spec_n_processed() == old(self).spec_n_processed()
                    &&& final(dst)@ == old(dst)@
                },
            },
    {
        proof {
            use_type_invariant(&*self);
            lemma_undelta_n_len(
                self.stored(),
                self.delta_encoding_order as nat,
                T::spec_number_type().spec_max_latent(),
            );
        }
        if self.cursor.n_processed == self.n {
            return Err(PcoError::ChunkFinished);
        }
        let start = self.cursor.n_processed;
        let mut levels = self.cursor.levels;
        let left = self.n - start;
        let batch = if dst.len() < left {
            dst.len()
        } else {
            left
        };
        let ghost numbers = self.numbers();
        let mut i: usize = 0;
        while i < batch
            invariant
                i <= batch,
                batch <= dst@.len(),
                dst@.len() == old(dst)@.len(),
                start + batch <= self.spec_n(),
                numbers == self.numbers(),
                numbers.len() == self.spec_n(),
                dst@ == numbers.subrange(start as int, start + i) + old(dst)@.skip(i as int),
                self.levels_at(levels@, start + i),
            decreases batch - i,
        {
            let number = self.next_number(start + i, &mut levels);
            dst[i] = number;
            assert(dst@ =~= numbers.subrange(start as int, start + i + 1) + old(dst)@.skip(
                i + 1,
            ));
            i += 1;
        }
        self.cursor = Cursor { n_processed: start + batch, levels };
        Ok(Progress { n_processed: batch, finished: self.cursor.n_processed == self.n })
    }

    /// Appends all the numbers that are left to `dst`.
    pub fn decompress_remaining_extend(&mut self, dst: &mut Vec<T>)
        ensures
            final(self).latents() == old(self).latents(),
            final(self).meta() == old(self).meta(),
            final(self).rest() == old(self).rest(),
            final(self).spec_finished(),
            final(dst)@ == old(dst)@ + old(self).numbers().skip(
                old(self).spec_n_processed() as int,
            ),
    {
        proof {
            use_type_invariant(&*self);
            lemma_undelta_n_len(
                self.stored(),
                self.delta_encoding_order as nat,
                T::spec_number_type().spec_max_latent(),
            );
        }
        let ghost numbers = self.numbers();
        let ghost start = self.cursor.n_processed;
        let mut levels = self.cursor.levels;
        let mut i: usize = self.cursor.n_processed;
        while i < self.n
            invariant
                start <= i <= self.spec_n(),
                numbers == self.numbers(),
                numbers.len() == self.spec_n(),
                dst@ == old(dst)@ + numbers.subrange(start as int, i as int),
                self.levels_at(levels@, i as int),
            decreases self.n - i,
        {
            let number = self.next_number(i, &mut levels);
            dst.push(number);
            assert(dst@ =~= old(dst)@ + numbers.subrange(start as int, i + 1));
            i += 1;
        }
        assert(numbers.subrange(start as int, self.n as int) =~= numbers.skip(start as int));
        self.cursor = Cursor { n_processed: self.n, levels };
    }

    /// Ends the reading of the chunk and hands back the bytes of the stream
    /// that have not been read. After the last number, those are the bytes that
    /// follow the chunk.
    pub fn into_src(self) -> (r: &'a [u8])
        ensures
            r@ == self.unread(),
            self.spec_finished() ==> r@ == self.rest(),
    {
        proof {
            use_type_invariant(&self);
        }
        let width = T::number_type().byte_width();
        let len = self.page.len();
        proof {
            if self.cursor.n_processed < self.n {
                lemma_page_slot(self.cursor.n_processed as int, self.n as int, width as nat);
            }
        }
        &self.page[self.cursor.n_processed * width..len]
    }
}

/// The latents of numbers, in order.
fn latents_to_vec<T: Number>(nums: &[T]) -> (r: Vec<u64>)
    ensures
        r@ == latents_of(nums@),
        spec_fits(r@, T::spec_number_type().spec_max_latent()),
{
    let mut latents: Vec<u64> = Vec::new();
    let mut i: usize = 0;
    while i < nums.len()
        invariant
            i <= nums@.len(),
            latents@ == latents_of(nums@).take(i as int),
            spec_fits(latents@, T::spec_number_type().spec_max_latent()),
        decreases nums.len() - i,
    {
        proof {
            T::lemma_latent_round_trip(nums@[i as int]);
        }
        latents.push(nums[i].to_latent_ordered());
        assert(latents@ =~= latents_of(nums@).take(i + 1));
        i += 1;
    }
    assert(latents_of(nums@).take(i as int) =~= latents_of(nums@));
    latents
}

/// Writes a whole stream for `nums`: a header with their count as the hint,
/// one chunk that holds them all unless there are none, delta encoded in the
/// order that the settings ask for, and the byte that ends the stream.
/// Settings that are not valid are refused, and nothing is written.
pub fn simple_compress<T: Number>(nums: &[T], config: &ChunkConfig) -> (r: Result<
    Vec<u8>,
    PcoError,
>)
    ensures
        match r {
            Ok(bytes) => {
                &&& config.spec_valid()
                &&& bytes@ == spec_file(
                    T::spec_number_type(),
                    config.delta_encoding_order as nat,
                    latents_of(nums@),
                )
            },
            Err(e) => config.spec_validate() == Err::<(), PcoError>(e),
        },
{
    match config.validate() {
        Err(e) => {
            return Err(e);
        },
        Ok(()) => {},
    }
    let n = nums.len();
    let kind = T::number_type();
    let width = kind.byte_width();
    let order = config.delta_encoding_order;
    let ghost latents = latents_of(nums@);
    let mut dst: Vec<u8> = Vec::new();
    dst.push(112);
    dst.push(99);
    dst.push(111);
    dst.push(33);
    dst.push(FORMAT_VERSION);
    write_le(&mut dst, n as u64, 8);
    assert(dst@ =~= spec_header(n as u64));
    if n > 0 {
        let mut stored = latents_to_vec(nums);
        delta_encode(&mut stored, order, kind.max_latent());
        proof {
            lemma_delta_n_len(latents, order as nat, kind.spec_max_latent());
        }
        dst.push(kind.descriminant());
        write_le(&mut dst, n as u64, 8);
        dst.push(order as u8);
        let ghost front = dst@;
        let mut i: usize = 0;
        while i < n
            invariant
                i <= n == stored@.len(),
                width == kind.spec_byte_width() <= 8,
                dst@ == front + spec_page(stored@.take(i as int), width as nat),
            decreases n - i,
        {
            write_le(&mut dst, stored[i], width);
            proof {
                let next = stored@.take(i + 1);
                assert(next.drop_last() =~= stored@.take(i as int));
                assert(next.last() == stored@[i as int]);
                assert(dst@ =~= front + spec_page(next, width as nat));
            }
            i += 1;
        }
        assert(stored@.take(n as int) =~= stored@);
        assert(dst@ =~= spec_header(n as u64) + spec_chunk(kind, order as nat, latents));
    }
    dst.push(MAGIC_TERMINATION_BYTE);
    assert(dst@ =~= spec_file(kind, order as nat, latents));
    Ok(dst)
}

/// Reads a whole stream as numbers of the type `T`: the header, the one
/// chunk, and the end. A stream that ends right after its header holds no
/// numbers.
pub fn simple_decompress<T: Number>(src: &[u8]) -> (r: Result<Vec<T>, PcoError>)
    ensures
        match r {
            Ok(nums) => {
                &&& spec_simple_decompress(T::spec_number_type(), src@) is Ok
                &&& nums@ == numbers_of::<T>(
                    spec_simple_decompress(T::spec_number_type(), src@)->Ok_0,
                )
            },
            Err(e) => spec_simple_decompress(T::spec_number_type(), src@) == Err::<
                Seq<u64>,
                PcoError,
            >(e),
        },
{
    match FileDecompressor::new(src) {
        Err(e) => Err(e),
        Ok((file_decompressor, rest)) => file_decompressor.simple_decompress::<T>(rest),
    }
}

/// Whether every latent fits the width of the kind.
pub open spec fn spec_latents_fit(kind: NumberType, latents: Seq<u64>) -> bool {
    forall|i: int| 0 <= i < latents.len() ==> #[trigger] latents[i] <= kind.spec_max_latent()
}

/// Whatever is read from a stream are latents that fit the width of the kind.
pub proof fn lemma_decompressed_latents_fit(kind: NumberType, src: Seq<u8>)
    requires
        spec_decompress_chunks(kind, src) is Ok,
    ensures
        spec_latents_fit(kind, spec_decompress_chunks(kind, src)->Ok_0),
{
    let width = kind.spec_byte_width() as nat;
    let max = kind.spec_max_latent();
    let latents = spec_decompress_chunks(kind, src)->Ok_0;
    if spec_chunk_start(kind, src) is Ok && spec_chunk_start(kind, src)->Ok_0 is Some {
        let meta = spec_chunk_start(kind, src)->Ok_0->Some_0;
        let page = src.skip(CHUNK_META_LEN as int);
        let stored = spec_chunk_stored(width, src, meta.n);
        lemma_pow256_values();
        assert forall|i: int| 0 <= i < stored.len() implies #[trigger] stored[i] <= max by {
            lemma_page_latents_fit(page, width, meta.n, i);
        }
        lemma_undelta_n_len(stored, meta.delta_encoding_order, max);
    }
}

/// A header is read back as written, whatever follows it.
pub proof fn lemma_header_round_trip(n_hint: u64, tail: Seq<u8>)
    ensures
        spec_header(n_hint).len() == HEADER_LEN,
        spec_parse_header(spec_header(n_hint) + tail) == Ok::<u64, PcoError>(n_hint),
        (spec_header(n_hint) + tail).skip(HEADER_LEN as int) == tail,
{
    let count = spec_le_bytes(n_hint as nat, 8);
    let src = spec_header(n_hint) + tail;
    lemma_le_bytes_len(n_hint as nat, 8);
    lemma_pow256_values();
    lemma_le_round_trip(n_hint as nat, 8);
    assert(src.subrange(5, 13) =~= count);
    assert(src.skip(HEADER_LEN as int) =~= tail);
}

/// A chunk is read back as written, whatever follows it: its kind, its count,
/// its order, its latents and what follows.
pub proof fn lemma_chunk_round_trip(kind: NumberType, order: nat, latents: Seq<u64>, tail: Seq<u8>)
    requires
        0 < latents.len() <= u64::MAX,
        order <= MAX_DELTA_ENCODING_ORDER,
        spec_latents_fit(kind, latents),
    ensures
        spec_chunk_start(kind, spec_chunk(kind, order, latents) + tail) == Ok::<
            Option<ChunkMeta>,
            PcoError,
        >(Some(ChunkMeta { n: latents.len(), delta_encoding_order: order })),
        spec_chunk_latents(
            kind,
            spec_chunk(kind, order, latents) + tail,
            ChunkMeta { n: latents.len(), delta_encoding_order: order },
        ) == latents,
        spec_chunk_rest(
            kind.spec_byte_width() as nat,
            spec_chunk(kind, order, latents) + tail,
            latents.len(),
        ) == tail,
{
    let width = kind.spec_byte_width() as nat;
    let max = kind.spec_max_latent();
    let n = latents.len();
    let count = spec_le_bytes(n, 8);
    let stored = spec_delta_n(latents, order, max);
    let page = spec_page(stored, width);
    let src = spec_chunk(kind, order, latents) + tail;
    lemma_le_bytes_len(n, 8);
    lemma_pow256_values();
    lemma_le_round_trip(n, 8);
    lemma_delta_n_len(latents, order, max);
    lemma_page_len(stored, width);
    NumberType::lemma_descriminant_of_kind(kind);
    assert(src[0] == kind.spec_descriminant());
    assert(src.subrange(1, 9) =~= count);
    assert(src[9] == order as u8);
    assert(src.skip(CHUNK_META_LEN as int) =~= page + tail);
    assert(src.skip(CHUNK_META_LEN + n * width) =~= tail);
    assert forall|i: int| 0 <= i < n implies (#[trigger] stored[i] as nat) < spec_pow256(
        width,
    ) by {
        assert(stored[i] <= max);
    }
    lemma_page_round_trip(stored, width, tail);
    lemma_undelta_delta_n(latents, order, max);
}

/// What is written for a sequence of latents is read back as that sequence,
/// whatever the order of delta encoding. In particular the stream written for
/// no numbers is read as no numbers.
pub proof fn lemma_file_round_trip(kind: NumberType, order: nat, latents: Seq<u64>)
    requires
        latents.len() <= u64::MAX,
        order <= MAX_DELTA_ENCODING_ORDER,
        spec_latents_fit(kind, latents),
    ensures
        spec_simple_decompress(kind, spec_file(kind, order, latents)) == Ok::<
            Seq<u64>,
            PcoError,
        >(latents),
{
    let end = seq![MAGIC_TERMINATION_BYTE];
    if latents.len() == 0 {
        lemma_header_round_trip(0, end);
        assert(latents =~= Seq::<u64>::empty());
    } else {
        let tail = spec_chunk(kind, order, latents) + end;
        lemma_header_round_trip(latents.len() as u64, tail);
        lemma_chunk_round_trip(kind, order, latents, end);
    }
}

/// The numbers that go into a stream are the numbers that come out of it.
pub proof fn lemma_numbers_round_trip<T: Number>(nums: Seq<T>, order: nat)
    requires
        nums.len() <= u64::MAX,
        order <= MAX_DELTA_ENCODING_ORDER,
    ensures
        spec_simple_decompress(
            T::spec_number_type(),
            spec_file(T::spec_number_type(), order, latents_of(nums)),
        ) == Ok::<Seq<u64>, PcoError>(latents_of(nums)),
        numbers_of::<T>(latents_of(nums)) == nums,
{
    let latents = latents_of(nums);
    assert forall|i: int| 0 <= i < nums.len() implies #[trigger] latents[i]
        <= T::spec_number_type().spec_max_latent() && T::spec_from_latent_ordered(latents[i])
        == nums[i] by {
        T::lemma_latent_round_trip(nums[i]);
    }
    lemma_file_round_trip(T::spec_number_type(), order, latents);
    assert(numbers_of::<T>(latents) =~= nums);
}

/// Where the stream ends, a peek says so: it finds neither a kind nor an
/// unknown tag.
pub proof fn lemma_peek_at_termination(src: Seq<u8>)
    requires
        src.len() > 0,
        src[0] == MAGIC_TERMINATION_BYTE,
    ensures
        spec_peek(src) == Ok::<NumberTypeOrTermination, PcoError>(
            NumberTypeOrTermination::Termination,
        ),
{
}

/// A stream of one chunk whose tag is overwritten with a byte that is the tag
/// of no kind, and not the end of the stream, is refused with that very byte.
pub proof fn lemma_unknown_tag(kind: NumberType, order: nat, latents: Seq<u64>, byte: u8)
    requires
        0 < latents.len() <= u64::MAX,
        byte != MAGIC_TERMINATION_BYTE,
        NumberType::spec_from_descriminant(byte) is None,
    ensures
        spec_file(kind, order, latents)[HEADER_LEN as int] == kind.spec_descriminant(),
        spec_simple_decompress(
            kind,
            spec_file(kind, order, latents).update(HEADER_LEN as int, byte),
        ) == Err::<Seq<u64>, PcoError>(PcoError::UnknownNumberType { byte }),
{
    let end = seq![MAGIC_TERMINATION_BYTE];
    let tail = spec_chunk(kind, order, latents) + end;
    let file = spec_file(kind, order, latents);
    let n_hint = latents.len() as u64;
    lemma_header_round_trip(n_hint, tail);
    let bad = file.update(HEADER_LEN as int, byte);
    let bad_tail = tail.update(0, byte);
    assert(bad =~= spec_header(n_hint) + bad_tail);
    lemma_header_round_trip(n_hint, bad_tail);
}

/// What a session of pulls gives out in all: what each pull writes, one after
/// another. The session starts at `n_processed`, and `rooms` holds the room
/// of each pull's destination in turn.
pub open spec fn spec_session(latents: Seq<u64>, n_processed: nat, rooms: Seq<nat>) -> Seq<u64>
    decreases rooms.len(),
{
    if rooms.len() == 0 {
        Seq::empty()
    } else {
        let given = spec_pull(latents.len(), n_processed, rooms[0]);
        latents.subrange(n_processed as int, (n_processed + given) as int) + spec_session(
            latents,
            n_processed + given,
            rooms.drop_first(),
        )
    }
}

/// How many numbers of a chunk of `n` have been given out after a session of
/// pulls.
pub open spec fn spec_session_end(n: nat, n_processed: nat, rooms: Seq<nat>) -> nat
    decreases rooms.len(),
{
    if rooms.len() == 0 {
        n_processed
    } else {
        spec_session_end(n, n_processed + spec_pull(n, n_processed, rooms[0]), rooms.drop_first())
    }
}

/// A session of pulls gives out the numbers of the chunk in order and without
/// a gap, from where it starts to where it ends, however the room is split.
pub proof fn lemma_session(latents: Seq<u64>, n_processed: nat, rooms: Seq<nat>)
    requires
        n_processed <= latents.len(),
    ensures
        n_processed <= spec_session_end(latents.len(), n_processed, rooms) <= latents.len(),
        spec_session(latents, n_processed, rooms) == latents.subrange(
            n_processed as int,
            spec_session_end(latents.len(), n_processed, rooms) as int,
        ),
    decreases rooms.len(),
{
    if rooms.len() > 0 {
        let given = spec_pull(latents.len(), n_processed, rooms[0]);
        lemma_session(latents, n_processed + given, rooms.drop_first());
    }
    assert(spec_session(latents, n_processed, rooms) =~= latents.subrange(
        n_processed as int,
        spec_session_end(latents.len(), n_processed, rooms) as int,
    ));
}

/// Reading the chunk of a stream pull by pull until it is finished gives the
/// same numbers as reading the stream at once, however the room is split
/// among the pulls.
pub proof fn lemma_streaming_equivalence(
    kind: NumberType,
    src: Seq<u8>,
    meta: ChunkMeta,
    rooms: Seq<nat>,
)
    requires
        spec_parse_header(src) is Ok,
        spec_chunk_start(kind, src.skip(HEADER_LEN as int)) == Ok::<Option<ChunkMeta>, PcoError>(
            Some(meta),
        ),
        spec_simple_decompress(kind, src) is Ok,
        spec_session_end(meta.n, 0, rooms) == meta.n,
    ensures
        spec_session(spec_chunk_latents(kind, src.skip(HEADER_LEN as int), meta), 0, rooms)
            == spec_simple_decompress(kind, src)->Ok_0,
{
    let latents = spec_chunk_latents(kind, src.skip(HEADER_LEN as int), meta);
    lemma_undelta_n_len(
        spec_chunk_stored(kind.spec_byte_width() as nat, src.skip(HEADER_LEN as int), meta.n),
        meta.delta_encoding_order,
        kind.spec_max_latent(),
    );
    lemma_session(latents, 0, rooms);
    assert(latents.subrange(0, meta.n as int) =~= latents);
}

} // verus!
