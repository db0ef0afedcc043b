//! What the bindings for Java decide: how the failures of the codec become
//! exceptions, what the bytes and integers of Java stand for, and how a call
//! from Java is carried out on the erased container. The calls into the Java
//! machine themselves are made by the code around this library.

use crate::config::ChunkConfig;
use crate::data_types::{lemma_latents_of_numbers, Number, NumberType, NumberTypeFn};
use crate::delta::MAX_DELTA_ENCODING_ORDER;
use crate::errors::{ErrorKind, PcoError};
use crate::num_vec::{lemma_erase_view, NumVec, NumVecFn};
use crate::standalone::{
    lemma_chunk_round_trip, lemma_decompressed_latents_fit, lemma_file_round_trip,
    lemma_header_round_trip, simple_compress, spec_chunk, spec_decompress_chunks, spec_file,
    spec_header, spec_parse_header, spec_peek, FileDecompressor, NumberTypeOrTermination,
    HEADER_LEN, MAGIC_TERMINATION_BYTE,
};
use crate::text::{push_decimal, spec_decimal};
use vstd::prelude::*;
use vstd::string::*;

verus! {

/// The kinds of exception that the bindings raise.
#[derive(Clone, Copy, Debug, PartialEq, Eq, Structural)]
pub enum ExceptionKind {
    InvalidArgument,
    Io,
    Runtime,
}

/// An exception to raise in Java: its kind and its message.
#[derive(Clone, Debug)]
pub struct Exception {
    pub kind: ExceptionKind,
    pub msg: String,
}

/// What a call from Java ends with.
pub enum Handled<T> {
    /// The call returns this value.
    Return(T),
    /// The call raises an exception of the class with this descriptor and this
    /// message, and returns the null object.
    Throw { descriptor: &'static str, msg: String },
}

impl ExceptionKind {
    /// The kind of exception for a kind of failure: failures of the caller's
    /// arguments and of reading and writing keep their kind, all others are
    /// failures at run time.
    pub open spec fn spec_of(kind: ErrorKind) -> ExceptionKind {
        match kind {
            ErrorKind::Io => ExceptionKind::Io,
            ErrorKind::InvalidArgument => ExceptionKind::InvalidArgument,
            _ => ExceptionKind::Runtime,
        }
    }

    /// The descriptor of the Java class of a kind of exception.
    pub open spec fn spec_descriptor(self) -> Seq<char> {
        match self {
            ExceptionKind::InvalidArgument => "java/lang/IllegalArgumentException"@,
            ExceptionKind::Io => "java/io/IOException"@,
            ExceptionKind::Runtime => "java/lang/RuntimeException"@,
        }
    }

    /// The kind of exception for a kind of failure.
    pub fn of(kind: ErrorKind) -> (r: ExceptionKind)
        ensures
            r == Self::spec_of(kind),
    {
        match kind {
            ErrorKind::Io => ExceptionKind::Io,
            ErrorKind::InvalidArgument => ExceptionKind::InvalidArgument,
            _ => ExceptionKind::Runtime,
        }
    }

    /// The descriptor of the Java class of this kind of exception.
    pub fn descriptor(self) -> (r: &'static str)
        ensures
            r@ == self.spec_descriptor(),
    {
        match self {
            ExceptionKind::InvalidArgument => "java/lang/IllegalArgumentException",
            ExceptionKind::Io => "java/io/IOException",
            ExceptionKind::Runtime => "java/lang/RuntimeException",
        }
    }
}

/// The kind and the message of the exception for a failure of the codec.
pub open spec fn spec_exception(e: PcoError) -> (ExceptionKind, Seq<char>) {
    (ExceptionKind::spec_of(e.spec_kind()), e.spec_message())
}

/// The kind and the message of the exception for a tag of no known kind where
/// the first chunk of a stream is expected.
pub open spec fn spec_unrecognized(byte: u8) -> (ExceptionKind, Seq<char>) {
    (ExceptionKind::Runtime, "unrecognized pco number type byte "@ + spec_decimal(byte as nat))
}

impl Exception {
    /// The kind and the message of this exception.
    pub open spec fn view(&self) -> (ExceptionKind, Seq<char>) {
        (self.kind, self.msg@)
    }

    /// The exception for a failure of the codec: the kind of exception that
    /// stands for the failure's kind, with the failure's message.
    pub fn from(value: PcoError) -> (r: Exception)
        ensures
            r@ == spec_exception(value),
    {
        Exception { kind: ExceptionKind::of(value.kind()), msg: value.message() }
    }

    /// The exception for a failure of the bridge to Java itself, with the
    /// bridge's own message.
    pub fn runtime(msg: String) -> (r: Exception)
        ensures
            r@ == (ExceptionKind::Runtime, msg@),
    {
        Exception { kind: ExceptionKind::Runtime, msg }
    }
}

/// Decides how a call from Java ends: with the value, or with an exception of
/// the class that stands for the failure's kind.
pub fn handle_result<T>(result: Result<T, Exception>) -> (r: Handled<T>)
    ensures
        match result {
            Ok(inner) => r == Handled::Return(inner),
            Err(e) => r matches Handled::Throw { descriptor, msg } && descriptor@
                == e.kind.spec_descriptor() && msg == e.msg,
        },
{
    match result {
        Ok(inner) => Handled::Return(inner),
        Err(e) => Handled::Throw { descriptor: e.kind.descriptor(), msg: e.msg },
    }
}

/// The kind that a Java byte names. Java's bytes are signed: a negative one
/// names no kind.
pub fn number_type_from_java(number_type_byte: i8) -> (r: Option<NumberType>)
    ensures
        number_type_byte < 0 ==> r is None,
        number_type_byte >= 0 ==> r == NumberType::spec_from_descriminant(number_type_byte as u8),
{
    if number_type_byte < 0 {
        None
    } else {
        NumberType::from_descriminant(number_type_byte as u8)
    }
}

/// The Java byte that names a kind.
pub fn number_type_to_java(kind: NumberType) -> (r: i8)
    ensures
        r == kind.spec_descriminant(),
{
    kind.descriminant() as i8
}

/// The compression level that a Java `int` stands for: itself, or for a
/// negative one the number it wraps to, which no valid level is.
pub open spec fn spec_level_from_java(compression_level: i32) -> usize {
    if compression_level >= 0 {
        compression_level as usize
    } else {
        (usize::MAX + 1 + compression_level) as usize
    }
}

/// The settings for a compression level that comes from Java.
pub fn chunk_config_from_java(compression_level: i32) -> (r: ChunkConfig)
    ensures
        r == (ChunkConfig {
            compression_level: spec_level_from_java(compression_level),
            delta_encoding_order: 0,
        }),
        r.spec_valid() <==> 0 <= compression_level <= 12,
{
    let level = if compression_level >= 0 {
        compression_level as usize
    } else {
        usize::MAX - ((-(compression_level + 1)) as usize)
    };
    ChunkConfig::default().with_compression_level(level)
}

/// Compresses a vector of numbers of any kind with the same settings.
struct Compress {
    chunk_config: ChunkConfig,
}

impl NumVecFn for Compress {
    type Output = Result<Vec<u8>, PcoError>;

    closed spec fn gives(
        &self,
        kind: NumberType,
        latents: Seq<u64>,
        out: Result<Vec<u8>, PcoError>,
    ) -> bool {
        match out {
            Ok(bytes) => {
                &&& self.chunk_config.spec_valid()
                &&& bytes@ == spec_file(
                    kind,
                    self.chunk_config.delta_encoding_order as nat,
                    latents,
                )
            },
            Err(e) => self.chunk_config.spec_validate() == Err::<(), PcoError>(e),
        }
    }

    fn call<T: Number>(&self, nums: &Vec<T>) -> (out: Result<Vec<u8>, PcoError>) {
        simple_compress(nums.as_slice(), &self.chunk_config)
    }
}

/// What compressing for Java gives: the whole stream for the numbers held,
/// or the exception for a compression level that is not valid.
pub fn simple_compress_inner(nums: &NumVec, compression_level: i32) -> (r: Result<
    Vec<u8>,
    Exception,
>)
    ensures
        match r {
            Ok(bytes) => {
                &&& 0 <= compression_level <= 12
                &&& bytes@ == spec_file(nums.spec_dtype(), 0, nums.latents())
            },
            Err(e) => {
                &&& !(0 <= compression_level <= 12)
                &&& e@ == spec_exception(
                    PcoError::CompressionLevel { level: spec_level_from_java(compression_level) },
                )
            },
        },
{
    let chunk_config = chunk_config_from_java(compression_level);
    match nums.dispatch(&Compress { chunk_config }) {
        Ok(bytes) => Ok(bytes),
        Err(e) => Err(Exception::from(e)),
    }
}

/// What a whole stream holds, for a reader that takes the kind from the
/// stream: nothing where it ends right after its header, else the kind and
/// the latents of its one chunk. A failure is given as the exception's kind
/// and message.
pub open spec fn spec_decompress_inner(src: Seq<u8>) -> Result<
    Option<(NumberType, Seq<u64>)>,
    (ExceptionKind, Seq<char>),
> {
    let rest = src.skip(HEADER_LEN as int);
    match spec_parse_header(src) {
        Err(e) => Err(spec_exception(e)),
        Ok(_) => match spec_peek(rest) {
            Err(e) => Err(spec_exception(e)),
            Ok(NumberTypeOrTermination::Termination) => Ok(None),
            Ok(NumberTypeOrTermination::Unknown(byte)) => Err(spec_unrecognized(byte)),
            Ok(NumberTypeOrTermination::Known(kind)) => match spec_decompress_chunks(kind, rest) {
                Err(e) => Err(spec_exception(e)),
                Ok(latents) => Ok(Some((kind, latents))),
            },
        },
    }
}

/// Whether `out` is what reading the one chunk of `src` as numbers of kind
/// `kind` gives: the numbers in a container of that kind, or the exception
/// for what is wrong with the stream.
pub open spec fn spec_decompress_chunks_inner(
    kind: NumberType,
    src: Seq<u8>,
    out: Result<Option<NumVec>, Exception>,
) -> bool {
    match out {
        Ok(Some(nums)) => spec_decompress_chunks(kind, src) == Ok::<Seq<u64>, PcoError>(
            nums.latents(),
        ) && nums.spec_dtype() == kind,
        Ok(None) => false,
        Err(exception) => spec_decompress_chunks(kind, src) matches Err(e) && exception@
            == spec_exception(e),
    }
}

/// Reads the one chunk of a stream as numbers of whichever type is asked for,
/// and erases them.
struct DecompressChunks<'a> {
    src: &'a [u8],
    file_decompressor: &'a FileDecompressor,
}

impl<'a> NumberTypeFn for DecompressChunks<'a> {
    type Output = Result<Option<NumVec>, Exception>;

    closed spec fn gives(&self, kind: NumberType, out: Result<Option<NumVec>, Exception>) -> bool {
        spec_decompress_chunks_inner(kind, self.src@, out)
    }

    fn call<T: Number>(&self) -> (out: Result<Option<NumVec>, Exception>) {
        match self.file_decompressor.simple_decompress::<T>(self.src) {
            Err(e) => Err(Exception::from(e)),
            Ok(nums) => {
                proof {
                    lemma_decompressed_latents_fit(T::spec_number_type(), self.src@);
                    lemma_latents_of_numbers::<T>(
                        spec_decompress_chunks(T::spec_number_type(), self.src@)->Ok_0,
                    );
                    lemma_erase_view(nums);
                }
                Ok(NumVec::new(nums))
            },
        }
    }
}

/// What decompressing for Java gives: nothing for a stream that ends right
/// after its header, else the numbers of its one chunk, of the kind that the
/// chunk's tag names.
pub fn simple_decompress_inner(src: &[u8]) -> (r: Result<Option<NumVec>, Exception>)
    ensures
        match r {
            Ok(None) => spec_decompress_inner(src@) == Ok::<
                Option<(NumberType, Seq<u64>)>,
                (ExceptionKind, Seq<char>),
            >(None),
            Ok(Some(nums)) => spec_decompress_inner(src@) == Ok::<
                Option<(NumberType, Seq<u64>)>,
                (ExceptionKind, Seq<char>),
            >(Some((nums.spec_dtype(), nums.latents()))),
            Err(exception) => spec_decompress_inner(src@) == Err::<
                Option<(NumberType, Seq<u64>)>,
                (ExceptionKind, Seq<char>),
            >(exception@),
        },
{
    let (file_decompressor, rest) = match FileDecompressor::new(src) {
        Ok(pair) => pair,
        Err(e) => {
            return Err(Exception::from(e));
        },
    };
    let maybe_number_type = match file_decompressor.peek_number_type_or_termination(rest) {
        Ok(maybe_number_type) => maybe_number_type,
        Err(e) => {
            return Err(Exception::from(e));
        },
    };
    match maybe_number_type {
        NumberTypeOrTermination::Known(number_type) => number_type.dispatch(
            &DecompressChunks { src: rest, file_decompressor: &file_decompressor },
        ),
        NumberTypeOrTermination::Termination => Ok(None),
        NumberTypeOrTermination::Unknown(other) => {
            let mut msg = String::from_str("unrecognized pco number type byte ");
            push_decimal(&mut msg, other as u64);
            Err(Exception { kind: ExceptionKind::Runtime, msg })
        },
    }
}

/// What is compressed from a container of numbers decompresses to a
/// container of the same kind with the same numbers, whatever the order of
/// delta encoding, and what is compressed from no numbers decompresses to
/// nothing.
pub proof fn lemma_inner_round_trip(nums: NumVec, order: nat)
    requires
        nums.spec_n() <= u64::MAX,
        order <= MAX_DELTA_ENCODING_ORDER,
    ensures
        spec_decompress_inner(spec_file(nums.spec_dtype(), order, nums.latents())) == (if nums
            .spec_n() == 0 {
            Ok::<Option<(NumberType, Seq<u64>)>, (ExceptionKind, Seq<char>)>(None)
        } else {
            Ok::<Option<(NumberType, Seq<u64>)>, (ExceptionKind, Seq<char>)>(
                Some((nums.spec_dtype(), nums.latents())),
            )
        }),
{
    let kind = nums.spec_dtype();
    let latents = nums.latents();
    let end = seq![MAGIC_TERMINATION_BYTE];
    nums.lemma_latents_fit();
    lemma_file_round_trip(kind, order, latents);
    if latents.len() == 0 {
        lemma_header_round_trip(0, end);
    } else {
        let tail = spec_chunk(kind, order, latents) + end;
        lemma_header_round_trip(latents.len() as u64, tail);
        lemma_chunk_round_trip(kind, order, latents, end);
        NumberType::lemma_descriminant_of_kind(kind);
        assert(tail[0] == kind.spec_descriminant());
    }
}

/// A stream of one chunk whose tag is overwritten with a byte that is the tag
/// of no kind, and not the end of the stream, gives a run-time exception
/// whose message ends in that byte, written in decimal.
pub proof fn lemma_inner_unknown_tag(kind: NumberType, order: nat, latents: Seq<u64>, byte: u8)
    requires
        0 < latents.len() <= u64::MAX,
        byte != MAGIC_TERMINATION_BYTE,
        NumberType::spec_from_descriminant(byte) is None,
    ensures
        spec_decompress_inner(spec_file(kind, order, latents).update(HEADER_LEN as int, byte))
            == Err::<Option<(NumberType, Seq<u64>)>, (ExceptionKind, Seq<char>)>(
            spec_unrecognized(byte),
        ),
{
    let end = seq![MAGIC_TERMINATION_BYTE];
    let tail = spec_chunk(kind, order, latents) + end;
    let n_hint = latents.len() as u64;
    lemma_header_round_trip(n_hint, tail);
    let bad = spec_file(kind, order, latents).update(HEADER_LEN as int, byte);
    let bad_tail = tail.update(0, byte);
    assert(bad =~= spec_header(n_hint) + bad_tail);
    lemma_header_round_trip(n_hint, bad_tail);
}

} // verus!
