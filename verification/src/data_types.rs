//! The registry of numeric kinds: which types the codec handles, the byte that
//! stands for each on the wire, and how a number of each kind maps to the
//! unsigned latent the codec stores.

use crate::num_vec::NumVec;
use vstd::prelude::*;

verus! {

/// One tag per registered numeric kind.
///
/// The byte of each kind is part of the wire format and never changes.
#[derive(Clone, Copy, Debug, PartialEq, Eq, Structural, Hash)]
pub enum NumberType {
    F16,
    F32,
    F64,
    I16,
    I32,
    I64,
    U16,
    U32,
    U64,
}

impl NumberType {
    /// The wire byte of a kind.
    pub open spec fn spec_descriminant(self) -> u8 {
        match self {
            NumberType::U32 => 1,
            NumberType::U64 => 2,
            NumberType::I32 => 3,
            NumberType::I64 => 4,
            NumberType::F32 => 5,
            NumberType::F64 => 6,
            NumberType::U16 => 7,
            NumberType::I16 => 8,
            NumberType::F16 => 9,
        }
    }

    /// The kind that a wire byte stands for, if any.
    pub open spec fn spec_from_descriminant(desc: u8) -> Option<NumberType> {
        if desc == 1 {
            Some(NumberType::U32)
        } else if desc == 2 {
            Some(NumberType::U64)
        } else if desc == 3 {
            Some(NumberType::I32)
        } else if desc == 4 {
            Some(NumberType::I64)
        } else if desc == 5 {
            Some(NumberType::F32)
        } else if desc == 6 {
            Some(NumberType::F64)
        } else if desc == 7 {
            Some(NumberType::U16)
        } else if desc == 8 {
            Some(NumberType::I16)
        } else if desc == 9 {
            Some(NumberType::F16)
        } else {
            None
        }
    }

    /// The width of a kind in bits.
    pub open spec fn spec_bits(self) -> u32 {
        match self {
            NumberType::F16 | NumberType::I16 | NumberType::U16 => 16,
            NumberType::F32 | NumberType::I32 | NumberType::U32 => 32,
            NumberType::F64 | NumberType::I64 | NumberType::U64 => 64,
        }
    }

    /// The number of bytes one number of a kind takes on the wire.
    pub open spec fn spec_byte_width(self) -> usize {
        match self {
            NumberType::F16 | NumberType::I16 | NumberType::U16 => 2,
            NumberType::F32 | NumberType::I32 | NumberType::U32 => 4,
            NumberType::F64 | NumberType::I64 | NumberType::U64 => 8,
        }
    }

    /// The largest latent of a kind: all of its bits set.
    pub open spec fn spec_max_latent(self) -> u64 {
        match self {
            NumberType::F16 | NumberType::I16 | NumberType::U16 => 0xffff,
            NumberType::F32 | NumberType::I32 | NumberType::U32 => 0xffff_ffff,
            NumberType::F64 | NumberType::I64 | NumberType::U64 => 0xffff_ffff_ffff_ffff,
        }
    }

    /// The name of a kind: that of its type.
    pub open spec fn spec_name(self) -> Seq<char> {
        match self {
            NumberType::F16 => "f16"@,
            NumberType::F32 => "f32"@,
            NumberType::F64 => "f64"@,
            NumberType::I16 => "i16"@,
            NumberType::I32 => "i32"@,
            NumberType::I64 => "i64"@,
            NumberType::U16 => "u16"@,
            NumberType::U32 => "u32"@,
            NumberType::U64 => "u64"@,
        }
    }

    /// The name of this kind: that of its type.
    pub fn name(self) -> (r: &'static str)
        ensures
            r@ == self.spec_name(),
    {
        match self {
            NumberType::F16 => "f16",
            NumberType::F32 => "f32",
            NumberType::F64 => "f64",
            NumberType::I16 => "i16",
            NumberType::I32 => "i32",
            NumberType::I64 => "i64",
            NumberType::U16 => "u16",
            NumberType::U32 => "u32",
            NumberType::U64 => "u64",
        }
    }

    /// The largest latent of this kind: all of its bits set.
    #[verifier::when_used_as_spec(spec_max_latent)]
    pub fn max_latent(self) -> (r: u64)
        ensures
            r == self.spec_max_latent(),
    {
        match self {
            NumberType::F16 | NumberType::I16 | NumberType::U16 => 0xffff,
            NumberType::F32 | NumberType::I32 | NumberType::U32 => 0xffff_ffff,
            NumberType::F64 | NumberType::I64 | NumberType::U64 => 0xffff_ffff_ffff_ffff,
        }
    }

    /// The tag of the type `T`.
    pub fn new<T: Number>() -> (r: Option<NumberType>)
        ensures
            r == Some(T::spec_number_type()),
    {
        Some(T::number_type())
    }

    /// Reads a tag off the wire. A byte that no kind has gives `None`.
    pub fn from_descriminant(desc: u8) -> (r: Option<NumberType>)
        ensures
            r == Self::spec_from_descriminant(desc),
    {
        match desc {
            1 => Some(NumberType::U32),
            2 => Some(NumberType::U64),
            3 => Some(NumberType::I32),
            4 => Some(NumberType::I64),
            5 => Some(NumberType::F32),
            6 => Some(NumberType::F64),
            7 => Some(NumberType::U16),
            8 => Some(NumberType::I16),
            9 => Some(NumberType::F16),
            _ => None,
        }
    }

    /// The byte that stands for this kind on the wire.
    #[verifier::when_used_as_spec(spec_descriminant)]
    pub fn descriminant(self) -> (r: u8)
        ensures
            r == self.spec_descriminant(),
    {
        match self {
            NumberType::U32 => 1,
            NumberType::U64 => 2,
            NumberType::I32 => 3,
            NumberType::I64 => 4,
            NumberType::F32 => 5,
            NumberType::F64 => 6,
            NumberType::U16 => 7,
            NumberType::I16 => 8,
            NumberType::F16 => 9,
        }
    }

    /// The width of this kind in bits.
    #[verifier::when_used_as_spec(spec_bits)]
    pub fn bits(self) -> (r: u32)
        ensures
            r == self.spec_bits(),
    {
        match self {
            NumberType::F16 | NumberType::I16 | NumberType::U16 => 16,
            NumberType::F32 | NumberType::I32 | NumberType::U32 => 32,
            NumberType::F64 | NumberType::I64 | NumberType::U64 => 64,
        }
    }

    /// The number of bytes one number of this kind takes on the wire.
    #[verifier::when_used_as_spec(spec_byte_width)]
    pub fn byte_width(self) -> (r: usize)
        ensures
            r == self.spec_byte_width(),
            r * 8 == self.spec_bits(),
    {
        match self {
            NumberType::F16 | NumberType::I16 | NumberType::U16 => 2,
            NumberType::F32 | NumberType::I32 | NumberType::U32 => 4,
            NumberType::F64 | NumberType::I64 | NumberType::U64 => 8,
        }
    }

    /// Every kind is read back from its own byte, and no kind has the byte 0.
    pub proof fn lemma_descriminant_of_kind(kind: NumberType)
        ensures
            Self::spec_from_descriminant(kind.spec_descriminant()) == Some(kind),
            kind.spec_descriminant() != 0,
    {
    }

    /// A byte is read as a kind exactly when that kind has the byte; every
    /// other byte is read as nothing.
    pub proof fn lemma_kind_of_descriminant(desc: u8)
        ensures
            match Self::spec_from_descriminant(desc) {
                Some(kind) => kind.spec_descriminant() == desc,
                None => forall|kind: NumberType| kind.spec_descriminant() != desc,
            },
            Self::spec_from_descriminant(desc) is Some <==> 1 <= desc <= 9,
    {
    }
}

/// A half-precision float, held as its bit pattern.
#[derive(Clone, Copy, Debug, PartialEq, Eq, Structural, Hash)]
pub struct F16 {
    pub bits: u16,
}

/// A single-precision float, held as its bit pattern.
#[derive(Clone, Copy, Debug, PartialEq, Eq, Structural, Hash)]
pub struct F32 {
    pub bits: u32,
}

/// A double-precision float, held as its bit pattern.
#[derive(Clone, Copy, Debug, PartialEq, Eq, Structural, Hash)]
pub struct F64 {
    pub bits: u64,
}

impl F16 {
    pub fn from_bits(bits: u16) -> (r: F16)
        ensures
            r.bits == bits,
    {
        F16 { bits }
    }

    pub fn to_bits(self) -> (r: u16)
        ensures
            r == self.bits,
    {
        self.bits
    }
}

impl F32 {
    pub fn from_bits(bits: u32) -> (r: F32)
        ensures
            r.bits == bits,
    {
        F32 { bits }
    }

    pub fn to_bits(self) -> (r: u32)
        ensures
            r == self.bits,
    {
        self.bits
    }
}

impl F64 {
    pub fn from_bits(bits: u64) -> (r: F64)
        ensures
            r.bits == bits,
    {
        F64 { bits }
    }

    pub fn to_bits(self) -> (r: u64)
        ensures
            r == self.bits,
    {
        self.bits
    }
}

/// A numeric type of the registry.
///
/// Each type names its tag, maps its values one to one onto the latents
/// `0 ..= max_latent`, and says how a vector of it enters and leaves the erased
/// container.
pub trait Number: Copy + Sized {
    /// The tag of this type.
    spec fn spec_number_type() -> NumberType;

    /// The latent of a number: an unsigned integer. The latents of integers
    /// are in the order of the integers, and those of the bit patterns of
    /// floats in the order of the floats.
    spec fn spec_to_latent_ordered(self) -> u64;

    /// The number of a latent. Only the low bits of the kind's width count.
    spec fn spec_from_latent_ordered(latent: u64) -> Self;

    /// The erased container that holds `inner`.
    spec fn spec_erase(inner: Vec<Self>) -> NumVec;

    /// The vector inside `erased`, where it is one of this type.
    spec fn spec_downcast(erased: NumVec) -> Option<Vec<Self>>;

    fn number_type() -> (r: NumberType)
        ensures
            r == Self::spec_number_type(),
    ;

    fn to_latent_ordered(self) -> (r: u64)
        ensures
            r == self.spec_to_latent_ordered(),
    ;

    fn from_latent_ordered(latent: u64) -> (r: Self)
        ensures
            r == Self::spec_from_latent_ordered(latent),
    ;

    /// Moves a vector into the variant of its kind.
    fn erase(inner: Vec<Self>) -> (r: NumVec)
        ensures
            r == Self::spec_erase(inner),
    ;

    /// Moves the vector out, if the container holds this kind.
    fn downcast(erased: NumVec) -> (r: Option<Vec<Self>>)
        ensures
            r == Self::spec_downcast(erased),
    ;

    /// Borrows the vector, if the container holds this kind.
    fn downcast_ref(erased: &NumVec) -> (r: Option<&Vec<Self>>)
        ensures
            match r {
                Some(inner) => Self::spec_downcast(*erased) == Some(*inner),
                None => Self::spec_downcast(*erased) is None,
            },
    ;

    /// Borrows the vector for writing, if the container holds this kind. What
    /// is written through the borrow is what the container holds afterwards.
    fn downcast_mut(erased: &mut NumVec) -> (r: Option<&mut Vec<Self>>)
        ensures
            match r {
                Some(inner) => Self::spec_downcast(*old(erased)) == Some(*inner) && *final(erased)
                    == Self::spec_erase(*final(inner)),
                None => Self::spec_downcast(*old(erased)) is None && *final(erased) == *old(
                    erased,
                ),
            },
    ;

    /// A number's latent fits the kind's width and gives the number back.
    proof fn lemma_latent_round_trip(x: Self)
        ensures
            x.spec_to_latent_ordered() <= Self::spec_number_type().spec_max_latent(),
            Self::spec_from_latent_ordered(x.spec_to_latent_ordered()) == x,
    ;

    /// Every latent of the kind's width is the latent of a number.
    proof fn lemma_latent_onto(latent: u64)
        requires
            latent <= Self::spec_number_type().spec_max_latent(),
        ensures
            Self::spec_from_latent_ordered(latent).spec_to_latent_ordered() == latent,
    ;

    /// Erasing keeps the vector and files it under this type's tag.
    proof fn lemma_erase_downcast(inner: Vec<Self>)
        ensures
            Self::spec_downcast(Self::spec_erase(inner)) == Some(inner),
            Self::spec_erase(inner).spec_dtype() == Self::spec_number_type(),
            Self::spec_erase(inner).latents() == Seq::new(
                inner@.len(),
                |i: int| inner@[i].spec_to_latent_ordered(),
            ),
    ;

    /// A container gives a vector of this type exactly when it carries this
    /// type's tag, and erasing that vector gives the container back.
    proof fn lemma_downcast_erase(erased: NumVec)
        ensures
            Self::spec_downcast(erased) is Some <==> erased.spec_dtype()
                == Self::spec_number_type(),
            Self::spec_downcast(erased) matches Some(inner) ==> Self::spec_erase(inner)
                == erased,
    ;
}

/// The latent of a signed integer: the integer moved up by half the range, `mid`.
pub open spec fn spec_signed_latent(x: int, mid: int) -> u64 {
    (x + mid) as u64
}

/// The latent of a float with the bit pattern `bits`, whose sign bit is `mid`:
/// a negative float has all its bits turned, any other only the sign bit.
pub open spec fn spec_float_latent(bits: int, mid: int) -> u64 {
    if bits >= mid {
        (2 * mid - 1 - bits) as u64
    } else {
        (bits + mid) as u64
    }
}

/// Whether the float with the bit pattern `a` comes before the one with the
/// bit pattern `b`, where the sign bit is `mid`: a negative float before every
/// other, of two negative ones that with the larger bits below the sign, and
/// of two others that with the smaller bits.
pub open spec fn spec_float_before(a: int, b: int, mid: int) -> bool {
    if a >= mid {
        b < mid || a > b
    } else {
        b < mid && a < b
    }
}

/// The latents of signed integers are in the order of the integers.
pub proof fn lemma_signed_latent_order(x: int, y: int, mid: int)
    requires
        0 < mid <= 0x8000_0000_0000_0000,
        -mid <= x < mid,
        -mid <= y < mid,
    ensures
        x < y <==> spec_signed_latent(x, mid) < spec_signed_latent(y, mid),
{
}

/// The latents of the bit patterns of floats are in the order of the floats.
pub proof fn lemma_float_latent_order(a: int, b: int, mid: int)
    requires
        0 < mid <= 0x8000_0000_0000_0000,
        0 <= a < 2 * mid,
        0 <= b < 2 * mid,
    ensures
        spec_float_before(a, b, mid) <==> spec_float_latent(a, mid) < spec_float_latent(b, mid),
{
}

/// The latents of a sequence of numbers, in order.
pub open spec fn latents_of<T: Number>(nums: Seq<T>) -> Seq<u64> {
    Seq::new(nums.len(), |i: int| nums[i].spec_to_latent_ordered())
}

/// The numbers of a sequence of latents, in order.
pub open spec fn numbers_of<T: Number>(latents: Seq<u64>) -> Seq<T> {
    Seq::new(latents.len(), |i: int| T::spec_from_latent_ordered(latents[i]))
}

/// Code that is written once for every kind of number and runs for the type
/// of whichever kind a tag names.
pub trait NumberTypeFn {
    type Output;

    /// Whether `out` is what the code gives for the type of the given kind.
    /// Code that says nothing of what it gives may give anything.
    open spec fn gives(&self, kind: NumberType, out: Self::Output) -> bool {
        true
    }

    fn call<T: Number>(&self) -> (out: Self::Output)
        ensures
            self.gives(T::spec_number_type(), out),
    ;
}

impl NumberType {
    /// Runs `f` for the type of this kind. Every kind of the registry has its
    /// arm, and there is no other arm.
    pub fn dispatch<F: NumberTypeFn>(self, f: &F) -> (out: F::Output)
        ensures
            f.gives(self, out),
    {
        match self {
            NumberType::F16 => f.call::<F16>(),
            NumberType::F32 => f.call::<F32>(),
            NumberType::F64 => f.call::<F64>(),
            NumberType::I16 => f.call::<i16>(),
            NumberType::I32 => f.call::<i32>(),
            NumberType::I64 => f.call::<i64>(),
            NumberType::U16 => f.call::<u16>(),
            NumberType::U32 => f.call::<u32>(),
            NumberType::U64 => f.call::<u64>(),
        }
    }
}

/// Numbers have the same latents only if they are the same numbers.
pub proof fn lemma_latents_injective<T: Number>(a: Seq<T>, b: Seq<T>)
    requires
        latents_of(a) == latents_of(b),
    ensures
        a == b,
{
    assert(a.len() == latents_of(a).len());
    assert(b.len() == latents_of(b).len());
    assert forall|i: int| 0 <= i < a.len() implies a[i] == b[i] by {
        T::lemma_latent_round_trip(a[i]);
        T::lemma_latent_round_trip(b[i]);
        assert(latents_of(a)[i] == a[i].spec_to_latent_ordered());
        assert(latents_of(b)[i] == b[i].spec_to_latent_ordered());
    }
    assert(a =~= b);
}

/// Latents that fit the width of the type are the latents of their numbers.
pub proof fn lemma_latents_of_numbers<T: Number>(latents: Seq<u64>)
    requires
        forall|i: int|
            0 <= i < latents.len() ==> #[trigger] latents[i]
                <= T::spec_number_type().spec_max_latent(),
    ensures
        latents_of(numbers_of::<T>(latents)) == latents,
{
    assert forall|i: int| 0 <= i < latents.len() implies latents_of(numbers_of::<T>(latents))[i]
        == latents[i] by {
        T::lemma_latent_onto(latents[i]);
    }
    assert(latents_of(numbers_of::<T>(latents)) =~= latents);
}

impl Number for F16 {
    open spec fn spec_number_type() -> NumberType {
        NumberType::F16
    }

    open spec fn spec_to_latent_ordered(self) -> u64 {
        spec_float_latent(self.bits as int, 0x8000)
    }

    open spec fn spec_from_latent_ordered(latent: u64) -> F16 {
        let low = latent % 0x1_0000;
        if low >= 0x8000 {
            F16 { bits: (low - 0x8000) as u16 }
        } else {
            F16 { bits: (0xffff - low) as u16 }
        }
    }

    open spec fn spec_erase(inner: Vec<F16>) -> NumVec {
        NumVec::F16(inner)
    }

    open spec fn spec_downcast(erased: NumVec) -> Option<Vec<F16>> {
        match erased {
            NumVec::F16(inner) => Some(inner),
            _ => None,
        }
    }

    fn number_type() -> (r: NumberType) {
        NumberType::F16
    }

    fn to_latent_ordered(self) -> (r: u64) {
        if self.bits >= 0x8000 {
            (0xffff - self.bits) as u64
        } else {
            (self.bits + 0x8000) as u64
        }
    }

    fn from_latent_ordered(latent: u64) -> (r: F16) {
        let low: u64 = latent % 0x1_0000;
        if low >= 0x8000 {
            F16 { bits: (low - 0x8000) as u16 }
        } else {
            F16 { bits: (0xffff - low) as u16 }
        }
    }

    fn erase(inner: Vec<F16>) -> (r: NumVec) {
        NumVec::F16(inner)
    }

    fn downcast(erased: NumVec) -> (r: Option<Vec<F16>>) {
        match erased {
            NumVec::F16(inner) => Some(inner),
            _ => None,
        }
    }

    fn downcast_ref(erased: &NumVec) -> (r: Option<&Vec<F16>>) {
        match erased {
            NumVec::F16(inner) => Some(inner),
            _ => None,
        }
    }

    fn downcast_mut(erased: &mut NumVec) -> (r: Option<&mut Vec<F16>>) {
        match erased {
            NumVec::F16(inner) => Some(inner),
            _ => None,
        }
    }

    proof fn lemma_latent_round_trip(x: F16) {
    }

    proof fn lemma_latent_onto(latent: u64) {
    }

    proof fn lemma_erase_downcast(inner: Vec<F16>) {
        assert(NumVec::F16(inner).latents() =~= Seq::new(
            inner@.len(),
            |i: int| inner@[i].spec_to_latent_ordered(),
        ));
    }

    proof fn lemma_downcast_erase(erased: NumVec) {
    }
}

impl Number for F32 {
    open spec fn spec_number_type() -> NumberType {
        NumberType::F32
    }

    open spec fn spec_to_latent_ordered(self) -> u64 {
        spec_float_latent(self.bits as int, 0x8000_0000)
    }

    open spec fn spec_from_latent_ordered(latent: u64) -> F32 {
        let low = latent % 0x1_0000_0000;
        if low >= 0x8000_0000 {
            F32 { bits: (low - 0x8000_0000) as u32 }
        } else {
            F32 { bits: (0xffff_ffff - low) as u32 }
        }
    }

    open spec fn spec_erase(inner: Vec<F32>) -> NumVec {
        NumVec::F32(inner)
    }

    open spec fn spec_downcast(erased: NumVec) -> Option<Vec<F32>> {
        match erased {
            NumVec::F32(inner) => Some(inner),
            _ => None,
        }
    }

    fn number_type() -> (r: NumberType) {
        NumberType::F32
    }

    fn to_latent_ordered(self) -> (r: u64) {
        if self.bits >= 0x8000_0000 {
            (0xffff_ffff - self.bits) as u64
        } else {
            (self.bits + 0x8000_0000) as u64
        }
    }

    fn from_latent_ordered(latent: u64) -> (r: F32) {
        let low: u64 = latent % 0x1_0000_0000;
        if low >= 0x8000_0000 {
            F32 { bits: (low - 0x8000_0000) as u32 }
        } else {
            F32 { bits: (0xffff_ffff - low) as u32 }
        }
    }

    fn erase(inner: Vec<F32>) -> (r: NumVec) {
        NumVec::F32(inner)
    }

    fn downcast(erased: NumVec) -> (r: Option<Vec<F32>>) {
        match erased {
            NumVec::F32(inner) => Some(inner),
            _ => None,
        }
    }

    fn downcast_ref(erased: &NumVec) -> (r: Option<&Vec<F32>>) {
        match erased {
            NumVec::F32(inner) => Some(inner),
            _ => None,
        }
    }

    fn downcast_mut(erased: &mut NumVec) -> (r: Option<&mut Vec<F32>>) {
        match erased {
            NumVec::F32(inner) => Some(inner),
            _ => None,
        }
    }

    proof fn lemma_latent_round_trip(x: F32) {
    }

    proof fn lemma_latent_onto(latent: u64) {
    }

    proof fn lemma_erase_downcast(inner: Vec<F32>) {
        assert(NumVec::F32(inner).latents() =~= Seq::new(
            inner@.len(),
            |i: int| inner@[i].spec_to_latent_ordered(),
        ));
    }

    proof fn lemma_downcast_erase(erased: NumVec) {
    }
}

impl Number for F64 {
    open spec fn spec_number_type() -> NumberType {
        NumberType::F64
    }

    open spec fn spec_to_latent_ordered(self) -> u64 {
        spec_float_latent(self.bits as int, 0x8000_0000_0000_0000)
    }

    open spec fn spec_from_latent_ordered(latent: u64) -> F64 {
        if latent >= 0x8000_0000_0000_0000 {
            F64 { bits: (latent - 0x8000_0000_0000_0000) as u64 }
        } else {
            F64 { bits: (0xffff_ffff_ffff_ffff - latent) as u64 }
        }
    }

    open spec fn spec_erase(inner: Vec<F64>) -> NumVec {
        NumVec::F64(inner)
    }

    open spec fn spec_downcast(erased: NumVec) -> Option<Vec<F64>> {
        match erased {
            NumVec::F64(inner) => Some(inner),
            _ => None,
        }
    }

    fn number_type() -> (r: NumberType) {
        NumberType::F64
    }

    fn to_latent_ordered(self) -> (r: u64) {
        if self.bits >= 0x8000_0000_0000_0000 {
            (0xffff_ffff_ffff_ffff - self.bits) as u64
        } else {
            (self.bits + 0x8000_0000_0000_0000) as u64
        }
    }

    fn from_latent_ordered(latent: u64) -> (r: F64) {
        if latent >= 0x8000_0000_0000_0000 {
            F64 { bits: (latent - 0x8000_0000_0000_0000) as u64 }
        } else {
            F64 { bits: (0xffff_ffff_ffff_ffff - latent) as u64 }
        }
    }

    fn erase(inner: Vec<F64>) -> (r: NumVec) {
        NumVec::F64(inner)
    }

    fn downcast(erased: NumVec) -> (r: Option<Vec<F64>>) {
        match erased {
            NumVec::F64(inner) => Some(inner),
            _ => None,
        }
    }

    fn downcast_ref(erased: &NumVec) -> (r: Option<&Vec<F64>>) {
        match erased {
            NumVec::F64(inner) => Some(inner),
            _ => None,
        }
    }

    fn downcast_mut(erased: &mut NumVec) -> (r: Option<&mut Vec<F64>>) {
        match erased {
            NumVec::F64(inner) => Some(inner),
            _ => None,
        }
    }

    proof fn lemma_latent_round_trip(x: F64) {
    }

    proof fn lemma_latent_onto(latent: u64) {
    }

    proof fn lemma_erase_downcast(inner: Vec<F64>) {
        assert(NumVec::F64(inner).latents() =~= Seq::new(
            inner@.len(),
            |i: int| inner@[i].spec_to_latent_ordered(),
        ));
    }

    proof fn lemma_downcast_erase(erased: NumVec) {
    }
}

impl Number for i16 {
    open spec fn spec_number_type() -> NumberType {
        NumberType::I16
    }

    open spec fn spec_to_latent_ordered(self) -> u64 {
        spec_signed_latent(self as int, 0x8000)
    }

    open spec fn spec_from_latent_ordered(latent: u64) -> i16 {
        ((latent % 0x1_0000) as int - 0x8000) as i16
    }

    open spec fn spec_erase(inner: Vec<i16>) -> NumVec {
        NumVec::I16(inner)
    }

    open spec fn spec_downcast(erased: NumVec) -> Option<Vec<i16>> {
        match erased {
            NumVec::I16(inner) => Some(inner),
            _ => None,
        }
    }

    fn number_type() -> (r: NumberType) {
        NumberType::I16
    }

    fn to_latent_ordered(self) -> (r: u64) {
        (self as i64 + 0x8000) as u64
    }

    fn from_latent_ordered(latent: u64) -> (r: i16) {
        ((latent % 0x1_0000) as i64 - 0x8000) as i16
    }

    fn erase(inner: Vec<i16>) -> (r: NumVec) {
        NumVec::I16(inner)
    }

    fn downcast(erased: NumVec) -> (r: Option<Vec<i16>>) {
        match erased {
            NumVec::I16(inner) => Some(inner),
            _ => None,
        }
    }

    fn downcast_ref(erased: &NumVec) -> (r: Option<&Vec<i16>>) {
        match erased {
            NumVec::I16(inner) => Some(inner),
            _ => None,
        }
    }

    fn downcast_mut(erased: &mut NumVec) -> (r: Option<&mut Vec<i16>>) {
        match erased {
            NumVec::I16(inner) => Some(inner),
            _ => None,
        }
    }

    proof fn lemma_latent_round_trip(x: i16) {
    }

    proof fn lemma_latent_onto(latent: u64) {
    }

    proof fn lemma_erase_downcast(inner: Vec<i16>) {
        assert(NumVec::I16(inner).latents() =~= Seq::new(
            inner@.len(),
            |i: int| inner@[i].spec_to_latent_ordered(),
        ));
    }

    proof fn lemma_downcast_erase(erased: NumVec) {
    }
}

impl Number for i32 {
    open spec fn spec_number_type() -> NumberType {
        NumberType::I32
    }

    open spec fn spec_to_latent_ordered(self) -> u64 {
        spec_signed_latent(self as int, 0x8000_0000)
    }

    open spec fn spec_from_latent_ordered(latent: u64) -> i32 {
        ((latent % 0x1_0000_0000) as int - 0x8000_0000) as i32
    }

    open spec fn spec_erase(inner: Vec<i32>) -> NumVec {
        NumVec::I32(inner)
    }

    open spec fn spec_downcast(erased: NumVec) -> Option<Vec<i32>> {
        match erased {
            NumVec::I32(inner) => Some(inner),
            _ => None,
        }
    }

    fn number_type() -> (r: NumberType) {
        NumberType::I32
    }

    fn to_latent_ordered(self) -> (r: u64) {
        (self as i64 + 0x8000_0000) as u64
    }

    fn from_latent_ordered(latent: u64) -> (r: i32) {
        ((latent % 0x1_0000_0000) as i64 - 0x8000_0000) as i32
    }

    fn erase(inner: Vec<i32>) -> (r: NumVec) {
        NumVec::I32(inner)
    }

    fn downcast(erased: NumVec) -> (r: Option<Vec<i32>>) {
        match erased {
            NumVec::I32(inner) => Some(inner),
            _ => None,
        }
    }

    fn downcast_ref(erased: &NumVec) -> (r: Option<&Vec<i32>>) {
        match erased {
            NumVec::I32(inner) => Some(inner),
            _ => None,
        }
    }

    fn downcast_mut(erased: &mut NumVec) -> (r: Option<&mut Vec<i32>>) {
        match erased {
            NumVec::I32(inner) => Some(inner),
            _ => None,
        }
    }

    proof fn lemma_latent_round_trip(x: i32) {
    }

    proof fn lemma_latent_onto(latent: u64) {
    }

    proof fn lemma_erase_downcast(inner: Vec<i32>) {
        assert(NumVec::I32(inner).latents() =~= Seq::new(
            inner@.len(),
            |i: int| inner@[i].spec_to_latent_ordered(),
        ));
    }

    proof fn lemma_downcast_erase(erased: NumVec) {
    }
}

impl Number for i64 {
    open spec fn spec_number_type() -> NumberType {
        NumberType::I64
    }

    open spec fn spec_to_latent_ordered(self) -> u64 {
        spec_signed_latent(self as int, 0x8000_0000_0000_0000)
    }

    open spec fn spec_from_latent_ordered(latent: u64) -> i64 {
        (latent as int - 0x8000_0000_0000_0000) as i64
    }

    open spec fn spec_erase(inner: Vec<i64>) -> NumVec {
        NumVec::I64(inner)
    }

    open spec fn spec_downcast(erased: NumVec) -> Option<Vec<i64>> {
        match erased {
            NumVec::I64(inner) => Some(inner),
            _ => None,
        }
    }

    fn number_type() -> (r: NumberType) {
        NumberType::I64
    }

    fn to_latent_ordered(self) -> (r: u64) {
        (self as i128 + 0x8000_0000_0000_0000) as u64
    }

    fn from_latent_ordered(latent: u64) -> (r: i64) {
        (latent as i128 - 0x8000_0000_0000_0000) as i64
    }

    fn erase(inner: Vec<i64>) -> (r: NumVec) {
        NumVec::I64(inner)
    }

    fn downcast(erased: NumVec) -> (r: Option<Vec<i64>>) {
        match erased {
            NumVec::I64(inner) => Some(inner),
            _ => None,
        }
    }

    fn downcast_ref(erased: &NumVec) -> (r: Option<&Vec<i64>>) {
        match erased {
            NumVec::I64(inner) => Some(inner),
            _ => None,
        }
    }

    fn downcast_mut(erased: &mut NumVec) -> (r: Option<&mut Vec<i64>>) {
        match erased {
            NumVec::I64(inner) => Some(inner),
            _ => None,
        }
    }

    proof fn lemma_latent_round_trip(x: i64) {
    }

    proof fn lemma_latent_onto(latent: u64) {
    }

    proof fn lemma_erase_downcast(inner: Vec<i64>) {
        assert(NumVec::I64(inner).latents() =~= Seq::new(
            inner@.len(),
            |i: int| inner@[i].spec_to_latent_ordered(),
        ));
    }

    proof fn lemma_downcast_erase(erased: NumVec) {
    }
}

impl Number for u16 {
    open spec fn spec_number_type() -> NumberType {
        NumberType::U16
    }

    open spec fn spec_to_latent_ordered(self) -> u64 {
        self as u64
    }

    open spec fn spec_from_latent_ordered(latent: u64) -> u16 {
        (latent % 0x1_0000) as u16
    }

    open spec fn spec_erase(inner: Vec<u16>) -> NumVec {
        NumVec::U16(inner)
    }

    open spec fn spec_downcast(erased: NumVec) -> Option<Vec<u16>> {
        match erased {
            NumVec::U16(inner) => Some(inner),
            _ => None,
        }
    }

    fn number_type() -> (r: NumberType) {
        NumberType::U16
    }

    fn to_latent_ordered(self) -> (r: u64) {
        self as u64
    }

    fn from_latent_ordered(latent: u64) -> (r: u16) {
        (latent % 0x1_0000) as u16
    }

    fn erase(inner: Vec<u16>) -> (r: NumVec) {
        NumVec::U16(inner)
    }

    fn downcast(erased: NumVec) -> (r: Option<Vec<u16>>) {
        match erased {
            NumVec::U16(inner) => Some(inner),
            _ => None,
        }
    }

    fn downcast_ref(erased: &NumVec) -> (r: Option<&Vec<u16>>) {
        match erased {
            NumVec::U16(inner) => Some(inner),
            _ => None,
        }
    }

    fn downcast_mut(erased: &mut NumVec) -> (r: Option<&mut Vec<u16>>) {
        match erased {
            NumVec::U16(inner) => Some(inner),
            _ => None,
        }
    }

    proof fn lemma_latent_round_trip(x: u16) {
    }

    proof fn lemma_latent_onto(latent: u64) {
    }

    proof fn lemma_erase_downcast(inner: Vec<u16>) {
        assert(NumVec::U16(inner).latents() =~= Seq::new(
            inner@.len(),
            |i: int| inner@[i].spec_to_latent_ordered(),
        ));
    }

    proof fn lemma_downcast_erase(erased: NumVec) {
    }
}

impl Number for u32 {
    open spec fn spec_number_type() -> NumberType {
        NumberType::U32
    }

    open spec fn spec_to_latent_ordered(self) -> u64 {
        self as u64
    }

    open spec fn spec_from_latent_ordered(latent: u64) -> u32 {
        (latent % 0x1_0000_0000) as u32
    }

    open spec fn spec_erase(inner: Vec<u32>) -> NumVec {
        NumVec::U32(inner)
    }

    open spec fn spec_downcast(erased: NumVec) -> Option<Vec<u32>> {
        match erased {
            NumVec::U32(inner) => Some(inner),
            _ => None,
        }
    }

    fn number_type() -> (r: NumberType) {
        NumberType::U32
    }

    fn to_latent_ordered(self) -> (r: u64) {
        self as u64
    }

    fn from_latent_ordered(latent: u64) -> (r: u32) {
        (latent % 0x1_0000_0000) as u32
    }

    fn erase(inner: Vec<u32>) -> (r: NumVec) {
        NumVec::U32(inner)
    }

    fn downcast(erased: NumVec) -> (r: Option<Vec<u32>>) {
        match erased {
            NumVec::U32(inner) => Some(inner),
            _ => None,
        }
    }

    fn downcast_ref(erased: &NumVec) -> (r: Option<&Vec<u32>>) {
        match erased {
            NumVec::U32(inner) => Some(inner),
            _ => None,
        }
    }

    fn downcast_mut(erased: &mut NumVec) -> (r: Option<&mut Vec<u32>>) {
        match erased {
            NumVec::U32(inner) => Some(inner),
            _ => None,
        }
    }

    proof fn lemma_latent_round_trip(x: u32) {
    }

    proof fn lemma_latent_onto(latent: u64) {
    }

    proof fn lemma_erase_downcast(inner: Vec<u32>) {
        assert(NumVec::U32(inner).latents() =~= Seq::new(
            inner@.len(),
            |i: int| inner@[i].spec_to_latent_ordered(),
        ));
    }

    proof fn lemma_downcast_erase(erased: NumVec) {
    }
}

impl Number for u64 {
    open spec fn spec_number_type() -> NumberType {
        NumberType::U64
    }

    open spec fn spec_to_latent_ordered(self) -> u64 {
        self as u64
    }

    open spec fn spec_from_latent_ordered(latent: u64) -> u64 {
        latent
    }

    open spec fn spec_erase(inner: Vec<u64>) -> NumVec {
        NumVec::U64(inner)
    }

    open spec fn spec_downcast(erased: NumVec) -> Option<Vec<u64>> {
        match erased {
            NumVec::U64(inner) => Some(inner),
            _ => None,
        }
    }

    fn number_type() -> (r: NumberType) {
        NumberType::U64
    }

    fn to_latent_ordered(self) -> (r: u64) {
        self as u64
    }

    fn from_latent_ordered(latent: u64) -> (r: u64) {
        latent
    }

    fn erase(inner: Vec<u64>) -> (r: NumVec) {
        NumVec::U64(inner)
    }

    fn downcast(erased: NumVec) -> (r: Option<Vec<u64>>) {
        match erased {
            NumVec::U64(inner) => Some(inner),
            _ => None,
        }
    }

    fn downcast_ref(erased: &NumVec) -> (r: Option<&Vec<u64>>) {
        match erased {
            NumVec::U64(inner) => Some(inner),
            _ => None,
        }
    }

    fn downcast_mut(erased: &mut NumVec) -> (r: Option<&mut Vec<u64>>) {
        match erased {
            NumVec::U64(inner) => Some(inner),
            _ => None,
        }
    }

    proof fn lemma_latent_round_trip(x: u64) {
    }

    proof fn lemma_latent_onto(latent: u64) {
    }

    proof fn lemma_erase_downcast(inner: Vec<u64>) {
        assert(NumVec::U64(inner).latents() =~= Seq::new(
            inner@.len(),
            |i: int| inner@[i].spec_to_latent_ordered(),
        ));
    }

    proof fn lemma_downcast_erase(erased: NumVec) {
    }
}

} // verus!
