//! The erased container: a vector of numbers of any one registered kind.

use crate::data_types::{
    latents_of, spec_float_latent, spec_signed_latent, Number, NumberType, F16, F32, F64,
};
use vstd::prelude::*;
use vstd::slice::{slice_subrange, slice_to_vec};

verus! {

/// A vector of numbers whose kind is known only at run time.
///
/// There is one variant per kind of the registry, holding the vector itself:
/// erasing a vector and getting it back moves it and copies no number.
#[derive(Clone, Debug)]
pub enum NumVec {
    F16(Vec<F16>),
    F32(Vec<F32>),
    F64(Vec<F64>),
    I16(Vec<i16>),
    I32(Vec<i32>),
    I64(Vec<i64>),
    U16(Vec<u16>),
    U32(Vec<u32>),
    U64(Vec<u64>),
}

impl NumVec {
    /// The tag of the numbers held.
    pub open spec fn spec_dtype(&self) -> NumberType {
        match self {
            NumVec::F16(_) => NumberType::F16,
            NumVec::F32(_) => NumberType::F32,
            NumVec::F64(_) => NumberType::F64,
            NumVec::I16(_) => NumberType::I16,
            NumVec::I32(_) => NumberType::I32,
            NumVec::I64(_) => NumberType::I64,
            NumVec::U16(_) => NumberType::U16,
            NumVec::U32(_) => NumberType::U32,
            NumVec::U64(_) => NumberType::U64,
        }
    }

    /// The numbers held, each as its latent.
    pub open spec fn latents(&self) -> Seq<u64> {
        match self {
            NumVec::F16(nums) => Seq::new(
                nums@.len(),
                |i: int| spec_float_latent(nums@[i].bits as int, 0x8000),
            ),
            NumVec::F32(nums) => Seq::new(
                nums@.len(),
                |i: int| spec_float_latent(nums@[i].bits as int, 0x8000_0000),
            ),
            NumVec::F64(nums) => Seq::new(
                nums@.len(),
                |i: int| spec_float_latent(nums@[i].bits as int, 0x8000_0000_0000_0000),
            ),
            NumVec::I16(nums) => Seq::new(
                nums@.len(),
                |i: int| spec_signed_latent(nums@[i] as int, 0x8000),
            ),
            NumVec::I32(nums) => Seq::new(
                nums@.len(),
                |i: int| spec_signed_latent(nums@[i] as int, 0x8000_0000),
            ),
            NumVec::I64(nums) => Seq::new(
                nums@.len(),
                |i: int| spec_signed_latent(nums@[i] as int, 0x8000_0000_0000_0000),
            ),
            NumVec::U16(nums) => Seq::new(nums@.len(), |i: int| nums@[i] as u64),
            NumVec::U32(nums) => Seq::new(nums@.len(), |i: int| nums@[i] as u64),
            NumVec::U64(nums) => Seq::new(nums@.len(), |i: int| nums@[i]),
        }
    }

    /// How many numbers are held.
    pub open spec fn spec_n(&self) -> nat {
        self.latents().len()
    }

    /// The latents held fit the width of the kind held.
    pub proof fn lemma_latents_fit(self)
        ensures
            forall|i: int|
                0 <= i < self.latents().len() ==> #[trigger] self.latents()[i]
                    <= self.spec_dtype().spec_max_latent(),
    {
    }
}

/// Why two sequences of numbers are not the same.
#[derive(Clone, Copy, Debug, PartialEq, Eq, Structural)]
pub enum CheckError {
    /// The sequences differ in length.
    Length { recovered: usize, original: usize },
    /// The numbers at `index` differ, and all before them agree.
    Value { index: usize },
    /// The containers hold numbers of different kinds.
    Type,
}

/// Whether `result` is the outcome of comparing two sequences of latents of one
/// kind: the first place where they differ, or that they do not.
pub open spec fn spec_check_outcome(
    recovered: Seq<u64>,
    original: Seq<u64>,
    result: Result<(), CheckError>,
) -> bool {
    match result {
        Ok(()) => recovered == original,
        Err(CheckError::Length { recovered: r, original: o }) => {
            &&& r == recovered.len()
            &&& o == original.len()
            &&& r != o
        },
        Err(CheckError::Value { index }) => {
            &&& recovered.len() == original.len()
            &&& index < recovered.len()
            &&& recovered[index as int] != original[index as int]
            &&& forall|j: int| 0 <= j < index ==> recovered[j] == original[j]
        },
        Err(CheckError::Type) => false,
    }
}

/// Compares what came out of a codec with what went in, number by number, by
/// their latents.
///
/// Two numbers have the same latent exactly when they are the same number, so
/// the comparison succeeds exactly when the sequences are equal.
pub fn check_equal<T: Number>(recovered: &[T], original: &[T]) -> (r: Result<(), CheckError>)
    ensures
        spec_check_outcome(latents_of(recovered@), latents_of(original@), r),
        r is Ok <==> recovered@ == original@,
{
    if recovered.len() != original.len() {
        return Err(CheckError::Length { recovered: recovered.len(), original: original.len() });
    }
    let mut i: usize = 0;
    while i < recovered.len()
        invariant
            recovered.len() == original.len(),
            i <= recovered.len(),
            forall|j: int| 0 <= j < i ==> recovered@[j] == original@[j],
        decreases recovered.len() - i,
    {
        let x = recovered[i];
        let y = original[i];
        proof {
            T::lemma_latent_round_trip(x);
            T::lemma_latent_round_trip(y);
        }
        if x.to_latent_ordered() != y.to_latent_ordered() {
            assert(latents_of(recovered@)[i as int] != latents_of(original@)[i as int]);
            return Err(CheckError::Value { index: i });
        }
        i += 1;
    }
    assert(recovered@ =~= original@);
    Ok(())
}

impl NumVec {
    /// Erases a vector: moves it into the variant of its kind.
    pub fn new<T: Number>(inner: Vec<T>) -> (r: Option<NumVec>)
        ensures
            r == Some(T::spec_erase(inner)),
    {
        Some(T::erase(inner))
    }

    /// Gives the vector back if it is one of `T`, and nothing otherwise. The
    /// container is used up either way.
    pub fn downcast<T: Number>(self) -> (r: Option<Vec<T>>)
        ensures
            r == T::spec_downcast(self),
    {
        T::downcast(self)
    }

    /// Borrows the vector if it is one of `T`.
    pub fn downcast_ref<T: Number>(&self) -> (r: Option<&Vec<T>>)
        ensures
            match r {
                Some(inner) => T::spec_downcast(*self) == Some(*inner),
                None => T::spec_downcast(*self) is None,
            },
    {
        T::downcast_ref(self)
    }

    /// Borrows the vector for writing if it is one of `T`. The container then
    /// holds whatever the borrow is left with.
    pub fn downcast_mut<T: Number>(&mut self) -> (r: Option<&mut Vec<T>>)
        ensures
            match r {
                Some(inner) => T::spec_downcast(*old(self)) == Some(*inner) && *final(self)
                    == T::spec_erase(*final(inner)),
                None => T::spec_downcast(*old(self)) is None && *final(self) == *old(self),
            },
    {
        T::downcast_mut(self)
    }

    /// How many numbers are held.
    pub fn n(&self) -> (r: usize)
        ensures
            r == self.spec_n(),
    {
        match self {
            NumVec::F16(nums) => nums.len(),
            NumVec::F32(nums) => nums.len(),
            NumVec::F64(nums) => nums.len(),
            NumVec::I16(nums) => nums.len(),
            NumVec::I32(nums) => nums.len(),
            NumVec::I64(nums) => nums.len(),
            NumVec::U16(nums) => nums.len(),
            NumVec::U32(nums) => nums.len(),
            NumVec::U64(nums) => nums.len(),
        }
    }

    /// The tag of the numbers held.
    pub fn dtype(&self) -> (r: NumberType)
        ensures
            r == self.spec_dtype(),
    {
        match self {
            NumVec::F16(_) => NumberType::F16,
            NumVec::F32(_) => NumberType::F32,
            NumVec::F64(_) => NumberType::F64,
            NumVec::I16(_) => NumberType::I16,
            NumVec::I32(_) => NumberType::I32,
            NumVec::I64(_) => NumberType::I64,
            NumVec::U16(_) => NumberType::U16,
            NumVec::U32(_) => NumberType::U32,
            NumVec::U64(_) => NumberType::U64,
        }
    }

    /// A copy of the first `limit` numbers, of the same kind.
    pub fn truncated(&self, limit: usize) -> (r: NumVec)
        requires
            limit <= self.spec_n(),
        ensures
            r.spec_dtype() == self.spec_dtype(),
            r.latents() == self.latents().take(limit as int),
    {
        match self {
            NumVec::F16(nums) => NumVec::F16(
                slice_to_vec(slice_subrange(nums.as_slice(), 0, limit)),
            ),
            NumVec::F32(nums) => NumVec::F32(
                slice_to_vec(slice_subrange(nums.as_slice(), 0, limit)),
            ),
            NumVec::F64(nums) => NumVec::F64(
                slice_to_vec(slice_subrange(nums.as_slice(), 0, limit)),
            ),
            NumVec::I16(nums) => NumVec::I16(
                slice_to_vec(slice_subrange(nums.as_slice(), 0, limit)),
            ),
            NumVec::I32(nums) => NumVec::I32(
                slice_to_vec(slice_subrange(nums.as_slice(), 0, limit)),
            ),
            NumVec::I64(nums) => NumVec::I64(
                slice_to_vec(slice_subrange(nums.as_slice(), 0, limit)),
            ),
            NumVec::U16(nums) => NumVec::U16(
                slice_to_vec(slice_subrange(nums.as_slice(), 0, limit)),
            ),
            NumVec::U32(nums) => NumVec::U32(
                slice_to_vec(slice_subrange(nums.as_slice(), 0, limit)),
            ),
            NumVec::U64(nums) => NumVec::U64(
                slice_to_vec(slice_subrange(nums.as_slice(), 0, limit)),
            ),
        }
    }

    /// Compares two containers: their kinds first, then their numbers as
    /// `check_equal` does.
    pub fn check_equal(&self, other: &NumVec) -> (r: Result<(), CheckError>)
        ensures
            self.spec_dtype() != other.spec_dtype() ==> r == Err::<(), CheckError>(
                CheckError::Type,
            ),
            self.spec_dtype() == other.spec_dtype() ==> spec_check_outcome(
                self.latents(),
                other.latents(),
                r,
            ),
    {
        match self {
            NumVec::F16(nums) => match other.downcast_ref::<F16>() {
                Some(other_nums) => {
                    proof {
                        lemma_erase_view(*nums);
                        lemma_erase_view(*other_nums);
                    }
                    check_equal(nums.as_slice(), other_nums.as_slice())
                },
                None => Err(CheckError::Type),
            },
            NumVec::F32(nums) => match other.downcast_ref::<F32>() {
                Some(other_nums) => {
                    proof {
                        lemma_erase_view(*nums);
                        lemma_erase_view(*other_nums);
                    }
                    check_equal(nums.as_slice(), other_nums.as_slice())
                },
                None => Err(CheckError::Type),
            },
            NumVec::F64(nums) => match other.downcast_ref::<F64>() {
                Some(other_nums) => {
                    proof {
                        lemma_erase_view(*nums);
                        lemma_erase_view(*other_nums);
                    }
                    check_equal(nums.as_slice(), other_nums.as_slice())
                },
                None => Err(CheckError::Type),
            },
            NumVec::I16(nums) => match other.downcast_ref::<i16>() {
                Some(other_nums) => {
                    proof {
                        lemma_erase_view(*nums);
                        lemma_erase_view(*other_nums);
                    }
                    check_equal(nums.as_slice(), other_nums.as_slice())
                },
                None => Err(CheckError::Type),
            },
            NumVec::I32(nums) => match other.downcast_ref::<i32>() {
                Some(other_nums) => {
                    proof {
                        lemma_erase_view(*nums);
                        lemma_erase_view(*other_nums);
                    }
                    check_equal(nums.as_slice(), other_nums.as_slice())
                },
                None => Err(CheckError::Type),
            },
            NumVec::I64(nums) => match other.downcast_ref::<i64>() {
                Some(other_nums) => {
                    proof {
                        lemma_erase_view(*nums);
                        lemma_erase_view(*other_nums);
                    }
                    check_equal(nums.as_slice(), other_nums.as_slice())
                },
                None => Err(CheckError::Type),
            },
            NumVec::U16(nums) => match other.downcast_ref::<u16>() {
                Some(other_nums) => {
                    proof {
                        lemma_erase_view(*nums);
                        lemma_erase_view(*other_nums);
                    }
                    check_equal(nums.as_slice(), other_nums.as_slice())
                },
                None => Err(CheckError::Type),
            },
            NumVec::U32(nums) => match other.downcast_ref::<u32>() {
                Some(other_nums) => {
                    proof {
                        lemma_erase_view(*nums);
                        lemma_erase_view(*other_nums);
                    }
                    check_equal(nums.as_slice(), other_nums.as_slice())
                },
                None => Err(CheckError::Type),
            },
            NumVec::U64(nums) => match other.downcast_ref::<u64>() {
                Some(other_nums) => {
                    proof {
                        lemma_erase_view(*nums);
                        lemma_erase_view(*other_nums);
                    }
                    check_equal(nums.as_slice(), other_nums.as_slice())
                },
                None => Err(CheckError::Type),
            },
        }
    }
}

/// Code that is written once for every kind of number and runs on a vector of
/// whichever kind an erased container holds.
pub trait NumVecFn {
    type Output;

    /// Whether `out` is what the code gives for numbers of the given kind
    /// with the given latents. Code that says nothing of what it gives may
    /// give anything.
    open spec fn gives(&self, kind: NumberType, latents: Seq<u64>, out: Self::Output) -> bool {
        true
    }

    fn call<T: Number>(&self, nums: &Vec<T>) -> (out: Self::Output)
        ensures
            self.gives(T::spec_number_type(), latents_of(nums@), out),
    ;
}

impl NumVec {
    /// Runs `f` on the vector held, as a vector of the type of its kind. Every
    /// kind of the registry has its arm, and there is no other arm.
    pub fn dispatch<F: NumVecFn>(&self, f: &F) -> (out: F::Output)
        ensures
            f.gives(self.spec_dtype(), self.latents(), out),
    {
        match self {
            NumVec::F16(inner) => {
                proof {
                    lemma_erase_view(*inner);
                }
                f.call(inner)
            },
            NumVec::F32(inner) => {
                proof {
                    lemma_erase_view(*inner);
                }
                f.call(inner)
            },
            NumVec::F64(inner) => {
                proof {
                    lemma_erase_view(*inner);
                }
                f.call(inner)
            },
            NumVec::I16(inner) => {
                proof {
                    lemma_erase_view(*inner);
                }
                f.call(inner)
            },
            NumVec::I32(inner) => {
                proof {
                    lemma_erase_view(*inner);
                }
                f.call(inner)
            },
            NumVec::I64(inner) => {
                proof {
                    lemma_erase_view(*inner);
                }
                f.call(inner)
            },
            NumVec::U16(inner) => {
                proof {
                    lemma_erase_view(*inner);
                }
                f.call(inner)
            },
            NumVec::U32(inner) => {
                proof {
                    lemma_erase_view(*inner);
                }
                f.call(inner)
            },
            NumVec::U64(inner) => {
                proof {
                    lemma_erase_view(*inner);
                }
                f.call(inner)
            },
        }
    }
}

/// Erasing a vector and taking it out again under the same type gives the very
/// vector that went in.
pub proof fn lemma_erase_then_downcast<T: Number>(inner: Vec<T>)
    ensures
        T::spec_downcast(T::spec_erase(inner)) == Some(inner),
{
    T::lemma_erase_downcast(inner);
}

/// A vector erased under one type cannot be taken out under a type with
/// another tag.
pub proof fn lemma_downcast_other_type<T: Number, U: Number>(inner: Vec<T>)
    requires
        T::spec_number_type() != U::spec_number_type(),
    ensures
        U::spec_downcast(T::spec_erase(inner)) is None,
{
    T::lemma_erase_downcast(inner);
    U::lemma_downcast_erase(T::spec_erase(inner));
}

/// An erased vector carries the tag of its type and holds the latents of the
/// numbers that went in.
pub proof fn lemma_erase_view<T: Number>(inner: Vec<T>)
    ensures
        T::spec_erase(inner).spec_dtype() == T::spec_number_type(),
        T::spec_erase(inner).latents() == latents_of(inner@),
{
    T::lemma_erase_downcast(inner);
}

} // verus!
