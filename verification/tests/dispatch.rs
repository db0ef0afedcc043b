use pco_core::data_types::{Number, NumberType, NumberTypeFn, F16, F32, F64};
use pco_core::num_vec::{check_equal, CheckError, NumVec, NumVecFn};
use std::mem::size_of;

struct BitSize;

impl NumVecFn for BitSize {
    type Output = usize;

    fn call<L: Number>(&self, inner: &Vec<L>) -> usize {
        inner.len() * L::number_type().bits() as usize
    }
}

struct ByteWidth;

impl NumberTypeFn for ByteWidth {
    type Output = usize;

    fn call<T: Number>(&self) -> usize {
        size_of::<T>()
    }
}

fn generic_new<T: Number>(inner: Vec<T>) -> NumVec {
    NumVec::new(inner).unwrap()
}

fn all_kinds() -> Vec<NumberType> {
    vec![
        NumberType::F16,
        NumberType::F32,
        NumberType::F64,
        NumberType::I16,
        NumberType::I32,
        NumberType::I64,
        NumberType::U16,
        NumberType::U32,
        NumberType::U64,
    ]
}

fn one_of_each() -> Vec<NumVec> {
    vec![
        generic_new(vec![F16::from_bits(0x3c00)]),
        generic_new(vec![F32::from_bits(1.5f32.to_bits())]),
        generic_new(vec![F64::from_bits(2.5f64.to_bits())]),
        generic_new(vec![-3i16]),
        generic_new(vec![-4i32]),
        generic_new(vec![-5i64]),
        generic_new(vec![6u16]),
        generic_new(vec![7u32]),
        generic_new(vec![8u64]),
    ]
}

#[test]
fn test_end_to_end() {
    let x = generic_new(vec![1_u16, 1, 2, 3, 5]);
    let bit_size = x.dispatch(&BitSize);
    assert_eq!(bit_size, 80);
    let x = x.downcast::<u16>().unwrap();
    assert_eq!(x[0], 1);
}

#[test]
fn test_tag_of_each_type() {
    assert_eq!(NumberType::new::<F16>(), Some(NumberType::F16));
    assert_eq!(NumberType::new::<F32>(), Some(NumberType::F32));
    assert_eq!(NumberType::new::<F64>(), Some(NumberType::F64));
    assert_eq!(NumberType::new::<i16>(), Some(NumberType::I16));
    assert_eq!(NumberType::new::<i32>(), Some(NumberType::I32));
    assert_eq!(NumberType::new::<i64>(), Some(NumberType::I64));
    assert_eq!(NumberType::new::<u16>(), Some(NumberType::U16));
    assert_eq!(NumberType::new::<u32>(), Some(NumberType::U32));
    assert_eq!(NumberType::new::<u64>(), Some(NumberType::U64));
}

#[test]
fn test_discriminant_of_each_kind() {
    assert_eq!(NumberType::U32.descriminant(), 1);
    assert_eq!(NumberType::U64.descriminant(), 2);
    assert_eq!(NumberType::I32.descriminant(), 3);
    assert_eq!(NumberType::I64.descriminant(), 4);
    assert_eq!(NumberType::F32.descriminant(), 5);
    assert_eq!(NumberType::F64.descriminant(), 6);
    assert_eq!(NumberType::U16.descriminant(), 7);
    assert_eq!(NumberType::I16.descriminant(), 8);
    assert_eq!(NumberType::F16.descriminant(), 9);
}

#[test]
fn test_discriminant_bijection() {
    for kind in all_kinds() {
        assert_eq!(NumberType::from_descriminant(kind.descriminant()), Some(kind));
    }
    let mut known = 0;
    for byte in 0..=255u8 {
        match NumberType::from_descriminant(byte) {
            Some(kind) => {
                assert_eq!(kind.descriminant(), byte);
                known += 1;
            }
            None => assert!(byte == 0 || byte > 9),
        }
    }
    assert_eq!(known, 9);
}

#[test]
fn test_unassigned_discriminants_give_nothing() {
    assert_eq!(NumberType::from_descriminant(0), None);
    assert_eq!(NumberType::from_descriminant(10), None);
    assert_eq!(NumberType::from_descriminant(77), None);
    assert_eq!(NumberType::from_descriminant(255), None);
}

#[test]
fn test_bits_and_widths() {
    for kind in all_kinds() {
        assert_eq!(kind.byte_width() * 8, kind.bits() as usize);
    }
    assert_eq!(NumberType::F16.bits(), 16);
    assert_eq!(NumberType::I32.bits(), 32);
    assert_eq!(NumberType::U64.bits(), 64);
    assert_eq!(NumberType::U16.byte_width(), 2);
    assert_eq!(NumberType::F32.byte_width(), 4);
    assert_eq!(NumberType::I64.byte_width(), 8);
}

#[test]
fn test_largest_latents() {
    assert_eq!(NumberType::F16.max_latent(), 0xffff);
    assert_eq!(NumberType::I16.max_latent(), 0xffff);
    assert_eq!(NumberType::U32.max_latent(), 0xffff_ffff);
    assert_eq!(NumberType::F64.max_latent(), u64::MAX);
    for kind in all_kinds() {
        assert_eq!(kind.max_latent(), u64::MAX >> (64 - kind.bits()));
    }
}

#[test]
fn test_container_takes_the_same_room_for_every_kind() {
    assert_eq!(size_of::<Vec<u16>>(), size_of::<Vec<u64>>());
    assert_eq!(size_of::<Vec<F16>>(), size_of::<Vec<F64>>());
    assert_eq!(size_of::<Vec<i32>>(), size_of::<Vec<F32>>());
    assert_eq!(size_of::<F16>(), 2);
    assert_eq!(size_of::<F32>(), 4);
    assert_eq!(size_of::<F64>(), 8);
}

#[test]
fn test_names() {
    let names: Vec<&str> = all_kinds().into_iter().map(|kind| kind.name()).collect();
    assert_eq!(names, vec!["f16", "f32", "f64", "i16", "i32", "i64", "u16", "u32", "u64"]);
}

#[test]
fn test_round_trip_every_kind() {
    let f16s = vec![F16::from_bits(0), F16::from_bits(0xffff)];
    assert_eq!(generic_new(f16s.clone()).downcast::<F16>(), Some(f16s));
    let f32s = vec![F32::from_bits(1.5f32.to_bits()), F32::from_bits((-0.0f32).to_bits())];
    assert_eq!(generic_new(f32s.clone()).downcast::<F32>(), Some(f32s));
    let f64s = vec![F64::from_bits(f64::NAN.to_bits()), F64::from_bits(2.5f64.to_bits())];
    assert_eq!(generic_new(f64s.clone()).downcast::<F64>(), Some(f64s));
    let i16s = vec![i16::MIN, -1, 0, 1, i16::MAX];
    assert_eq!(generic_new(i16s.clone()).downcast::<i16>(), Some(i16s));
    let i32s = vec![i32::MIN, -1, 0, 1, i32::MAX];
    assert_eq!(generic_new(i32s.clone()).downcast::<i32>(), Some(i32s));
    let i64s = vec![i64::MIN, -1, 0, 1, i64::MAX];
    assert_eq!(generic_new(i64s.clone()).downcast::<i64>(), Some(i64s));
    let u16s = vec![0, 1, u16::MAX];
    assert_eq!(generic_new(u16s.clone()).downcast::<u16>(), Some(u16s));
    let u32s = vec![0, 1, u32::MAX];
    assert_eq!(generic_new(u32s.clone()).downcast::<u32>(), Some(u32s));
    let u64s = vec![0, 1, u64::MAX];
    assert_eq!(generic_new(u64s.clone()).downcast::<u64>(), Some(u64s));
    let none: Vec<u32> = Vec::new();
    assert_eq!(generic_new(none.clone()).downcast::<u32>(), Some(none));
}

#[test]
fn test_round_trip_moves_the_buffer() {
    let inner: Vec<u64> = (0..1000).collect();
    let address = inner.as_ptr();
    let capacity = inner.capacity();
    let back = generic_new(inner).downcast::<u64>().unwrap();
    assert_eq!(back.as_ptr(), address);
    assert_eq!(back.capacity(), capacity);
    assert_eq!(back.len(), 1000);
    assert_eq!(back[999], 999);
}

#[test]
fn test_downcast_to_another_type_gives_nothing() {
    assert_eq!(generic_new(vec![1u16, 2]).downcast::<i16>(), None);
    assert_eq!(generic_new(vec![1u16, 2]).downcast::<F16>(), None);
    assert_eq!(generic_new(vec![1u16, 2]).downcast::<u32>(), None);
    assert_eq!(generic_new(vec![1u32, 2]).downcast::<F32>(), None);
    assert_eq!(generic_new(vec![1i64, 2]).downcast::<u64>(), None);
    assert_eq!(generic_new(vec![F64::from_bits(7)]).downcast::<u64>(), None);
    for erased in one_of_each() {
        let kind = erased.dtype();
        assert_eq!(erased.downcast_ref::<F16>().is_some(), kind == NumberType::F16);
        assert_eq!(erased.downcast_ref::<F32>().is_some(), kind == NumberType::F32);
        assert_eq!(erased.downcast_ref::<F64>().is_some(), kind == NumberType::F64);
        assert_eq!(erased.downcast_ref::<i16>().is_some(), kind == NumberType::I16);
        assert_eq!(erased.downcast_ref::<i32>().is_some(), kind == NumberType::I32);
        assert_eq!(erased.downcast_ref::<i64>().is_some(), kind == NumberType::I64);
        assert_eq!(erased.downcast_ref::<u16>().is_some(), kind == NumberType::U16);
        assert_eq!(erased.downcast_ref::<u32>().is_some(), kind == NumberType::U32);
        assert_eq!(erased.downcast_ref::<u64>().is_some(), kind == NumberType::U64);
    }
}

#[test]
fn test_downcast_ref_and_mut() {
    let mut erased = generic_new(vec![10i32, 20]);
    assert_eq!(erased.downcast_ref::<i32>(), Some(&vec![10, 20]));
    assert!(erased.downcast_ref::<u32>().is_none());
    assert!(erased.downcast_mut::<i64>().is_none());
    erased.downcast_mut::<i32>().unwrap().push(30);
    assert_eq!(erased.n(), 3);
    assert_eq!(erased.dtype(), NumberType::I32);
    assert_eq!(erased.downcast::<i32>(), Some(vec![10, 20, 30]));
}

#[test]
fn test_every_kind_is_dispatched() {
    let erased = one_of_each();
    let kinds: Vec<NumberType> = erased.iter().map(|nums| nums.dtype()).collect();
    assert_eq!(kinds, all_kinds());
    for nums in &erased {
        assert_eq!(nums.n(), 1);
        assert_eq!(nums.truncated(1).n(), 1);
        assert_eq!(nums.truncated(0).n(), 0);
        assert_eq!(nums.truncated(0).dtype(), nums.dtype());
        assert_eq!(nums.check_equal(nums), Ok(()));
    }
}

#[test]
fn test_dispatch_reaches_the_type_of_every_kind() {
    let sizes: Vec<usize> = one_of_each().iter().map(|nums| nums.dispatch(&BitSize)).collect();
    assert_eq!(sizes, vec![16, 32, 64, 16, 32, 64, 16, 32, 64]);
    for kind in all_kinds() {
        assert_eq!(kind.dispatch(&ByteWidth), kind.byte_width());
    }
}

#[test]
fn test_truncated() {
    let nums = generic_new(vec![5u32, 6, 7, 8]);
    assert_eq!(nums.truncated(2).downcast::<u32>(), Some(vec![5, 6]));
    assert_eq!(nums.truncated(4).downcast::<u32>(), Some(vec![5, 6, 7, 8]));
    assert_eq!(nums.truncated(0).downcast::<u32>(), Some(vec![]));
    assert_eq!(nums.n(), 4);
}

#[test]
fn test_check_equal_slices() {
    assert_eq!(check_equal(&[1u16, 2, 3], &[1, 2, 3]), Ok(()));
    assert_eq!(check_equal::<i64>(&[], &[]), Ok(()));
    assert_eq!(
        check_equal(&[1u16, 2], &[1, 2, 3]),
        Err(CheckError::Length { recovered: 2, original: 3 })
    );
    assert_eq!(check_equal(&[1i32, 9, 3, 9], &[1, 2, 3, 4]), Err(CheckError::Value { index: 1 }));
    assert_eq!(check_equal(&[0u64, 0, 1], &[0, 0, 2]), Err(CheckError::Value { index: 2 }));
}

#[test]
fn test_check_equal_floats_by_bits() {
    let nan = F32::from_bits(f32::NAN.to_bits());
    assert_eq!(check_equal(&[nan], &[nan]), Ok(()));
    let zero = F64::from_bits(0.0f64.to_bits());
    let minus_zero = F64::from_bits((-0.0f64).to_bits());
    assert_eq!(check_equal(&[zero], &[minus_zero]), Err(CheckError::Value { index: 0 }));
}

#[test]
fn test_check_equal_containers() {
    let a = generic_new(vec![1i16, 2]);
    assert_eq!(a.check_equal(&generic_new(vec![1i16, 2])), Ok(()));
    assert_eq!(a.check_equal(&generic_new(vec![1u16, 2])), Err(CheckError::Type));
    assert_eq!(a.check_equal(&generic_new(vec![1i16, 3])), Err(CheckError::Value { index: 1 }));
    assert_eq!(
        a.check_equal(&generic_new(vec![1i16])),
        Err(CheckError::Length { recovered: 2, original: 1 })
    );
}

#[test]
fn test_latents_of_integers() {
    assert_eq!(0u16.to_latent_ordered(), 0);
    assert_eq!(u16::MAX.to_latent_ordered(), 0xffff);
    assert_eq!(u32::MAX.to_latent_ordered(), 0xffff_ffff);
    assert_eq!(u64::MAX.to_latent_ordered(), u64::MAX);
    assert_eq!(i16::MIN.to_latent_ordered(), 0);
    assert_eq!((-1i16).to_latent_ordered(), 0x7fff);
    assert_eq!(0i16.to_latent_ordered(), 0x8000);
    assert_eq!(i16::MAX.to_latent_ordered(), 0xffff);
    assert_eq!(i32::MIN.to_latent_ordered(), 0);
    assert_eq!(5i32.to_latent_ordered(), 0x8000_0005);
    assert_eq!(i64::MIN.to_latent_ordered(), 0);
    assert_eq!((-1i64).to_latent_ordered(), 0x7fff_ffff_ffff_ffff);
    assert_eq!(i64::MAX.to_latent_ordered(), u64::MAX);
}

#[test]
fn test_latents_of_floats() {
    assert_eq!(F32::from_bits(0.0f32.to_bits()).to_latent_ordered(), 0x8000_0000);
    assert_eq!(F32::from_bits((-0.0f32).to_bits()).to_latent_ordered(), 0x7fff_ffff);
    assert_eq!(F32::from_bits(1.0f32.to_bits()).to_latent_ordered(), 0xbf80_0000);
    assert_eq!(F32::from_bits((-1.0f32).to_bits()).to_latent_ordered(), 0x407f_ffff);
    assert_eq!(F16::from_bits(0x3c00).to_latent_ordered(), 0xbc00);
    assert_eq!(F16::from_bits(0xbc00).to_latent_ordered(), 0x43ff);
    assert_eq!(F64::from_bits(0).to_latent_ordered(), 0x8000_0000_0000_0000);
    assert_eq!(F64::from_bits(u64::MAX).to_latent_ordered(), 0);
}

#[test]
fn test_latents_keep_the_order() {
    let floats = [-1.0e30f32, -2.5, -1.0, -0.0, 0.0, 1.0e-30, 1.0, 2.5, f32::INFINITY];
    let latents: Vec<u64> =
        floats.iter().map(|x| F32::from_bits(x.to_bits()).to_latent_ordered()).collect();
    for pair in latents.windows(2) {
        assert!(pair[0] < pair[1]);
    }
    let ints = [i64::MIN, -7, -1, 0, 1, 7, i64::MAX];
    let latents: Vec<u64> = ints.iter().map(|x| x.to_latent_ordered()).collect();
    for pair in latents.windows(2) {
        assert!(pair[0] < pair[1]);
    }
}

#[test]
fn test_numbers_of_latents() {
    assert_eq!(u16::from_latent_ordered(0x1234), 0x1234);
    assert_eq!(u16::from_latent_ordered(0x5_1234), 0x1234);
    assert_eq!(i16::from_latent_ordered(0), i16::MIN);
    assert_eq!(i16::from_latent_ordered(0x8000), 0);
    assert_eq!(i32::from_latent_ordered(0x8000_0005), 5);
    assert_eq!(i64::from_latent_ordered(u64::MAX), i64::MAX);
    assert_eq!(u64::from_latent_ordered(u64::MAX), u64::MAX);
    assert_eq!(F32::from_latent_ordered(0xbf80_0000).to_bits(), 1.0f32.to_bits());
    assert_eq!(F64::from_latent_ordered(0).to_bits(), u64::MAX);
    for bits in [0u16, 1, 0x7fff, 0x8000, 0x8001, 0xffff] {
        let latent = F16::from_bits(bits).to_latent_ordered();
        assert_eq!(F16::from_latent_ordered(latent).to_bits(), bits);
    }
    for x in [i32::MIN, -1, 0, 1, i32::MAX] {
        assert_eq!(i32::from_latent_ordered(x.to_latent_ordered()), x);
    }
}

#[test]
fn test_float_wrappers_hold_bits() {
    assert_eq!(F16::from_bits(0x3c00).to_bits(), 0x3c00);
    assert_eq!(f32::from_bits(F32::from_bits(1.5f32.to_bits()).to_bits()), 1.5);
    assert_eq!(f64::from_bits(F64::from_bits((-2.25f64).to_bits()).to_bits()), -2.25);
}
