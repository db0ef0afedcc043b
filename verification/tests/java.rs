use pco_core::data_types::{NumberType, F16, F32, F64};
use pco_core::errors::{ErrorKind, PcoError};
use pco_core::java::{
    chunk_config_from_java, handle_result, number_type_from_java, number_type_to_java,
    simple_compress_inner, simple_decompress_inner, Exception, ExceptionKind, Handled,
};
use pco_core::num_vec::NumVec;
use pco_core::standalone::HEADER_LEN;

#[test]
fn test_exception_kinds() {
    assert_eq!(ExceptionKind::of(ErrorKind::Io), ExceptionKind::Io);
    assert_eq!(ExceptionKind::of(ErrorKind::InvalidArgument), ExceptionKind::InvalidArgument);
    assert_eq!(ExceptionKind::of(ErrorKind::Compatibility), ExceptionKind::Runtime);
    assert_eq!(ExceptionKind::of(ErrorKind::Corruption), ExceptionKind::Runtime);
    assert_eq!(ExceptionKind::of(ErrorKind::InsufficientData), ExceptionKind::Runtime);
}

#[test]
fn test_exception_classes() {
    assert_eq!(
        ExceptionKind::InvalidArgument.descriptor(),
        "java/lang/IllegalArgumentException"
    );
    assert_eq!(ExceptionKind::Io.descriptor(), "java/io/IOException");
    assert_eq!(ExceptionKind::Runtime.descriptor(), "java/lang/RuntimeException");
}

#[test]
fn test_exception_from_error() {
    let exception = Exception::from(PcoError::CompressionLevel { level: 13 });
    assert_eq!(exception.kind, ExceptionKind::InvalidArgument);
    assert_eq!(
        exception.msg,
        "pco InvalidArgument error: compression level may not exceed 12 (was 13)"
    );
    let exception = Exception::from(PcoError::MagicHeader);
    assert_eq!(exception.kind, ExceptionKind::Runtime);
    assert_eq!(exception.msg, "pco Corruption error: magic header does not match");
    let exception = Exception::runtime("no such field".to_string());
    assert_eq!(exception.kind, ExceptionKind::Runtime);
    assert_eq!(exception.msg, "no such field");
}

#[test]
fn test_handle_result() {
    match handle_result::<u32>(Ok(5)) {
        Handled::Return(inner) => assert_eq!(inner, 5),
        Handled::Throw { .. } => panic!("nothing failed"),
    }
    let failure = Exception { kind: ExceptionKind::InvalidArgument, msg: "bad".to_string() };
    match handle_result::<u32>(Err(failure)) {
        Handled::Return(_) => panic!("the call failed"),
        Handled::Throw { descriptor, msg } => {
            assert_eq!(descriptor, "java/lang/IllegalArgumentException");
            assert_eq!(msg, "bad");
        }
    }
}

#[test]
fn test_number_type_bytes_of_java() {
    assert_eq!(number_type_from_java(1), Some(NumberType::U32));
    assert_eq!(number_type_from_java(9), Some(NumberType::F16));
    assert_eq!(number_type_from_java(0), None);
    assert_eq!(number_type_from_java(10), None);
    assert_eq!(number_type_from_java(-1), None);
    assert_eq!(number_type_from_java(i8::MIN), None);
    assert_eq!(number_type_to_java(NumberType::I16), 8);
    for byte in 1..=9i8 {
        assert_eq!(number_type_to_java(number_type_from_java(byte).unwrap()), byte);
    }
}

#[test]
fn test_chunk_config_of_java() {
    assert_eq!(chunk_config_from_java(0).compression_level, 0);
    assert_eq!(chunk_config_from_java(12).compression_level, 12);
    assert_eq!(chunk_config_from_java(i32::MAX).compression_level, i32::MAX as usize);
    assert_eq!(chunk_config_from_java(-1).compression_level, usize::MAX);
    assert_eq!(chunk_config_from_java(-2).compression_level, usize::MAX - 1);
    assert_eq!(chunk_config_from_java(i32::MIN).compression_level, i32::MIN as usize);
}

#[test]
fn test_inner_round_trip_of_every_kind() {
    let all = vec![
        NumVec::new(vec![F16::from_bits(0x3c00), F16::from_bits(0xfbff)]).unwrap(),
        NumVec::new(vec![F32::from_bits(1.5f32.to_bits())]).unwrap(),
        NumVec::new(vec![F64::from_bits((-2.5f64).to_bits()), F64::from_bits(0)]).unwrap(),
        NumVec::new(vec![i16::MIN, 7]).unwrap(),
        NumVec::new(vec![-1i32, i32::MAX, 0]).unwrap(),
        NumVec::new(vec![i64::MIN]).unwrap(),
        NumVec::new(vec![1u16, 1, 2, 3, 5]).unwrap(),
        NumVec::new(vec![u32::MAX]).unwrap(),
        NumVec::new(vec![0u64, u64::MAX]).unwrap(),
    ];
    for nums in &all {
        let bytes = simple_compress_inner(nums, 8).unwrap();
        assert_eq!(bytes[HEADER_LEN], nums.dtype().descriminant());
        let recovered = simple_decompress_inner(&bytes).unwrap().unwrap();
        assert_eq!(recovered.dtype(), nums.dtype());
        assert_eq!(recovered.n(), nums.n());
        assert_eq!(recovered.check_equal(nums), Ok(()));
    }
}

#[test]
fn test_inner_scenario() {
    let nums = NumVec::new(vec![1u16, 1, 2, 3, 5]).unwrap();
    let bytes = simple_compress_inner(&nums, 8).unwrap();
    let recovered = simple_decompress_inner(&bytes).unwrap().unwrap();
    assert_eq!(recovered.n(), 5);
    assert_eq!(recovered.downcast::<u16>(), Some(vec![1, 1, 2, 3, 5]));
}

#[test]
fn test_inner_nothing_compressed() {
    let nums = NumVec::new(Vec::<i32>::new()).unwrap();
    let bytes = simple_compress_inner(&nums, 8).unwrap();
    assert!(simple_decompress_inner(&bytes).unwrap().is_none());
}

#[test]
fn test_inner_unknown_tag() {
    let nums = NumVec::new(vec![1u16, 1, 2, 3, 5]).unwrap();
    let mut bytes = simple_compress_inner(&nums, 8).unwrap();
    bytes[HEADER_LEN] = 77;
    let exception = simple_decompress_inner(&bytes).unwrap_err();
    assert_eq!(exception.kind, ExceptionKind::Runtime);
    assert_eq!(exception.msg, "unrecognized pco number type byte 77");
    bytes[HEADER_LEN] = 255;
    let exception = simple_decompress_inner(&bytes).unwrap_err();
    assert_eq!(exception.msg, "unrecognized pco number type byte 255");
}

#[test]
fn test_inner_failures() {
    let nums = NumVec::new(vec![1u16, 2]).unwrap();
    let exception = simple_compress_inner(&nums, 13).unwrap_err();
    assert_eq!(exception.kind, ExceptionKind::InvalidArgument);
    assert_eq!(
        exception.msg,
        "pco InvalidArgument error: compression level may not exceed 12 (was 13)"
    );
    assert_eq!(simple_compress_inner(&nums, -1).unwrap_err().kind, ExceptionKind::InvalidArgument);
    let bytes = simple_compress_inner(&nums, 0).unwrap();
    let exception = simple_decompress_inner(&bytes[..3]).unwrap_err();
    assert_eq!(exception.kind, ExceptionKind::Runtime);
    assert_eq!(
        exception.msg,
        "pco InsufficientData error: the data ends too early: no more than 3 bytes were left"
    );
    let exception = simple_decompress_inner(&bytes[..bytes.len() - 1]).unwrap_err();
    assert_eq!(
        exception.msg,
        "pco InsufficientData error: the data ends too early: no more than 0 bytes were left"
    );
    let exception = simple_decompress_inner(&bytes[..HEADER_LEN]).unwrap_err();
    assert_eq!(exception.kind, ExceptionKind::Runtime);
}
