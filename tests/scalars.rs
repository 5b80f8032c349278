use listinfo::scalar::{
    decode_char, decode_i128, decode_i16, decode_i64, decode_i8, decode_u128, decode_u16,
    decode_u32, decode_u8,
};
use listinfo::{Error, Kind};

#[test]
fn unsigned_integers() {
    assert_eq!(decode_u32("2004"), Ok(2004));
    assert_eq!(decode_u32("+7"), Ok(7));
    assert_eq!(decode_u32("007"), Ok(7));
    assert_eq!(decode_u8("255"), Ok(255));
    assert_eq!(
        decode_u8("256"),
        Err(Error::DeserializationTypeError(String::from("256"), Kind::U8))
    );
    assert!(decode_u8("-1").is_err());
    assert!(decode_u16("").is_err());
    assert!(decode_u16("+").is_err());
    assert!(decode_u16("12a").is_err());
    assert_eq!(decode_u128("340282366920938463463374607431768211455"), Ok(u128::MAX));
    assert!(decode_u128("340282366920938463463374607431768211456").is_err());
}

#[test]
fn signed_integers() {
    assert_eq!(decode_i8("-128"), Ok(-128));
    assert_eq!(decode_i8("127"), Ok(127));
    assert!(decode_i8("-129").is_err());
    assert!(decode_i8("128").is_err());
    assert_eq!(decode_i16("+12"), Ok(12));
    assert_eq!(decode_i64("-0"), Ok(0));
    assert!(decode_i64("-").is_err());
    assert!(decode_i64("--1").is_err());
    assert_eq!(decode_i128("-170141183460469231731687303715884105728"), Ok(i128::MIN));
    assert_eq!(decode_i128("170141183460469231731687303715884105727"), Ok(i128::MAX));
    assert_eq!(
        decode_i128("170141183460469231731687303715884105728"),
        Err(Error::DeserializationTypeError(
            String::from("170141183460469231731687303715884105728"),
            Kind::I128
        ))
    );
}

#[test]
fn characters() {
    assert_eq!(decode_char("x"), Ok('x'));
    assert_eq!(decode_char("é"), Ok('é'));
    assert_eq!(
        decode_char("xy"),
        Err(Error::DeserializationTypeError(String::from("xy"), Kind::Char))
    );
    assert!(decode_char("").is_err());
}
