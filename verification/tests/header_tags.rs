use tttr_toolbox::errors::Error;
use tttr_toolbox::ptu::{le_i32, le_i64, le_u32, le_u64, process_tag, read_tag, PTUTag};

fn name_cell(name: &str) -> Vec<u8> {
    let mut cell = name.as_bytes().to_vec();
    while cell.len() < 32 {
        cell.push(0);
    }
    cell
}

#[test]
fn little_endian_readers() {
    assert_eq!(le_u32(&[0x78, 0x56, 0x34, 0x12]), 0x12345678);
    assert_eq!(le_i32(&[0xFF, 0xFF, 0xFF, 0xFF]), -1);
    assert_eq!(le_u64(&[1, 0, 0, 0, 0, 0, 0, 0x80]), 0x8000000000000001);
    assert_eq!(le_i64(&[0xFE, 0xFF, 0xFF, 0xFF, 0xFF, 0xFF, 0xFF, 0xFF]), -2);
    assert_eq!(le_i64(&42i64.to_le_bytes()), 42);
}

#[test]
fn read_tag_scalar_name_and_type() {
    let name = name_cell("TTResultFormat_TTTRRecType");
    let index = (-1i32).to_le_bytes().to_vec();
    let code = 0x10000008u32.to_le_bytes().to_vec();
    let (key, idx, ty) = read_tag(&name, &index, &code).unwrap();
    assert_eq!(key, "TTResultFormat_TTTRRecType");
    assert_eq!(idx, -1);
    assert_eq!(ty, 0x10000008);
}

#[test]
fn read_tag_appends_non_negative_index_to_the_name() {
    let name = name_cell("UsrHeadName");
    let index = 3i32.to_le_bytes().to_vec();
    let code = 0x4001FFFFu32.to_le_bytes().to_vec();
    let (key, idx, _) = read_tag(&name, &index, &code).unwrap();
    assert_eq!(key, "UsrHeadName3");
    assert_eq!(idx, 3);
}

#[test]
fn read_tag_rejects_unknown_type_codes_and_bad_names() {
    let name = name_cell("Fine");
    let index = (-1i32).to_le_bytes().to_vec();
    let bad_code = 0xDEADBEEFu32.to_le_bytes().to_vec();
    assert!(matches!(read_tag(&name, &index, &bad_code), Err(Error::InvalidHeader(_))));

    let mut bad_name = name_cell("Bad");
    bad_name[1] = 0xFF;
    let code = 0x10000008u32.to_le_bytes().to_vec();
    assert!(matches!(read_tag(&bad_name, &index, &code), Err(Error::InvalidHeader(_))));
}

#[test]
fn process_tag_scalars() {
    let int_value = 42i64.to_le_bytes();
    match process_tag(0x10000008, &int_value, &[]).unwrap() {
        PTUTag::Int8(x) => assert_eq!(x, 42),
        _ => panic!("expected an Int8 tag"),
    }
    let zero = 0i64.to_le_bytes();
    match process_tag(0x00000008, &zero, &[]).unwrap() {
        PTUTag::Bool8(b) => assert!(!b),
        _ => panic!("expected a Bool8 tag"),
    }
    match process_tag(0xFFFF0008, &zero, &[]).unwrap() {
        PTUTag::Empty8 => {},
        _ => panic!("expected an Empty8 tag"),
    }
    let float_bits = 0.5f64.to_bits().to_le_bytes();
    match process_tag(0x20000008, &float_bits, &[]).unwrap() {
        PTUTag::Float8(bits) => assert_eq!(f64::from_bits(bits), 0.5),
        _ => panic!("expected a Float8 tag"),
    }
}

#[test]
fn process_tag_ansi_string_trims_nuls() {
    let value = 7u64.to_le_bytes();
    let payload = b"Hello\0\0";
    match process_tag(0x4001FFFF, &value, payload).unwrap() {
        PTUTag::AnsiString8(s) => assert_eq!(s, "Hello"),
        _ => panic!("expected an AnsiString8 tag"),
    }
}

#[test]
fn process_tag_wide_string_decodes_big_endian_pairs() {
    let value = 6u64.to_le_bytes();
    let payload = [0x00u8, 0x41, 0x00, 0x42, 0x00, 0x00];
    match process_tag(0x4002FFFF, &value, &payload).unwrap() {
        PTUTag::WideString(s) => assert_eq!(s, "AB"),
        _ => panic!("expected a WideString tag"),
    }
}

#[test]
fn process_tag_float_array_and_blob() {
    let value = 16u64.to_le_bytes();
    let mut payload = Vec::new();
    payload.extend_from_slice(&1.5f64.to_bits().to_le_bytes());
    payload.extend_from_slice(&(-2.0f64).to_bits().to_le_bytes());
    match process_tag(0x2001FFFF, &value, &payload).unwrap() {
        PTUTag::Float8Array(bits) => {
            assert_eq!(bits.len(), 2);
            assert_eq!(f64::from_bits(bits[0]), 1.5);
            assert_eq!(f64::from_bits(bits[1]), -2.0);
        },
        _ => panic!("expected a Float8Array tag"),
    }
    let value = 3u64.to_le_bytes();
    match process_tag(0xFFFFFFFF, &value, &[9, 8, 7]).unwrap() {
        PTUTag::BinaryBlob(b) => assert_eq!(b, vec![9, 8, 7]),
        _ => panic!("expected a BinaryBlob tag"),
    }
}

#[test]
fn process_tag_error_paths() {
    let value = 4u64.to_le_bytes();
    // a payload shorter than the declared length reads as a short file
    assert!(matches!(process_tag(0x4001FFFF, &value, &[0x41]), Err(Error::IOError)));
    // an unknown tag-type code is a malformed header
    assert!(matches!(process_tag(0x12345678, &value, &[]), Err(Error::InvalidHeader(_))));
    // invalid UTF-8 in a string payload is a malformed header
    let value = 2u64.to_le_bytes();
    assert!(matches!(
        process_tag(0x4001FFFF, &value, &[0xFF, 0xFE]),
        Err(Error::InvalidHeader(_))
    ));
    // a lone UTF-16 surrogate is a malformed header too
    assert!(matches!(
        process_tag(0x4002FFFF, &value, &[0xD8, 0x00]),
        Err(Error::InvalidHeader(_))
    ));
}
