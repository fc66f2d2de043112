use latale_tools::spf::crypto::{crypt_finfo, crypt_resource, derive_resource_state};
use latale_tools::spf::FINFO_SIZE;

#[test]
fn finfo_keystream_matches_documented_value() {
    let mut actual = [0u8; FINFO_SIZE];
    crypt_finfo(&mut actual);

    let expected = [
        0x86, 0x1a, 0xa7, 0xd7, 0xf5, 0xed, 0xb2, 0xad, 0xc0, 0x8b, 0x64, 0xa4, 0xc9, 0xd7,
        0xde, 0x1f, 0x05, 0x4d, 0xa0, 0x5a, 0x48, 0x32, 0xe0, 0xdc, 0x0e, 0xe7, 0x6b, 0xe4,
        0x84, 0x52, 0x37, 0x8b, 0xee, 0x73, 0x4f, 0x74, 0x78, 0xb9, 0xde, 0x41, 0xa2, 0x1d,
        0x82, 0x30, 0x44, 0xe2, 0xee, 0x74, 0xa8, 0x8f, 0xd8, 0x2f, 0xc7, 0xdd, 0x79, 0xd3,
        0xb6, 0x18, 0x30, 0x14, 0x71, 0x9f, 0xce, 0xc7, 0x7a, 0x31, 0x65, 0x9a, 0x3a, 0xc1,
        0x64, 0x07, 0x82, 0xcd, 0x1a, 0x80, 0x2b, 0x97, 0x26, 0xae, 0x3a, 0x2c, 0x5f, 0xd5,
        0x34, 0xc5, 0x4b, 0xb5, 0x87, 0xae, 0x59, 0x4c, 0xea, 0xb7, 0x8e, 0x2f, 0xdd, 0x8a,
        0x22, 0xf8, 0x22, 0x1b, 0x78, 0x6c, 0x2d, 0x64, 0x5c, 0x5e, 0x96, 0x06, 0xdf, 0x9f,
        0xb0, 0xfb, 0xb5, 0xb1, 0x80, 0xf8, 0x00, 0x35, 0xd0, 0x1f, 0xce, 0xbb, 0x63, 0x40,
        0x28, 0x32, 0x65, 0xbf, 0x1f, 0x3f, 0x3e, 0x2f, 0xcf, 0x24, 0x15, 0xef, 0x5d, 0xd7,
    ];

    assert_eq!(actual, expected);
}

#[test]
fn resource_state_matches_documented_rowid_example() {
    let actual = derive_resource_state(0, 14_794, 0xf8c3_6632);
    let expected = [
        0x6e20_6843,
        0x646e_6167,
        0x2065_6854,
        0x6b63_6150,
        0x763a_8cc8,
        0xf5ae_eefd,
        0x68a8_c734,
        0xcc54_6a6e,
        0x4eaa_60a7,
        0x7f32_fed2,
        0x1f60_73d9,
        0xfc5b_3eec,
        0x5bd1_d05f,
        0x0000_0000,
        0xf8c3_5ff8,
        0xdead_19a0,
    ];

    assert_eq!(actual, expected);
}

#[test]
fn xor_is_reversible() {
    let mut data = b"encrypted SPF resource".to_vec();
    let original = data.clone();
    let size = data.len() as i32;

    crypt_resource(&mut data, 1234, size, 0xf8c3_6632);
    assert_ne!(data, original);
    crypt_resource(&mut data, 1234, size, 0xf8c3_6632);

    assert_eq!(data, original);
}

#[test]
fn finfo_crypt_is_its_own_inverse() {
    let mut data = [0u8; FINFO_SIZE];
    for (i, b) in data.iter_mut().enumerate() {
        *b = (i * 7) as u8;
    }
    let original = data;
    crypt_finfo(&mut data);
    assert_ne!(data, original);
    crypt_finfo(&mut data);
    assert_eq!(data, original);
}

#[test]
fn resource_keystream_depends_on_offset() {
    let mut a = vec![0u8; 80];
    let mut b = vec![0u8; 80];
    crypt_resource(&mut a, 0, 80, 0xf8c3_6632);
    crypt_resource(&mut b, 1, 80, 0xf8c3_6632);
    assert_ne!(a, b);
    assert_eq!(derive_resource_state(0, 14_794, 0xf8c3_6632)[13], 0);
}
