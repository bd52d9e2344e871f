use prost::encoding::{decode_varint, encode_varint};
use ulink_zenoh::codec::write_varint;
use ulink_zenoh::numfmt::{i32_to_dec, parse_i32, u64_to_dec, u64_to_hex_upper};

const SAMPLES: [u64; 12] = [
    0,
    1,
    127,
    128,
    129,
    300,
    16383,
    16384,
    u32::MAX as u64,
    u64::MAX / 2,
    u64::MAX - 1,
    u64::MAX,
];

#[test]
fn varint_matches_protobuf_encoder() {
    for &n in SAMPLES.iter() {
        let mut mine: Vec<u8> = Vec::new();
        write_varint(&mut mine, n);
        let mut theirs: Vec<u8> = Vec::new();
        encode_varint(n, &mut theirs);
        assert_eq!(mine, theirs, "varint encodings differ for {}", n);
    }
}

#[test]
fn varint_decodes_with_protobuf_decoder() {
    for &n in SAMPLES.iter() {
        let mut mine: Vec<u8> = Vec::new();
        write_varint(&mut mine, n);
        let mut cursor: &[u8] = mine.as_slice();
        let decoded = decode_varint(&mut cursor).expect("a written varint must decode");
        assert_eq!(decoded, n);
        assert!(cursor.is_empty());
    }
}

#[test]
fn decimal_rendering_matches_std() {
    for &n in SAMPLES.iter() {
        assert_eq!(u64_to_dec(n), n.to_string().into_bytes());
    }
}

#[test]
fn hex_rendering_matches_std() {
    for &n in SAMPLES.iter() {
        assert_eq!(u64_to_hex_upper(n), format!("{:X}", n).into_bytes());
    }
}

#[test]
fn signed_decimal_rendering_matches_std() {
    for &n in [0i32, 1, -1, 42, -42, i32::MAX, i32::MIN].iter() {
        assert_eq!(i32_to_dec(n), n.to_string().into_bytes());
    }
}

#[test]
fn parse_i32_matches_std() {
    let cases: [&str; 14] = [
        "0", "1", "-1", "+7", "007", "2147483647", "-2147483648", "2147483648", "-2147483649",
        "", "-", "+", "4x", "99999999999999999999",
    ];
    for s in cases.iter() {
        assert_eq!(
            parse_i32(s.as_bytes()),
            s.parse::<i32>().ok(),
            "parse differs for {:?}",
            s
        );
    }
}
