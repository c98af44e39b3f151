use cour2ier::arch::pointer_width_from_arch_info;
use cour2ier::codec::{decode_le, encode_le};
use cour2ier::errors::Error;
use cour2ier::host_value::{HostValue, ObjField};
use cour2ier::index::parse_frame_index;
use cour2ier::memory::decode_read_response;
use cour2ier::registers::{resolve_stack_pointers, RegEntry};

fn obj(fields: Vec<(&str, HostValue)>) -> HostValue {
    HostValue::Object(
        fields
            .into_iter()
            .map(|(k, v)| ObjField { key: k.as_bytes().to_vec(), value: v })
            .collect(),
    )
}

fn byte_list(bytes: &[u8]) -> HostValue {
    HostValue::List(bytes.iter().map(|b| HostValue::Num(*b as u64)).collect())
}

#[test]
fn decode_is_little_endian() {
    assert_eq!(decode_le(&[0x78, 0x56, 0x34, 0x12]), 0x12345678);
    assert_eq!(decode_le(&[]), 0);
    assert_eq!(decode_le(&[0xFF; 8]), u64::MAX);
}

#[test]
fn encode_is_little_endian() {
    assert_eq!(encode_le(0x28, 2), vec![0x28, 0x00]);
    assert_eq!(encode_le(0x12345678, 4), vec![0x78, 0x56, 0x34, 0x12]);
}

#[test]
fn round_trip_width_4() {
    let b = [0xDE, 0xAD, 0xBE, 0xEF];
    assert_eq!(encode_le(decode_le(&b), 4), b.to_vec());
}

#[test]
fn round_trip_width_8() {
    let b = [0x01, 0x00, 0xFE, 0x7F, 0x80, 0xAA, 0x55, 0xFF];
    assert_eq!(encode_le(decode_le(&b), 8), b.to_vec());
}

#[test]
fn value_round_trip_keeps_fitting_values() {
    assert_eq!(decode_le(&encode_le(0x12345678, 4)), 0x12345678);
    assert_eq!(decode_le(&encode_le(u64::MAX, 8)), u64::MAX);
    // A value wider than the encoding keeps only the bytes encoded.
    assert_eq!(decode_le(&encode_le(0x1FF, 1)), 0xFF);
}

#[test]
fn register_snapshot_example() {
    // {"eax":1,"esp":4096,"ebp":4144} resolves to (4096, 4144).
    let entries = vec![
        RegEntry { name: b"eax".to_vec(), value: 1 },
        RegEntry { name: b"esp".to_vec(), value: 4096 },
        RegEntry { name: b"ebp".to_vec(), value: 4144 },
    ];
    assert_eq!(resolve_stack_pointers(&entries), Ok((4096, 4144)));
}

#[test]
fn last_matching_register_wins() {
    let entries = vec![
        RegEntry { name: b"esp".to_vec(), value: 1 },
        RegEntry { name: b"rsp".to_vec(), value: 2 },
        RegEntry { name: b"ebp".to_vec(), value: 3 },
        RegEntry { name: b"rbp".to_vec(), value: 4 },
    ];
    assert_eq!(resolve_stack_pointers(&entries), Ok((2, 4)));
}

#[test]
fn bare_suffix_names_match() {
    let entries = vec![
        RegEntry { name: b"sp".to_vec(), value: 10 },
        RegEntry { name: b"bp".to_vec(), value: 20 },
    ];
    assert_eq!(resolve_stack_pointers(&entries), Ok((10, 20)));
}

#[test]
fn missing_stack_pointer_is_reported_first() {
    let entries = vec![RegEntry { name: b"eax".to_vec(), value: 1 }];
    assert_eq!(
        resolve_stack_pointers(&entries),
        Err(Error::MissingStackPointer)
    );
    let entries: Vec<RegEntry> = Vec::new();
    assert_eq!(
        resolve_stack_pointers(&entries),
        Err(Error::MissingStackPointer)
    );
}

#[test]
fn missing_base_pointer_is_reported() {
    let entries = vec![RegEntry { name: b"esp".to_vec(), value: 4096 }];
    assert_eq!(
        resolve_stack_pointers(&entries),
        Err(Error::MissingBasePointer)
    );
}

#[test]
fn parse_plain_indices() {
    assert_eq!(parse_frame_index(b"0"), Ok(0));
    assert_eq!(parse_frame_index(b"12"), Ok(12));
    assert_eq!(parse_frame_index(b"+5"), Ok(5));
    assert_eq!(parse_frame_index(b"18446744073709551615"), Ok(u64::MAX));
}

#[test]
fn malformed_index_is_invalid_input() {
    assert_eq!(parse_frame_index(b"abc"), Err(Error::InvalidIndex));
    assert_eq!(parse_frame_index(b""), Err(Error::InvalidIndex));
    assert_eq!(parse_frame_index(b"+"), Err(Error::InvalidIndex));
    assert_eq!(parse_frame_index(b"-1"), Err(Error::InvalidIndex));
    assert_eq!(parse_frame_index(b"1 2"), Err(Error::InvalidIndex));
    assert_eq!(
        parse_frame_index(b"18446744073709551616"),
        Err(Error::InvalidIndex)
    );
}

#[test]
fn pointer_width_from_bits() {
    let info = obj(vec![(
        "bins",
        HostValue::List(vec![obj(vec![("bits", HostValue::Num(64))])]),
    )]);
    assert_eq!(pointer_width_from_arch_info(&info), Ok(8));

    let info = obj(vec![(
        "bins",
        HostValue::List(vec![obj(vec![("bits", HostValue::Num(32))])]),
    )]);
    assert_eq!(pointer_width_from_arch_info(&info), Ok(4));
}

#[test]
fn arch_info_without_bits_is_malformed() {
    let no_bins = obj(vec![("arch", HostValue::Num(1))]);
    assert_eq!(pointer_width_from_arch_info(&no_bins), Err(Error::Schema));

    let empty_bins = obj(vec![("bins", HostValue::List(vec![]))]);
    assert_eq!(pointer_width_from_arch_info(&empty_bins), Err(Error::Schema));

    let text_bits = obj(vec![(
        "bins",
        HostValue::List(vec![obj(vec![("bits", HostValue::Text(b"64".to_vec()))])]),
    )]);
    assert_eq!(pointer_width_from_arch_info(&text_bits), Err(Error::Schema));

    let not_object = HostValue::Num(64);
    assert_eq!(pointer_width_from_arch_info(&not_object), Err(Error::Schema));
}

#[test]
fn memory_read_decodes_little_endian() {
    let data = byte_list(&[0x20, 0x10, 0, 0, 0, 0, 0, 0]);
    assert_eq!(decode_read_response(&data, 8), Ok(0x1020));

    let data = byte_list(&[0, 0, 0, 0, 0, 0, 0, 0]);
    assert_eq!(decode_read_response(&data, 8), Ok(0));

    let data = byte_list(&[0x04, 0x03, 0x02, 0x01]);
    assert_eq!(decode_read_response(&data, 4), Ok(0x01020304));
}

#[test]
fn memory_read_of_wrong_shape_is_malformed() {
    // Length differing from the request is rejected before decoding.
    let short = byte_list(&[0x20, 0x10]);
    assert_eq!(decode_read_response(&short, 8), Err(Error::Schema));

    let oversized_item = HostValue::List(vec![HostValue::Num(256)]);
    assert_eq!(decode_read_response(&oversized_item, 1), Err(Error::Schema));

    let text_item = HostValue::List(vec![HostValue::Text(b"20".to_vec())]);
    assert_eq!(decode_read_response(&text_item, 1), Err(Error::Schema));

    let not_a_list = HostValue::Num(7);
    assert_eq!(decode_read_response(&not_a_list, 8), Err(Error::Schema));
}
