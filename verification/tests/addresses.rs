//! Numbers, account addresses and texts.
use node_manager::bytes::{address_at, number_at, push_address, push_number};
use node_manager::cert::{address_in_name, CertError};
use node_manager::text::{contains, decimal_text, endpoint_text, sorts, Sorts};

fn named(text: &str) -> Result<(u128, u32), CertError> {
    address_in_name(Some(text.as_bytes().to_vec()))
}

#[test]
fn numbers_are_big_endian() {
    let mut out = vec![9];
    push_number(&mut out, 0x01020304, 4);
    assert_eq!(out, vec![9, 1, 2, 3, 4]);
    assert_eq!(number_at(&out, 1, 4), 0x01020304);
    assert_eq!(number_at(&out, 0, 2), 0x0901);
    assert_eq!(number_at(&out, 3, 0), 0);
}

#[test]
fn addresses_have_twenty_bytes() {
    let mut out = Vec::new();
    push_address(&mut out, (u128::MAX, 1));
    assert_eq!(out[..16], [0xff; 16]);
    assert_eq!(out[16..], [0, 0, 0, 1]);
    assert_eq!(address_at(&out, 0), (u128::MAX, 1));
}

#[test]
fn common_name_spells_an_address() {
    let expected = (0xffffffffffffffffffffffffffffffff, 0xff020030);
    assert_eq!(named("ffffffffffffffffffffffffffffffffff020030"), Ok(expected));
    assert_eq!(named("0xffffffffffffffffffffffffffffffffff020030"), Ok(expected));
    assert_eq!(named("0xFFFFFFFFFFFFFFFFFFFFFFFFFFFFFFFFFF020030"), Ok(expected));
}

#[test]
fn common_name_may_hold_blanks_and_a_second_prefix() {
    let expected = (1, 2);
    assert_eq!(named("0x0x00000000000000000000000000000001 00000002"), Ok(expected));
    assert_eq!(named("00000000000000000000000000000001\t\r\n00000002"), Ok(expected));
}

#[test]
fn common_name_that_is_no_address() {
    let wrong = Err(CertError::CommonNameNotAddress);
    assert_eq!(named(""), wrong);
    assert_eq!(named("ffffffffffffffffffffffffffffffffff02003"), wrong);
    assert_eq!(named("ffffffffffffffffffffffffffffffffff0200300"), wrong);
    assert_eq!(named("gfffffffffffffffffffffffffffffffff020030"), wrong);
    assert_eq!(named("0X00000000000000000000000000000001000002"), wrong);
}

#[test]
fn common_name_that_is_no_text() {
    assert_eq!(address_in_name(Some(vec![0xff, 0xfe])), Err(CertError::CommonNameNotText));
}

#[test]
fn missing_common_name() {
    assert_eq!(address_in_name(None), Err(CertError::NoCommonName));
}

#[test]
fn texts_sort_by_their_characters() {
    assert!(sorts("a", "b") == Sorts::Before);
    assert!(sorts("b", "a") == Sorts::After);
    assert!(sorts("a", "a") == Sorts::Same);
    assert!(sorts("a", "ab") == Sorts::Before);
    assert!(sorts("ab", "a") == Sorts::After);
    assert!(sorts("", "") == Sorts::Same);
    assert!(sorts("10.0.0.10:4000", "10.0.0.9:4000") == Sorts::Before);
    assert!(sorts("\u{e9}", "z") == Sorts::After);
}

#[test]
fn texts_hold_their_parts() {
    assert!(contains("net.consensus.msg", "consensus"));
    assert!(contains("consensus", "consensus"));
    assert!(contains("anything", ""));
    assert!(contains("", ""));
    assert!(contains("ab\u{e9}cd", "\u{e9}c"));
    assert!(!contains("consensu", "consensus"));
    assert!(!contains("net.consens.us", "consensus"));
    assert!(!contains("", "a"));
}

#[test]
fn peers_are_named_by_host_and_port() {
    assert_eq!(decimal_text(0), "0");
    assert_eq!(decimal_text(9), "9");
    assert_eq!(decimal_text(10), "10");
    assert_eq!(decimal_text(4000), "4000");
    assert_eq!(decimal_text(usize::MAX), usize::MAX.to_string());
    assert_eq!(endpoint_text(&"127.0.0.1".to_string(), 4000), "127.0.0.1:4000");
    assert_eq!(endpoint_text(&"node.example".to_string(), 0), "node.example:0");
}
