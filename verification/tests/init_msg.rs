//! The introduction of a node on the wire.
use node_manager::init_msg::InitMsg;

const KEY: (u128, u32) = (0x000102030405060708090a0b0c0d0e0f, 0x10111213);

#[test]
fn introduction_has_chain_then_account_then_certificate() {
    let msg = InitMsg { chain_id: 0x0102, peer_key: KEY, node_crt: Some(vec![0xaa, 0xbb]) };
    let mut expected = vec![0, 0, 0, 0, 0, 0, 1, 2];
    expected.extend(0..20u8);
    expected.extend([0xaa, 0xbb]);
    assert_eq!(msg.into(), expected);
}

#[test]
fn introduction_is_read_back() {
    let msg = InitMsg { chain_id: u64::MAX, peer_key: KEY, node_crt: Some(vec![7]) };
    let back = InitMsg::from(msg.clone().into());
    assert_eq!(back.chain_id, u64::MAX);
    assert_eq!(back.peer_key, KEY);
    assert_eq!(back.node_crt, Some(vec![7]));
    assert_eq!(back.into(), msg.into());
}

#[test]
fn introduction_without_certificate_has_twenty_eight_bytes() {
    let data = InitMsg { chain_id: 5, peer_key: KEY, node_crt: None }.into();
    assert_eq!(data.len(), 28);
    assert_eq!(InitMsg::from(data).node_crt, None);
}

#[test]
fn empty_certificate_is_read_as_none() {
    let data = InitMsg { chain_id: 5, peer_key: KEY, node_crt: Some(vec![]) }.into();
    assert_eq!(data.len(), 28);
    assert_eq!(InitMsg::from(data).node_crt, None);
}

#[test]
fn bytes_are_the_encoding_of_what_they_say() {
    let data: Vec<u8> = (0..40u8).map(|b| b.wrapping_mul(37)).collect();
    assert_eq!(InitMsg::from(data.clone()).into(), data);
}

#[test]
fn default_introduction_is_all_zero() {
    let msg = InitMsg::default();
    assert_eq!(msg.chain_id, 0);
    assert_eq!(msg.peer_key, (0, 0));
    assert_eq!(msg.node_crt, None);
    assert_eq!(msg.into(), vec![0; 28]);
}
