//! The request for the revocation list.
use node_manager::crl::{
    ask_for_crl, create_request, encode_to_vec, get_crl, selector, ProtoRequest,
};

#[test]
fn functions_are_known_by_their_hashes() {
    assert_eq!(encode_to_vec(&vec![]), vec![0xc5, 0xd2, 0x46, 0x01]);
    assert_eq!(
        encode_to_vec(&b"transfer(address,uint256)".to_vec()),
        vec![0xa9, 0x05, 0x9c, 0xbb]
    );
    assert_eq!(encode_to_vec(&b"getCrl()".to_vec()), vec![0x59, 0xfc, 0x54, 0xd5]);
    assert_eq!(selector(vec![1, 2, 3, 4, 5]), vec![1, 2, 3, 4]);
}

#[test]
fn requests_have_random_numbers() {
    let a = create_request();
    let b = create_request();
    assert_eq!(a.request_id.len(), 16);
    assert_eq!(a.request_id[6] & 0xf0, 0x40);
    assert_eq!(a.request_id[8] & 0xc0, 0x80);
    assert!(a.request_id != b.request_id);
    assert!(a.call.is_none());
}

#[test]
fn the_list_is_asked_for_by_a_call() {
    let request = ask_for_crl(ProtoRequest { request_id: vec![1, 2], call: None });
    assert_eq!(request.request_id, vec![1, 2]);
    let call = request.call.unwrap();
    assert_eq!(call.from, vec![0; 20]);
    let mut to = vec![0xff; 17];
    to.extend([0x02, 0x00, 0x30]);
    assert_eq!(call.to, to);
    assert_eq!(call.data, vec![0x59, 0xfc, 0x54, 0xd5]);
    assert_eq!(call.height, "\"latest\"");
}

#[test]
fn every_request_for_the_list_is_a_new_one() {
    let a = get_crl();
    let b = get_crl();
    assert_eq!(a.request_id.len(), 16);
    assert!(a.request_id != b.request_id);
    assert_eq!(a.call.unwrap().data, b.call.unwrap().data);
}
