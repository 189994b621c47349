//! The request for the certificate revocation list.
//!
//! The list is kept by a contract of the chain and is read by a call of its
//! function `getCrl()`.
use vstd::prelude::*;

use crate::bytes::{address_bytes, push_address};
use crate::chance::{is_random_uuid, random_uuid};
use crate::types::Address;

verus! {

/// The address of the contract that keeps the list.
pub const CERT_REVOKE_MANAGER: Address = (0xffff_ffff_ffff_ffff_ffff_ffff_ffff_ffff, 0xff02_0030);

/// A call of a contract.
pub struct Call {
    pub from: Vec<u8>,
    pub to: Vec<u8>,
    pub data: Vec<u8>,
    /// The block against which the call is made, as a JSON value.
    pub height: String,
}

/// A request to the rest of the node.
pub struct ProtoRequest {
    pub request_id: Vec<u8>,
    pub call: Option<Call>,
}

/// What a [`Call`] says.
#[verifier::ext_equal]
pub struct CallState {
    pub from: Seq<u8>,
    pub to: Seq<u8>,
    pub data: Seq<u8>,
    pub height: Seq<char>,
}

/// What a [`ProtoRequest`] says.
#[verifier::ext_equal]
pub struct RequestState {
    pub request_id: Seq<u8>,
    pub call: Option<CallState>,
}

impl View for Call {
    type V = CallState;

    open spec fn view(&self) -> CallState {
        CallState { from: self.from@, to: self.to@, data: self.data@, height: self.height@ }
    }
}

impl View for ProtoRequest {
    type V = RequestState;

    open spec fn view(&self) -> RequestState {
        RequestState {
            request_id: self.request_id@,
            call: match self.call {
                Some(call) => Some(call@),
                None => None,
            },
        }
    }
}

/// The Keccak-256 hash of `data`.
pub uninterp spec fn keccak256_of(data: Seq<u8>) -> Seq<u8>;

/// `tiny_keccak::keccak256`: the hash of the bytes, which has thirty-two.
#[verifier::external_body]
fn keccak256(data: &Vec<u8>) -> (r: Vec<u8>)
    ensures
        r@ == keccak256_of(data@),
        r@.len() == 32,
{
    tiny_keccak::keccak256(data).to_vec()
}

/// The first four bytes of the hash of a function's signature, by which a
/// contract knows the function.
pub fn encode_to_vec(name: &Vec<u8>) -> (r: Vec<u8>)
    ensures
        r@ == keccak256_of(name@).take(4),
        r@.len() == 4,
{
    selector(keccak256(name))
}

/// The first four bytes of a hash.
pub fn selector(hash: Vec<u8>) -> (r: Vec<u8>)
    requires
        hash@.len() >= 4,
    ensures
        r@ == hash@.take(4),
{
    let mut r = hash;
    r.truncate(4);
    assert(r@ =~= hash@.take(4));
    r
}

/// A request with a random number and nothing in it.
pub fn create_request() -> (r: ProtoRequest)
    ensures
        is_random_uuid(r.request_id@),
        r.call is None,
{
    ProtoRequest { request_id: random_uuid(), call: None }
}

/// The signature `getCrl()`.
pub open spec fn get_crl_signature() -> Seq<u8> {
    seq![103u8, 101u8, 116u8, 67u8, 114u8, 108u8, 40u8, 41u8]
}

/// The request, under the given number, that asks for the list as of the
/// latest block, in the name of the zero address.
pub open spec fn crl_request(request_id: Seq<u8>) -> RequestState {
    RequestState {
        request_id,
        call: Some(
            CallState {
                from: address_bytes((0, 0)),
                to: address_bytes(CERT_REVOKE_MANAGER),
                data: keccak256_of(get_crl_signature()).take(4),
                height: "\"latest\""@,
            },
        ),
    }
}

/// Makes a request ask for the list.
pub fn ask_for_crl(request: ProtoRequest) -> (r: ProtoRequest)
    ensures
        r@ == crl_request(request.request_id@),
{
    let name: Vec<u8> = vec![103u8, 101u8, 116u8, 67u8, 114u8, 108u8, 40u8, 41u8];
    assert(name@ =~= get_crl_signature());
    let mut from: Vec<u8> = Vec::new();
    push_address(&mut from, (0, 0));
    assert(from@ =~= address_bytes((0, 0)));
    let mut to: Vec<u8> = Vec::new();
    push_address(&mut to, CERT_REVOKE_MANAGER);
    assert(to@ =~= address_bytes(CERT_REVOKE_MANAGER));
    let call = Call { from, to, data: encode_to_vec(&name), height: "\"latest\"".to_owned() };
    ProtoRequest { request_id: request.request_id, call: Some(call) }
}

/// A new request for the list.
pub fn get_crl() -> (r: ProtoRequest)
    ensures
        is_random_uuid(r.request_id@),
        r@ == crl_request(r.request_id@),
{
    ask_for_crl(create_request())
}

} // verus!
