//! The message with which a node introduces itself on a new session.
use vstd::prelude::*;

use crate::bytes::{
    address_at, address_bytes, address_of, be_bytes, be_value, law_address_of_its_bytes,
    law_bytes_are_digits, law_bytes_of_their_address, lemma_be_bytes_len, lemma_be_value_bound,
    lemma_bytes_of_value, lemma_room_of_words, lemma_value_of_bytes, push_address, read_u64, room,
    write_u64,
};
use crate::types::Address;

verus! {

/// Chain, account and, where certificates are in use, the certificate of a
/// node.
pub struct InitMsg {
    pub chain_id: u64,
    pub peer_key: Address,
    /// The certificate in PEM format.
    pub node_crt: Option<Vec<u8>>,
}

/// What an [`InitMsg`] says.
#[verifier::ext_equal]
pub struct InitState {
    pub chain_id: u64,
    pub peer_key: Address,
    pub node_crt: Option<Seq<u8>>,
}

impl View for InitMsg {
    type V = InitState;

    open spec fn view(&self) -> InitState {
        InitState {
            chain_id: self.chain_id,
            peer_key: self.peer_key,
            node_crt: match self.node_crt {
                Some(crt) => Some(crt@),
                None => None,
            },
        }
    }
}

/// Eight bytes of chain id, twenty of account address, and the certificate.
pub open spec fn encoded(msg: InitState) -> Seq<u8> {
    be_bytes(msg.chain_id as nat, 8) + address_bytes(msg.peer_key) + match msg.node_crt {
        Some(crt) => crt,
        None => Seq::empty(),
    }
}

/// The message that `data` encodes: a certificate is there where bytes are
/// left after the account address.
pub open spec fn decoded(data: Seq<u8>) -> InitState {
    InitState {
        chain_id: be_value(data.subrange(0, 8)) as u64,
        peer_key: address_of(data.subrange(8, 28)),
        node_crt: if data.len() > 28 {
            Some(data.subrange(28, data.len() as int))
        } else {
            None
        },
    }
}

impl Default for InitMsg {
    fn default() -> (r: Self)
        ensures
            r@ == (InitState { chain_id: 0, peer_key: (0, 0), node_crt: None }),
    {
        InitMsg { chain_id: 0, peer_key: (0, 0), node_crt: None }
    }
}

impl Clone for InitMsg {
    fn clone(&self) -> (r: Self)
        ensures
            r@ == self@,
    {
        let node_crt = match &self.node_crt {
            Some(crt) => Some(crt.clone()),
            None => None,
        };
        InitMsg { chain_id: self.chain_id, peer_key: self.peer_key, node_crt }
    }
}

impl InitMsg {
    /// The bytes of the message on the wire.
    pub fn into(self) -> (out: Vec<u8>)
        ensures
            out@ == encoded(self@),
    {
        let mut out: Vec<u8> = write_u64(self.chain_id);
        push_address(&mut out, self.peer_key);
        if let Some(crt) = self.node_crt {
            let mut crt = crt;
            out.append(&mut crt);
        }
        assert(out@ =~= encoded(self@));
        out
    }

    /// The message in `data`.
    pub fn from(data: Vec<u8>) -> (r: InitMsg)
        requires
            data@.len() >= 28,
        ensures
            r@ == decoded(data@),
    {
        let mut data = data;
        let ghost whole = data@;
        let peer_key = address_at(&data, 8);
        let mut rest: Vec<u8> = data.split_off(8);
        let chain_id = read_u64(&data);
        proof {
            lemma_be_value_bound(data@);
            lemma_room_of_words();
        }
        if rest.len() > 20 {
            let crt = rest.split_off(20);
            assert(crt@ =~= whole.subrange(28, whole.len() as int));
            InitMsg { chain_id, peer_key, node_crt: Some(crt) }
        } else {
            InitMsg { chain_id, peer_key, node_crt: None }
        }
    }
}

/// A message that was encoded is decoded to itself, unless it carries a
/// certificate of no bytes, which is decoded as no certificate.
pub proof fn law_decodes_what_was_encoded(msg: InitState)
    requires
        msg.node_crt != Some(Seq::<u8>::empty()),
    ensures
        encoded(msg).len() >= 28,
        decoded(encoded(msg)) == msg,
{
    let data = encoded(msg);
    lemma_be_bytes_len(msg.chain_id as nat, 8);
    law_address_of_its_bytes(msg.peer_key);
    lemma_room_of_words();
    lemma_value_of_bytes(msg.chain_id as nat, 8);
    assert(data.subrange(0, 8) =~= be_bytes(msg.chain_id as nat, 8));
    assert(data.subrange(8, 28) =~= address_bytes(msg.peer_key));
    match msg.node_crt {
        Some(crt) => {
            assert(crt.len() > 0) by {
                if crt.len() == 0 {
                    assert(crt =~= Seq::<u8>::empty());
                }
            }
            assert(data.subrange(28, data.len() as int) =~= crt);
        },
        None => {},
    }
}

/// Every byte string that holds a message is the encoding of that message.
pub proof fn law_encodes_what_was_decoded(data: Seq<u8>)
    requires
        data.len() >= 28,
    ensures
        encoded(decoded(data)) == data,
{
    let chain = data.subrange(0, 8);
    lemma_be_value_bound(chain);
    lemma_room_of_words();
    lemma_bytes_of_value(chain);
    law_bytes_of_their_address(data.subrange(8, 28));
    assert(encoded(decoded(data)) =~= data);
}

/// Where each part of a message is on the wire: the digits of the chain id to
/// the base 256 in the first eight bytes, those of the account in the twenty
/// after them, and the certificate, if there is one, in the rest.
pub proof fn law_layout(msg: InitState, i: int)
    requires
        0 <= i < encoded(msg).len(),
    ensures
        encoded(msg).len() == 28 + match msg.node_crt {
            Some(crt) => crt.len(),
            None => 0,
        },
        i < 8 ==> encoded(msg)[i] as nat == (msg.chain_id as nat / room((7 - i) as nat)) % 256,
        8 <= i < 24 ==> encoded(msg)[i] as nat == (msg.peer_key.0 as nat / room(
            (23 - i) as nat,
        )) % 256,
        24 <= i < 28 ==> encoded(msg)[i] as nat == (msg.peer_key.1 as nat / room(
            (27 - i) as nat,
        )) % 256,
        28 <= i ==> msg.node_crt is Some && encoded(msg)[i] == msg.node_crt->0[i - 28],
{
    lemma_be_bytes_len(msg.chain_id as nat, 8);
    lemma_be_bytes_len(msg.peer_key.0 as nat, 16);
    lemma_be_bytes_len(msg.peer_key.1 as nat, 4);
    if i < 8 {
        law_bytes_are_digits(msg.chain_id as nat, 8, i);
    } else if i < 24 {
        law_bytes_are_digits(msg.peer_key.0 as nat, 16, i - 8);
    } else if i < 28 {
        law_bytes_are_digits(msg.peer_key.1 as nat, 4, i - 24);
    }
}

} // verus!
