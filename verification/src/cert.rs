//! Certificates of nodes.
//!
//! A certificate is held in PEM format and handed to the openssl crate
//! wherever it has to be looked into.
use cita_types::clean_0x;
use openssl::error::ErrorStack;
use openssl::nid::Nid;
use openssl::stack::Stack;
use openssl::x509::store::X509StoreBuilder;
use openssl::x509::{X509StoreContext, X509};
use vstd::prelude::*;
use vstd::utf8::{decode_utf8, valid_utf8};

use crate::address::{hex_bytes, parse_hex, utf8_text, without_0x};
use crate::bytes::{
    address_at, address_bytes, address_of, law_address_of_its_bytes, law_bytes_of_their_address,
};
use crate::pem::{asks_for_password, may_be_encrypted};
use crate::types::{same_address, Address};

verus! {

/// The errors of the openssl crate.
#[verifier::external_type_specification]
#[verifier::external_body]
pub struct ExErrorStack(ErrorStack);

/// The bytes can be handed to the openssl crate: they are not too many, and
/// what it makes of them depends on nothing else.
pub open spec fn is_readable(pem: Seq<u8>) -> bool {
    pem.len() <= i32::MAX && !may_be_encrypted(pem)
}

/// Whether `X509::from_pem` of the openssl crate takes these bytes, which
/// must be readable.
pub uninterp spec fn pem_is_x509(pem: Seq<u8>) -> bool;

/// The bytes of the first common name in the subject of the certificate that
/// these readable bytes hold, as the openssl crate finds it.
pub uninterp spec fn pem_common_name(pem: Seq<u8>) -> Option<Seq<u8>>;

/// `answer` is one that the openssl crate may give, at some time, when it
/// checks the certificate `node` with `root` as the only trusted one: `Some`
/// is what the check found, `None` that it could not be made.
pub uninterp spec fn chain_may_answer(root: Seq<u8>, node: Seq<u8>, answer: Option<bool>) -> bool;

/// These bytes are readable and hold a certificate.
pub open spec fn is_certificate(pem: Seq<u8>) -> bool {
    is_readable(pem) && pem_is_x509(pem)
}

/// `X509::from_pem` of the openssl crate, of which only the success is told.
/// It panics on more than `i32::MAX` bytes, and asks for a password where the
/// certificate's block has encryption headers; such bytes are not handed to
/// it.
#[verifier::external_body]
fn parses(pem: &Vec<u8>) -> (r: bool)
    requires
        is_readable(pem@),
    ensures
        r == pem_is_x509(pem@),
{
    X509::from_pem(pem).is_ok()
}

/// `X509NameRef::entries_by_nid` of the openssl crate, on the subject of the
/// certificate: the data of the first common name.
#[verifier::external_body]
fn common_name_data(pem: &Vec<u8>) -> (r: Option<Vec<u8>>)
    requires
        is_certificate(pem@),
    ensures
        match r {
            Some(data) => pem_common_name(pem@) == Some(data@),
            None => pem_common_name(pem@) is None,
        },
{
    let crt = X509::from_pem(pem).unwrap();
    let mut names = crt.subject_name().entries_by_nid(Nid::COMMONNAME);
    names.next().map(|name| name.data().as_slice().to_vec())
}

/// `X509StoreContextRef::verify_cert` of the openssl crate, for the
/// certificate `node` with `root` as the only trusted one and no others in
/// between. The outcome depends on the time of the call: it is only said that
/// it is one that these two certificates may have.
#[verifier::external_body]
fn chain_verifies(root: &Vec<u8>, node: &Vec<u8>) -> (r: Result<bool, ErrorStack>)
    requires
        is_certificate(root@),
        is_certificate(node@),
    ensures
        chain_may_answer(
            root@,
            node@,
            match r {
                Ok(answer) => Some(answer),
                Err(_) => None,
            },
        ),
{
    let mut store = X509StoreBuilder::new().unwrap();
    store.add_cert(X509::from_pem(root).unwrap()).unwrap();
    let store = store.build();
    let node = X509::from_pem(node).unwrap();
    let chain = Stack::new().unwrap();
    X509StoreContext::new().unwrap().init(&store, &node, &chain, |c| c.verify_cert())
}

/// Why a certificate was not accepted.
#[derive(Clone, Copy, Debug, PartialEq, Eq, Structural)]
pub enum CertError {
    /// The check of the signatures could not be made.
    Chain,
    /// The check of the signatures failed.
    Unverified,
    /// The subject has no common name.
    NoCommonName,
    /// The common name is not text.
    CommonNameNotText,
    /// The common name is not an account address.
    CommonNameNotAddress,
    /// The common name is another address than the one that the node claims.
    OtherAddress,
    /// The address is on the revocation list.
    Revoked,
}

/// The address that a common name spells.
pub open spec fn named_address(common_name: Option<Seq<u8>>) -> Result<Address, CertError> {
    match common_name {
        None => Err(CertError::NoCommonName),
        Some(data) => if !valid_utf8(data) {
            Err(CertError::CommonNameNotText)
        } else {
            match hex_bytes(without_0x(decode_utf8(data))) {
                Some(bytes) => Ok(address_of(bytes)),
                None => Err(CertError::CommonNameNotAddress),
            }
        },
    }
}

/// The address that a common name spells.
pub fn address_in_name(common_name: Option<Vec<u8>>) -> (r: Result<Address, CertError>)
    ensures
        r == named_address(match common_name {
            Some(data) => Some(data@),
            None => None,
        }),
{
    match common_name {
        None => Err(CertError::NoCommonName),
        Some(data) => match utf8_text(&data) {
            None => Err(CertError::CommonNameNotText),
            Some(text) => match parse_hex(clean_0x(text.as_str())) {
                None => Err(CertError::CommonNameNotAddress),
                Some(bytes) => {
                    assert(bytes@.subrange(0, 20) =~= bytes@);
                    Ok(address_at(&bytes, 0))
                },
            },
        },
    }
}

/// A certificate.
pub struct Certificate {
    pem: Vec<u8>,
}

impl View for Certificate {
    type V = Seq<u8>;

    closed spec fn view(&self) -> Seq<u8> {
        self.pem@
    }
}

impl Certificate {
    #[verifier::type_invariant]
    spec fn inv(self) -> bool {
        is_certificate(self.pem@)
    }

    /// The certificate that `pem` holds, if it holds one that is not
    /// encrypted.
    pub fn from_pem(pem: Vec<u8>) -> (r: Option<Certificate>)
        ensures
            match r {
                Some(crt) => is_certificate(pem@) && crt@ == pem@,
                None => !is_certificate(pem@),
            },
    {
        if pem.len() <= i32::MAX as usize && !asks_for_password(&pem) && parses(&pem) {
            Some(Certificate { pem })
        } else {
            None
        }
    }

    /// The account address that the certificate names.
    pub fn get_common_name(&self) -> (r: Result<Address, CertError>)
        ensures
            r == named_address(pem_common_name(self@)),
    {
        proof {
            use_type_invariant(self);
        }
        address_in_name(common_name_data(&self.pem))
    }
}

/// What a check of the signatures comes to: `Some` is the answer that it
/// gave, `None` that it could not be made.
pub open spec fn chain_outcome(answer: Option<bool>) -> Result<bool, CertError> {
    match answer {
        Some(true) => Ok(true),
        Some(false) => Err(CertError::Unverified),
        None => Err(CertError::Chain),
    }
}

/// What a check of the signatures comes to.
pub fn chain_result(answer: Option<bool>) -> (r: Result<bool, CertError>)
    ensures
        r == chain_outcome(answer),
{
    match answer {
        Some(ok) => if ok {
            Ok(true)
        } else {
            Err(CertError::Unverified)
        },
        None => Err(CertError::Chain),
    }
}

/// Checks the signatures and the dates of `node_crt`, with `root_crt` as the
/// only trusted certificate.
pub fn verify_crt(root_crt: &Certificate, node_crt: &Certificate) -> (r: Result<bool, CertError>)
    ensures
        exists|answer: Option<bool>|
            chain_may_answer(root_crt@, node_crt@, answer) && r == #[trigger] chain_outcome(
                answer,
            ),
{
    proof {
        use_type_invariant(root_crt);
        use_type_invariant(node_crt);
    }
    let answer: Option<bool> = match chain_verifies(&root_crt.pem, &node_crt.pem) {
        Ok(answer) => Some(answer),
        Err(_) => None,
    };
    let r = chain_result(answer);
    assert(r == chain_outcome(answer));
    r
}

/// An address is on the revocation list.
pub open spec fn is_revoked(crl: Seq<Address>, addr: Address) -> bool {
    crl.contains(addr)
}

/// Whether a certificate is accepted for the address that a node claims: the
/// signatures must hold, it must name that address, and the address must not
/// be revoked. The first of these that fails is the reason.
pub open spec fn judgement(
    chain: Result<bool, CertError>,
    named: Result<Address, CertError>,
    claim: Address,
    crl: Seq<Address>,
) -> Result<bool, CertError> {
    match (chain, named) {
        (Err(e), _) => Err(e),
        (_, Err(e)) => Err(e),
        (Ok(_), Ok(addr)) => if addr != claim {
            Err(CertError::OtherAddress)
        } else if is_revoked(crl, addr) {
            Err(CertError::Revoked)
        } else {
            Ok(true)
        },
    }
}

/// Whether an address is on the revocation list.
fn check_revoked(crl: &Vec<Address>, addr: Address) -> (r: bool)
    ensures
        r == is_revoked(crl@, addr),
{
    let mut i: usize = 0;
    while i < crl.len()
        invariant
            i <= crl@.len(),
            forall|k: int| 0 <= k < i ==> #[trigger] crl@[k] != addr,
        decreases crl@.len() - i,
    {
        if same_address(crl[i], addr) {
            assert(crl@[i as int] == addr);
            return true;
        }
        i = i + 1;
    }
    false
}

/// Whether a certificate is accepted, given what the check of the signatures
/// and the reading of the common name came to.
pub fn judge(
    chain: Result<bool, CertError>,
    named: Result<Address, CertError>,
    claim: Address,
    crl: &Vec<Address>,
) -> (r: Result<bool, CertError>)
    ensures
        r == judgement(chain, named, claim, crl@),
{
    match chain {
        Err(e) => Err(e),
        Ok(_) => match named {
            Err(e) => Err(e),
            Ok(addr) => if !same_address(addr, claim) {
                Err(CertError::OtherAddress)
            } else if check_revoked(crl, addr) {
                Err(CertError::Revoked)
            } else {
                Ok(true)
            },
        },
    }
}

/// Whether a node's certificate is accepted for the address that the node
/// claims.
pub fn cita_verify_crt(
    root_crt: &Certificate,
    node_crt: &Certificate,
    claim_addr: Address,
    crl: &Vec<Address>,
) -> (r: Result<bool, CertError>)
    ensures
        exists|answer: Option<bool>|
            chain_may_answer(root_crt@, node_crt@, answer) && r == judgement(
                #[trigger] chain_outcome(answer),
                named_address(pem_common_name(node_crt@)),
                claim_addr,
                crl@,
            ),
{
    let chain = verify_crt(root_crt, node_crt);
    judge(chain, node_crt.get_common_name(), claim_addr, crl)
}

/// A certificate that was accepted, with the address that it names.
pub struct NodeCert {
    crt: Certificate,
    address: Address,
}

/// What a [`NodeCert`] is: the certificate in PEM format, and the address.
#[verifier::ext_equal]
pub struct NodeCertState {
    pub pem: Seq<u8>,
    pub address: Address,
}

impl View for NodeCert {
    type V = NodeCertState;

    closed spec fn view(&self) -> NodeCertState {
        NodeCertState { pem: self.crt@, address: self.address }
    }
}

impl NodeCert {
    #[verifier::type_invariant]
    spec fn inv(self) -> bool {
        named_address(pem_common_name(self.crt@)) == Ok::<Address, CertError>(self.address)
    }

    pub fn certificate(&self) -> (r: &Certificate)
        ensures
            r@ == self@.pem,
    {
        &self.crt
    }

    /// The address that the certificate names.
    pub fn address(&self) -> (r: Address)
        ensures
            r == self@.address,
            named_address(pem_common_name(self@.pem)) == Ok::<Address, CertError>(r),
    {
        proof {
            use_type_invariant(self);
        }
        self.address
    }
}

/// Accepts a node's certificate for the address that the node claims, or says
/// why not.
pub fn accept(
    root_crt: &Certificate,
    node_crt: Certificate,
    claim_addr: Address,
    crl: &Vec<Address>,
) -> (r: Result<NodeCert, CertError>)
    ensures
        exists|answer: Option<bool>|
            {
                &&& chain_may_answer(root_crt@, node_crt@, answer)
                &&& acceptance(#[trigger] chain_outcome(answer), node_crt@, claim_addr, crl@) == (
                match r {
                    Ok(crt) => Ok(crt@),
                    Err(e) => Err(e),
                })
            },
{
    match cita_verify_crt(root_crt, &node_crt, claim_addr, crl) {
        Ok(_) => Ok(NodeCert { crt: node_crt, address: claim_addr }),
        Err(e) => Err(e),
    }
}

/// The certificate, once it is accepted for the address that a node claims,
/// or why it is not.
pub open spec fn acceptance(
    chain: Result<bool, CertError>,
    pem: Seq<u8>,
    claim: Address,
    crl: Seq<Address>,
) -> Result<NodeCertState, CertError> {
    match judgement(chain, named_address(pem_common_name(pem)), claim, crl) {
        Ok(_) => Ok(NodeCertState { pem, address: claim }),
        Err(e) => Err(e),
    }
}

/// An accepted certificate names the address that was claimed, and no entry
/// of the revocation list is that address.
pub proof fn law_accepted_means_claimed_and_not_revoked(
    chain: Result<bool, CertError>,
    named: Result<Address, CertError>,
    claim: Address,
    crl: Seq<Address>,
)
    requires
        judgement(chain, named, claim, crl) is Ok,
    ensures
        chain is Ok,
        named == Ok::<Address, CertError>(claim),
        !crl.contains(claim),
{
}

/// What a check of the signatures comes to: success exactly where it was made
/// and found them to hold; not being made is told from finding that they do
/// not.
pub proof fn law_chain_outcomes(answer: Option<bool>)
    ensures
        chain_outcome(answer) is Ok <==> answer == Some(true),
        chain_outcome(answer) == Err::<bool, CertError>(CertError::Unverified) <==> answer == Some(
            false,
        ),
        chain_outcome(answer) == Err::<bool, CertError>(CertError::Chain) <==> answer is None,
{
}

/// A certificate is accepted exactly where the check of the signatures
/// succeeded, it names the address that the node claims, and no entry of the
/// revocation list is that address. A failed check is the reason before all
/// others, then a name that is no address, then another address.
pub proof fn law_judgements(
    chain: Result<bool, CertError>,
    named: Result<Address, CertError>,
    claim: Address,
    crl: Seq<Address>,
)
    ensures
        judgement(chain, named, claim, crl) is Ok <==> chain is Ok && named == Ok::<
            Address,
            CertError,
        >(claim) && forall|i: int| 0 <= i < crl.len() ==> #[trigger] crl[i] != claim,
        chain matches Err(e) ==> judgement(chain, named, claim, crl) == Err::<bool, CertError>(e),
        chain is Ok ==> (named matches Err(e) ==> judgement(chain, named, claim, crl) == Err::<
            bool,
            CertError,
        >(e)),
        chain is Ok ==> (named matches Ok(addr) ==> (addr != claim ==> judgement(
            chain,
            named,
            claim,
            crl,
        ) == Err::<bool, CertError>(CertError::OtherAddress))),
        chain is Ok && named == Ok::<Address, CertError>(claim) && crl.contains(claim)
            ==> judgement(chain, named, claim, crl) == Err::<bool, CertError>(CertError::Revoked),
        judgement(chain, named, claim, crl) matches Ok(value) ==> value,
{
}

/// What is kept of an accepted certificate is the certificate itself and the
/// address that was claimed; one that is not accepted is refused for the same
/// reason.
pub proof fn law_acceptances(
    chain: Result<bool, CertError>,
    pem: Seq<u8>,
    claim: Address,
    crl: Seq<Address>,
)
    ensures
        acceptance(chain, pem, claim, crl) is Ok <==> chain is Ok && named_address(
            pem_common_name(pem),
        ) == Ok::<Address, CertError>(claim) && !crl.contains(claim),
        acceptance(chain, pem, claim, crl) matches Ok(crt) ==> crt.pem == pem && crt.address
            == claim,
        acceptance(chain, pem, claim, crl) matches Err(e) ==> judgement(
            chain,
            named_address(pem_common_name(pem)),
            claim,
            crl,
        ) == Err::<bool, CertError>(e),
{
}

/// A common name names an address exactly where it is text that spells the
/// address's twenty bytes, with one or two `0x` before them or none; what is
/// missing otherwise is told.
pub proof fn law_named_addresses(common_name: Option<Seq<u8>>, addr: Address)
    ensures
        named_address(common_name) == Ok::<Address, CertError>(addr) <==> (
        common_name matches Some(data) && valid_utf8(data) && hex_bytes(
            without_0x(decode_utf8(data)),
        ) == Some(address_bytes(addr))),
        named_address(common_name) == Err::<Address, CertError>(CertError::NoCommonName)
            <==> common_name is None,
        named_address(common_name) == Err::<Address, CertError>(CertError::CommonNameNotText) <==> (
        common_name matches Some(data) && !valid_utf8(data)),
        named_address(common_name) == Err::<Address, CertError>(
            CertError::CommonNameNotAddress,
        ) <==> (common_name matches Some(data) && valid_utf8(data) && hex_bytes(
            without_0x(decode_utf8(data)),
        ) is None),
{
    if let Some(data) = common_name {
        if let Some(bytes) = hex_bytes(without_0x(decode_utf8(data))) {
            law_bytes_of_their_address(bytes);
        }
        law_address_of_its_bytes(addr);
    }
}

} // verus!
