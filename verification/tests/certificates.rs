//! Certificates, from real keys.
use node_manager::action::Action;
use node_manager::cert::{
    accept, chain_result, cita_verify_crt, judge, verify_crt, CertError, Certificate,
};
use node_manager::config::{ConsensusRule, NetConfig};
use node_manager::init_msg::InitMsg;
use node_manager::manager::{CaCerts, ConnectedInfo, NodesManager};
use node_manager::message::{NodesManagerMessage, Outcome};
use node_manager::revocation::UpdateCrlReq;
use node_manager::sessions::{AddConnectedNodeReq, PendingConnectedNodeReq, Vetting};
use node_manager::types::{socket_v4, SessionType};
use openssl::asn1::Asn1Time;
use openssl::hash::MessageDigest;
use openssl::nid::Nid;
use openssl::pkey::{PKey, Private};
use openssl::rsa::Rsa;
use openssl::symm::Cipher;
use openssl::x509::extension::BasicConstraints;
use openssl::x509::{X509Builder, X509Name, X509NameBuilder, X509};

const PEER: (u128, u32) = (0x00112233445566778899aabbccddeeff, 0x01020304);
const PEER_NAME: &str = "0x00112233445566778899aabbccddeeff01020304";

struct Authority {
    key: PKey<Private>,
    crt: X509,
}

fn key() -> PKey<Private> {
    PKey::from_rsa(Rsa::generate(2048).unwrap()).unwrap()
}

fn name(common_name: Option<&str>) -> X509Name {
    let mut b = X509NameBuilder::new().unwrap();
    b.append_entry_by_nid(Nid::ORGANIZATIONNAME, "nodes").unwrap();
    if let Some(common_name) = common_name {
        b.append_entry_by_nid(Nid::COMMONNAME, common_name).unwrap();
    }
    b.build()
}

fn builder(subject: &X509Name, issuer: &X509Name, from: i64, to: i64) -> X509Builder {
    let now = std::time::SystemTime::now()
        .duration_since(std::time::UNIX_EPOCH)
        .unwrap()
        .as_secs() as i64;
    let mut b = X509Builder::new().unwrap();
    b.set_version(2).unwrap();
    b.set_subject_name(subject).unwrap();
    b.set_issuer_name(issuer).unwrap();
    b.set_not_before(&Asn1Time::from_unix(now + from).unwrap()).unwrap();
    b.set_not_after(&Asn1Time::from_unix(now + to).unwrap()).unwrap();
    b
}

fn authority() -> Authority {
    let key = key();
    let subject = name(Some("root"));
    let mut b = builder(&subject, &subject, -100_000, 100_000);
    b.set_pubkey(&key).unwrap();
    b.append_extension(BasicConstraints::new().critical().ca().build().unwrap()).unwrap();
    b.sign(&key, MessageDigest::sha256()).unwrap();
    let crt = b.build();
    Authority { key, crt }
}

impl Authority {
    fn issue(&self, common_name: Option<&str>, from: i64, to: i64) -> Vec<u8> {
        let mut b = builder(&name(common_name), &name(Some("root")), from, to);
        b.set_pubkey(&key()).unwrap();
        b.sign(&self.key, MessageDigest::sha256()).unwrap();
        b.build().to_pem().unwrap()
    }

    fn certificate(&self) -> Certificate {
        Certificate::from_pem(self.crt.to_pem().unwrap()).unwrap()
    }
}

fn read(pem: &[u8]) -> Certificate {
    Certificate::from_pem(pem.to_vec()).unwrap()
}

fn manager(root: &Authority) -> NodesManager {
    let cfg = NetConfig { peers: None, max_connects: None, enable_ca: Some(true) };
    assert!(cfg.uses_ca());
    let rule = ConsensusRule { marker: "consensus".to_string(), ttl: 9 };
    let certs = CaCerts { root_crt: root.certificate(), node_crt: vec![1, 2] };
    let mut m = NodesManager::from_config(cfg, (0, 1), rule, Some(certs));
    m.set_service_task_sender();
    m
}

fn introduce(m: &mut NodesManager, session: usize, crt: Option<Vec<u8>>) -> Vec<Action> {
    let msg = InitMsg { chain_id: 0, peer_key: PEER, node_crt: crt };
    let addr = socket_v4(session as u32, 1);
    PendingConnectedNodeReq::new(session, addr, SessionType::Inbound).handle(m);
    AddConnectedNodeReq::new(session, SessionType::Inbound, msg).handle(m)
}

fn closes(actions: &[Action], session: usize) -> bool {
    matches!(actions, [Action::Disconnect(id)] if *id == session)
}

#[test]
fn only_certificates_are_read_as_such() {
    let root = authority();
    assert!(Certificate::from_pem(root.crt.to_pem().unwrap()).is_some());
    assert!(Certificate::from_pem(root.crt.to_der().unwrap()).is_none());
    assert!(Certificate::from_pem(vec![]).is_none());
    assert!(Certificate::from_pem(root.key.private_key_to_pem_pkcs8().unwrap()).is_none());
}

#[test]
fn blocks_with_encryption_headers_are_not_read() {
    let root = authority();
    let pem = String::from_utf8(root.crt.to_pem().unwrap()).unwrap();
    let encrypted = pem.replacen(
        "CERTIFICATE-----\n",
        "CERTIFICATE-----\nProc-Type: 4,ENCRYPTED\nDEK-Info: AES-128-CBC,0011\n\n",
        1,
    );
    assert!(encrypted != pem);
    assert!(Certificate::from_pem(encrypted.into_bytes()).is_none());
    assert!(Certificate::from_pem(pem.into_bytes()).is_some());
}

#[test]
fn only_the_headers_of_the_certificate_count() {
    let root = authority();
    let plain = String::from_utf8(root.crt.to_pem().unwrap()).unwrap();
    let key = root
        .key
        .rsa()
        .unwrap()
        .private_key_to_pem_passphrase(Cipher::aes_128_cbc(), b"secret")
        .unwrap();
    let key = String::from_utf8(key).unwrap();
    assert!(key.contains("Proc-Type: 4,ENCRYPTED"));
    let second = plain.replacen(
        "CERTIFICATE-----\n",
        "CERTIFICATE-----\nProc-Type: 4,ENCRYPTED\nDEK-Info: AES-128-CBC,0011\n\n",
        1,
    );
    for text in [
        format!("{}{}", key, plain),
        format!("{}{}", plain, key),
        format!("{}{}", plain, second),
        format!("Proc-Type is a header.\n{}Proc-Type\n", plain),
        plain.replace('\n', "\r\n"),
        plain.replace("CERTIFICATE", "X509 CERTIFICATE"),
        format!("{}\0", plain),
    ] {
        assert!(X509::from_pem(text.as_bytes()).is_ok());
        let crt = Certificate::from_pem(text.into_bytes()).unwrap();
        assert_eq!(crt.get_common_name(), Err(CertError::CommonNameNotAddress));
    }
    assert!(Certificate::from_pem(format!("{}{}", second, plain).into_bytes()).is_none());
    assert!(Certificate::from_pem(format!("{}{}", key, second).into_bytes()).is_none());
}

#[test]
fn a_peer_with_an_encrypted_certificate_is_not_handled() {
    let root = authority();
    let mut m = manager(&root);
    let pem = String::from_utf8(root.issue(Some(PEER_NAME), -10, 1000)).unwrap();
    let encrypted = pem.replacen(
        "CERTIFICATE-----\n",
        "CERTIFICATE-----\nProc-Type: 4,ENCRYPTED\nDEK-Info: AES-128-CBC,00\n\n",
        1,
    );
    let msg = InitMsg { chain_id: 0, peer_key: PEER, node_crt: Some(encrypted.into_bytes()) };
    let req = AddConnectedNodeReq::new(7, SessionType::Inbound, msg);
    assert!(m.deliver(NodesManagerMessage::AddConnectedNode(req)).is_none());
}

#[test]
fn the_common_name_is_the_account() {
    let root = authority();
    let read_name = |common_name| read(&root.issue(common_name, -10, 1000)).get_common_name();
    assert_eq!(read_name(Some(PEER_NAME)), Ok(PEER));
    assert_eq!(read_name(Some(&PEER_NAME[2..])), Ok(PEER));
    assert_eq!(read_name(Some("somebody")), Err(CertError::CommonNameNotAddress));
    assert_eq!(read_name(None), Err(CertError::NoCommonName));
}

#[test]
fn signatures_and_dates_are_checked() {
    let root = authority();
    let other = authority();
    let good = root.issue(Some(PEER_NAME), -10, 1000);
    let old = root.issue(Some(PEER_NAME), -1000, -10);
    let early = root.issue(Some(PEER_NAME), 1000, 2000);
    assert_eq!(verify_crt(&root.certificate(), &read(&good)), Ok(true));
    assert_eq!(verify_crt(&other.certificate(), &read(&good)), Err(CertError::Unverified));
    assert_eq!(verify_crt(&root.certificate(), &read(&old)), Err(CertError::Unverified));
    assert_eq!(verify_crt(&root.certificate(), &read(&early)), Err(CertError::Unverified));
}

#[test]
fn every_reason_to_refuse() {
    let root = authority();
    let other = authority();
    let good = read(&root.issue(Some(PEER_NAME), -10, 1000));
    let vague = read(&root.issue(Some("somebody"), -10, 1000));
    let nameless = read(&root.issue(None, -10, 1000));
    let own = root.certificate();
    let none = vec![];
    assert_eq!(cita_verify_crt(&own, &good, PEER, &none), Ok(true));
    assert_eq!(
        cita_verify_crt(&other.certificate(), &good, PEER, &none),
        Err(CertError::Unverified)
    );
    assert_eq!(
        cita_verify_crt(&own, &vague, PEER, &none),
        Err(CertError::CommonNameNotAddress)
    );
    assert_eq!(cita_verify_crt(&own, &nameless, PEER, &none), Err(CertError::NoCommonName));
    assert_eq!(cita_verify_crt(&own, &good, (0, 0), &none), Err(CertError::OtherAddress));
    assert_eq!(
        cita_verify_crt(&own, &good, PEER, &vec![(0, 0), PEER]),
        Err(CertError::Revoked)
    );
    let others = vec![(u128::MAX, u32::MAX), (0, 1), (PEER.0, 0)];
    assert_eq!(cita_verify_crt(&own, &good, PEER, &others), Ok(true));
}

#[test]
fn the_first_reason_counts() {
    let crl = vec![PEER];
    assert_eq!(chain_result(Some(true)), Ok(true));
    assert_eq!(chain_result(Some(false)), Err(CertError::Unverified));
    assert_eq!(chain_result(None), Err(CertError::Chain));
    let unverified = Err(CertError::Unverified);
    let nameless = Err(CertError::NoCommonName);
    assert_eq!(judge(Err(CertError::Chain), nameless, PEER, &crl), Err(CertError::Chain));
    assert_eq!(judge(unverified, Ok(PEER), PEER, &crl), unverified);
    assert_eq!(judge(Ok(true), nameless, PEER, &crl), Err(CertError::NoCommonName));
    assert_eq!(judge(Ok(true), Ok((0, 0)), PEER, &crl), Err(CertError::OtherAddress));
    assert_eq!(judge(Ok(true), Ok(PEER), PEER, &crl), Err(CertError::Revoked));
    assert_eq!(judge(Ok(true), Ok(PEER), PEER, &vec![(0, 0)]), Ok(true));
    assert_eq!(judge(Ok(true), Ok((0, 1)), (0, 1), &vec![(0, 3)]), Ok(true));
}

#[test]
fn an_accepted_certificate_is_kept_with_its_address() {
    let root = authority();
    let good = root.issue(Some(PEER_NAME), -10, 1000);
    let crt = accept(&root.certificate(), read(&good), PEER, &vec![]).ok().unwrap();
    assert_eq!(crt.address(), PEER);
    assert_eq!(crt.certificate().get_common_name(), Ok(PEER));
    assert!(accept(&root.certificate(), read(&good), PEER, &vec![PEER]).is_err());
}

#[test]
fn in_ca_mode_an_accepted_peer_stays() {
    let root = authority();
    let mut m = manager(&root);
    let good = root.issue(Some(PEER_NAME), -10, 1000);
    assert!(introduce(&mut m, 7, Some(good)).is_empty());
    assert_eq!(m.connected_addrs[&7].node_crt.as_ref().unwrap().address(), PEER);
    assert_eq!(m.connected_peer_keys.get(&PEER), Some(&7));
}

#[test]
fn in_ca_mode_other_peers_are_closed() {
    let root = authority();
    let other = authority();
    for crt in [
        None,
        Some(other.issue(Some(PEER_NAME), -10, 1000)),
        Some(root.issue(Some(PEER_NAME), -1000, -10)),
        Some(root.issue(Some("0x00112233445566778899aabbccddeeff01020305"), -10, 1000)),
        Some(root.issue(None, -10, 1000)),
    ] {
        let mut m = manager(&root);
        assert!(closes(&introduce(&mut m, 7, crt), 7));
        assert!(m.connected_addrs[&7].node_crt.is_none());
    }
    let mut m = manager(&root);
    m.crl = vec![PEER];
    let good = root.issue(Some(PEER_NAME), -10, 1000);
    assert!(closes(&introduce(&mut m, 7, Some(good)), 7));
}

#[test]
fn without_a_root_certificate_nothing_is_checked() {
    let root = authority();
    let other = authority();
    let mut m = manager(&root);
    m.root_crt = None;
    let foreign = other.issue(Some(PEER_NAME), -10, 1000);
    assert!(introduce(&mut m, 7, Some(foreign)).is_empty());
    assert!(m.connected_addrs[&7].node_crt.is_none());
}

#[test]
fn a_new_revocation_list_closes_the_sessions_of_those_on_it() {
    let root = authority();
    let mut m = manager(&root);
    let good = root.issue(Some(PEER_NAME), -10, 1000);
    introduce(&mut m, 7, Some(good));
    m.connected_addrs.insert(5, ConnectedInfo::new(socket_v4(1, 1), None, None));
    let others = vec![(0, 0), (u128::MAX, u32::MAX)];
    assert!(UpdateCrlReq::new(others).handle(&mut m).is_empty());
    let r = UpdateCrlReq::new(vec![(0, 9), PEER, (u128::MAX, 0)]).handle(&mut m);
    assert!(closes(&r, 7));
    assert_eq!(m.crl.len(), 3);
    m.service_ctrl = false;
    assert!(UpdateCrlReq::new(vec![PEER]).handle(&mut m).is_empty());
}

#[test]
fn certificates_are_checked_again() {
    let root = authority();
    let other = authority();
    let mut m = manager(&root);
    let good = root.issue(Some(PEER_NAME), -10, 1000);
    introduce(&mut m, 7, Some(good));
    m.connected_addrs.insert(5, ConnectedInfo::new(socket_v4(1, 1), None, None));
    assert!(m.check_cert().is_empty());
    m.root_crt = Some(other.certificate());
    assert!(closes(&m.check_cert(), 7));
    m.service_ctrl = false;
    assert!(m.check_cert().is_empty());
    m.service_ctrl = true;
    m.enable_ca = false;
    assert!(m.check_cert().is_empty());
    m.enable_ca = true;
    m.root_crt = None;
    assert!(m.check_cert().is_empty());
}

#[test]
fn failed_checks_close_sessions_in_order() {
    let root = authority();
    let m = manager(&root);
    let outcomes = vec![Err(CertError::Unverified), Ok(true), Err(CertError::Chain)];
    let r = m.close_expired(&vec![3, 4, 8], &outcomes);
    assert!(matches!(r[..], [Action::Disconnect(3), Action::Disconnect(8)]));
}

#[test]
fn an_accepted_certificate_is_booked_with_the_session() {
    let root = authority();
    let mut m = manager(&root);
    let good = root.issue(Some(PEER_NAME), -10, 1000);
    let crt = accept(&root.certificate(), read(&good), PEER, &vec![]).ok().unwrap();
    PendingConnectedNodeReq::new(7, socket_v4(1, 1), SessionType::Inbound).handle(&mut m);
    let vetting = Vetting::Accepted(crt);
    let r = AddConnectedNodeReq::introduce(7, SessionType::Inbound, PEER, vetting, &mut m);
    assert!(r.is_empty());
    assert!(m.connected_addrs[&7].node_crt.is_some());
}

#[test]
fn a_readable_certificate_is_handled_as_a_message() {
    let root = authority();
    let mut m = manager(&root);
    let msg = InitMsg {
        chain_id: 0,
        peer_key: PEER,
        node_crt: Some(root.issue(Some(PEER_NAME), -10, 1000)),
    };
    let req = AddConnectedNodeReq::new(7, SessionType::Inbound, msg);
    let out = m.deliver(NodesManagerMessage::AddConnectedNode(req));
    assert!(matches!(out, Some(Outcome::Actions(list)) if list.is_empty()));
}
