//! Rules of the mutually authenticated connection: which files are accepted, and what the two
//! computers must agree on.
use crate::error::Error;
use crate::protocol::{Message, VERSION};
use rustls::pki_types::pem::PemObject;
use vstd::prelude::*;

verus! {

/// The protocol that both computers must offer.
pub const ALPN: &'static str = "niri-bridge/5";

/// The time, in milliseconds, that a handshake may take.
pub const HANDSHAKE_TIMEOUT_MS: u64 = 5000;

pub const MAX_FILE_BYTES: u64 = 65536;

/// The contents of the certificates that a file in PEM format holds, in order; nothing when the
/// file is malformed.
pub uninterp spec fn pem_certificates(bytes: Seq<u8>) -> Option<Seq<Seq<u8>>>;

pub open spec fn byte_views(list: Seq<Vec<u8>>) -> Seq<Seq<u8>> {
    list.map_values(|bytes: Vec<u8>| bytes@)
}

/// Reads every certificate of a file with `CertificateDer::pem_slice_iter`. That depends on the
/// bytes alone.
#[verifier::external_body]
fn read_certificates(bytes: &[u8]) -> (r: Result<Vec<Vec<u8>>, Error>)
    ensures
        match pem_certificates(bytes@) {
            Some(list) => r is Ok && byte_views(r->Ok_0@) == list,
            None => r == Err::<Vec<Vec<u8>>, Error>(Error::CertificateUnreadable),
        },
{
    rustls::pki_types::CertificateDer::pem_slice_iter(bytes).map(
        |item| item.map(|certificate| certificate.to_vec()).map_err(|_| Error::CertificateUnreadable),
    ).collect()
}

/// The only one of several certificates.
pub fn only_certificate(mut list: Vec<Vec<u8>>) -> (r: Result<Vec<u8>, Error>)
    ensures
        list@.len() == 1 ==> r == Ok::<Vec<u8>, Error>(list@[0]),
        list@.len() != 1 ==> r == Err::<Vec<u8>, Error>(Error::NotOneCertificate),
{
    if list.len() != 1 {
        return Err(Error::NotOneCertificate);
    }
    Ok(list.swap_remove(0))
}

/// Takes the certificate out of a file, which must hold exactly one.
pub fn load_certificate(bytes: &[u8]) -> (r: Result<Vec<u8>, Error>)
    ensures
        bytes@.len() > MAX_FILE_BYTES ==> r == Err::<Vec<u8>, Error>(Error::CertificateTooLarge),
        bytes@.len() <= MAX_FILE_BYTES ==> match pem_certificates(bytes@) {
            None => r == Err::<Vec<u8>, Error>(Error::CertificateUnreadable),
            Some(list) => if list.len() == 1 {
                r matches Ok(certificate) && certificate@ == list[0]
            } else {
                r == Err::<Vec<u8>, Error>(Error::NotOneCertificate)
            },
        },
{
    if bytes.len() as u64 > MAX_FILE_BYTES {
        return Err(Error::CertificateTooLarge);
    }
    match read_certificates(bytes) {
        Err(e) => Err(e),
        Ok(list) => {
            assert(list@.len() == 1 ==> byte_views(list@)[0] == list@[0]@);
            only_certificate(list)
        },
    }
}

/// The encoding of a private key.
#[derive(Clone, Copy, PartialEq, Eq, Structural)]
pub enum KeyKind {
    Pkcs1,
    Sec1,
    Pkcs8,
}

/// A private key. It deliberately does not implement `Debug`.
pub struct PrivateKey {
    pub kind: KeyKind,
    pub der: Vec<u8>,
}

/// The first private key that a file in PEM format holds; nothing when there is none that can be
/// read.
pub uninterp spec fn pem_private_key(bytes: Seq<u8>) -> Option<(KeyKind, Seq<u8>)>;

/// Reads the first private key of a file with `PrivateKeyDer::from_pem_slice`. That depends on
/// the bytes alone.
#[verifier::external_body]
fn read_private_key(bytes: &[u8]) -> (r: Result<PrivateKey, Error>)
    ensures
        match pem_private_key(bytes@) {
            Some(key) => r is Ok && (r->Ok_0.kind, r->Ok_0.der@) == key,
            None => r == Err::<PrivateKey, Error>(Error::KeyUnreadable),
        },
{
    let key = rustls::pki_types::PrivateKeyDer::from_pem_slice(bytes).map_err(
        |_| Error::KeyUnreadable,
    )?;
    let kind = match &key {
        rustls::pki_types::PrivateKeyDer::Pkcs1(_) => KeyKind::Pkcs1,
        rustls::pki_types::PrivateKeyDer::Sec1(_) => KeyKind::Sec1,
        rustls::pki_types::PrivateKeyDer::Pkcs8(_) => KeyKind::Pkcs8,
        _ => return Err(Error::KeyUnreadable),
    };
    Ok(PrivateKey { kind, der: key.secret_der().to_vec() })
}

/// What the file system says of a key file.
pub struct FileFacts {
    pub regular: bool,
    pub size: u64,
    pub mode: u32,
    pub own: bool,
}

/// Nobody but the owner has any rights.
pub open spec fn owner_only(mode: u32) -> bool {
    mode & 0o077 == 0
}

pub fn is_owner_only(mode: u32) -> (r: bool)
    ensures
        r == owner_only(mode),
{
    mode & 0o077 == 0
}

/// The first reason, in the order of the checks, for which a key file is refused.
pub open spec fn key_file_problem(facts: FileFacts) -> Option<Error> {
    if !(facts.regular && facts.size <= MAX_FILE_BYTES && owner_only(facts.mode)) {
        Some(Error::KeyFileUnsafe)
    } else if !facts.own {
        Some(Error::KeyFileForeign)
    } else {
        None
    }
}

/// Takes the private key out of a file that only its owner, this user, can read.
pub fn load_private_key(facts: &FileFacts, bytes: &[u8]) -> (r: Result<PrivateKey, Error>)
    ensures
        match key_file_problem(*facts) {
            Some(e) => r == Err::<PrivateKey, Error>(e),
            None => match pem_private_key(bytes@) {
                Some(key) => r matches Ok(found) && (found.kind, found.der@) == key,
                None => r == Err::<PrivateKey, Error>(Error::KeyUnreadable),
            },
        },
{
    match check_key_file(facts) {
        Err(e) => return Err(e),
        Ok(()) => {},
    }
    read_private_key(bytes)
}

pub fn check_key_file(facts: &FileFacts) -> (r: Result<(), Error>)
    ensures
        match key_file_problem(*facts) {
            Some(e) => r == Err::<(), Error>(e),
            None => r is Ok,
        },
{
    if !(facts.regular && facts.size <= MAX_FILE_BYTES && is_owner_only(facts.mode)) {
        return Err(Error::KeyFileUnsafe);
    }
    if !facts.own {
        return Err(Error::KeyFileForeign);
    }
    Ok(())
}

/// The other computer's name as it must stand in its certificate.
pub open spec fn server_name(name: Seq<char>) -> bool {
    crate::manager::dns_name(name) || ip_address(name)
}

/// A text is an IP address.
pub uninterp spec fn ip_address(text: Seq<char>) -> bool;

/// Tells by `rustls::pki_types::IpAddr::try_from` whether a text is an IP address. That depends on
/// the text alone.
#[verifier::external_body]
fn is_ip_address(text: &str) -> (r: bool)
    ensures
        r == ip_address(text@),
{
    rustls::pki_types::IpAddr::try_from(text).is_ok()
}

/// Accepts a name that a certificate can carry.
pub fn check_server_name(name: &str) -> (r: Result<(), Error>)
    ensures
        r == (if server_name(name@) {
            Ok(())
        } else {
            Err::<(), Error>(Error::InvalidServerName)
        }),
{
    if crate::manager::is_dns_name(name) || is_ip_address(name) {
        Ok(())
    } else {
        Err(Error::InvalidServerName)
    }
}

/// Accepts the protocol that was agreed on during the handshake.
pub fn check_protocol(agreed: Option<&[u8]>) -> (r: Result<(), Error>)
    ensures
        r is Ok <==> (agreed matches Some(name) && name@ == vstd::utf8::encode_utf8(ALPN@)),
        r matches Err(e) ==> e == Error::ProtocolMismatch,
{
    match agreed {
        None => Err(Error::ProtocolMismatch),
        Some(name) => if same_bytes(name, ALPN.as_bytes()) {
            Ok(())
        } else {
            Err(Error::ProtocolMismatch)
        },
    }
}

fn same_bytes(a: &[u8], b: &[u8]) -> (r: bool)
    ensures
        r == (a@ == b@),
{
    if a.len() != b.len() {
        return false;
    }
    for i in 0..a.len()
        invariant
            a@.len() == b@.len(),
            forall|j: int| 0 <= j < i ==> a@[j] == b@[j],
    {
        if a[i] != b[i] {
            assert(a@[i as int] != b@[i as int]);
            return false;
        }
    }
    assert(a@ =~= b@);
    true
}

/// The first message of each computer.
pub fn greeting() -> (r: Message)
    ensures
        r == (Message::Hello { version: VERSION }),
        r.problem() is None,
{
    Message::Hello { version: VERSION }
}

/// Accepts the first message of the other computer.
pub fn check_greeting(message: &Message) -> (r: Result<(), Error>)
    ensures
        r == (if *message == (Message::Hello { version: VERSION }) {
            Ok(())
        } else {
            Err::<(), Error>(Error::GreetingExpected)
        }),
{
    match message {
        Message::Hello { version } => if *version == VERSION {
            Ok(())
        } else {
            Err(Error::GreetingExpected)
        },
        _ => Err(Error::GreetingExpected),
    }
}

} // verus!
