//! The identity of a computer: a name, a key and a certificate.
use crate::error::Error;
use crate::text::characters;
use crate::transport::KeyKind;
use vstd::prelude::*;

verus! {

pub const MAX_LABEL: usize = 63;

/// A day in seconds.
pub const DAY: i64 = 86400;

/// A certificate is valid for this many days.
pub const VALIDITY_DAYS: i64 = 365;

/// The first second that a certificate can name: the year has four digits.
pub const FIRST_SECOND: i64 = -62_167_219_200;

/// The last second that a certificate can name.
pub const LAST_SECOND: i64 = 253_402_300_799;

pub open spec fn label_char(c: char) -> bool {
    'a' <= c <= 'z' || '0' <= c <= '9' || c == '-'
}

/// A single label of a domain name, in lower case.
pub open spec fn label_valid(name: Seq<char>) -> bool {
    &&& 1 <= name.len() <= MAX_LABEL
    &&& forall|i: int| 0 <= i < name.len() ==> label_char(#[trigger] name[i])
    &&& name[0] != '-'
    &&& name.last() != '-'
}

pub fn is_label(name: &str) -> (r: bool)
    ensures
        r == label_valid(name@),
{
    let list = characters(name);
    if list.len() < 1 || list.len() > MAX_LABEL {
        return false;
    }
    for i in 0..list.len()
        invariant
            list@ == name@,
            1 <= name@.len() <= MAX_LABEL,
            forall|j: int| 0 <= j < i ==> label_char(#[trigger] name@[j]),
    {
        let c: char = list[i];
        if !(('a' <= c && c <= 'z') || ('0' <= c && c <= '9') || c == '-') {
            assert(!label_char(name@[i as int]));
            return false;
        }
    }
    list[0] != '-' && list[list.len() - 1] != '-'
}

/// What a certificate may be used for.
#[derive(Clone, Copy, PartialEq, Eq, Structural)]
pub enum Usage {
    Server,
    Client,
}

/// What a new certificate says: the name, the first and the last second of its validity, and what
/// it may be used for.
pub struct CertificateRequest {
    pub name: String,
    pub not_before: i64,
    pub not_after: i64,
    pub usages: Vec<Usage>,
}

/// A new key and its certificate, in PEM format, with what was asked for. It deliberately does not
/// implement `Debug`.
pub struct NewIdentity {
    pub request: CertificateRequest,
    pub key: String,
    pub certificate: String,
}

/// A request for a certificate of a name, made at the time `now`: it is valid from a day before
/// on, for both ends of a connection.
pub open spec fn asks_for(request: CertificateRequest, name: Seq<char>, now: i64) -> bool {
    &&& request.name@ == name
    &&& request.not_before == now - DAY
    &&& request.not_after == now + VALIDITY_DAYS * DAY
    &&& request.usages@ == seq![Usage::Server, Usage::Client]
}

/// The clock shows a time at which a certificate can be made.
pub open spec fn clock_plausible(now: i64) -> bool {
    FIRST_SECOND + DAY <= now <= LAST_SECOND - VALIDITY_DAYS * DAY
}

/// The first reason, in the order of the checks, for which no certificate is asked for.
pub open spec fn request_problem(name: Seq<char>, now: i64) -> Option<Error> {
    if !label_valid(name) {
        Some(Error::InvalidIdentityName)
    } else if !clock_plausible(now) {
        Some(Error::ClockImplausible)
    } else {
        None
    }
}

/// What the certificate says that is made at the time `now`, in seconds since the epoch.
pub fn certificate_request(name: &str, now: i64) -> (r: Result<CertificateRequest, Error>)
    ensures
        match request_problem(name@, now) {
            Some(e) => r == Err::<CertificateRequest, Error>(e),
            None => r matches Ok(request) && asks_for(request, name@, now),
        },
{
    if !is_label(name) {
        return Err(Error::InvalidIdentityName);
    }
    if !(FIRST_SECOND + DAY <= now && now <= LAST_SECOND - VALIDITY_DAYS * DAY) {
        return Err(Error::ClockImplausible);
    }
    let mut usages: Vec<Usage> = Vec::new();
    usages.push(Usage::Server);
    usages.push(Usage::Client);
    assert(usages@ =~= seq![Usage::Server, Usage::Client]);
    Ok(
        CertificateRequest {
            name: name.to_owned(),
            not_before: now - DAY,
            not_after: now + VALIDITY_DAYS * DAY,
            usages,
        },
    )
}

/// The two files hold exactly one certificate, and a private key.
pub open spec fn loads(identity: NewIdentity) -> bool {
    &&& crate::transport::pem_certificates(
        vstd::utf8::encode_utf8(identity.certificate@),
    ) matches Some(list) && list.len() == 1
    &&& crate::transport::pem_private_key(
        vstd::utf8::encode_utf8(identity.key@),
    ) matches Some(key) && key.0 == KeyKind::Pkcs8
}

/// Makes a key with `rcgen::KeyPair::generate` and a certificate for it with
/// `rcgen::CertificateParams::self_signed`. The certificate is printed by `Certificate::pem` as one
/// section `CERTIFICATE`, the key by `KeyPair::serialize_pem` as one section `PRIVATE KEY`, so
/// either is found again in its text. The request is handed back beside them. The key is random
/// and so is everything else about the result; nothing more is claimed of it.
#[verifier::external_body]
fn generate(request: CertificateRequest) -> (r: Option<NewIdentity>)
    requires
        label_valid(request.name@),
        FIRST_SECOND <= request.not_before < request.not_after <= LAST_SECOND,
        request.not_after - request.not_before == (VALIDITY_DAYS + 1) * DAY,
        request.usages@ == seq![Usage::Server, Usage::Client],
    ensures
        r matches Some(identity) ==> loads(identity) && identity.request == request,
{
    let key = rcgen::KeyPair::generate().ok()?;
    let mut params = rcgen::CertificateParams::new(vec![request.name.clone()]).ok()?;
    params.not_before = time::OffsetDateTime::from_unix_timestamp(request.not_before).ok()?;
    params.not_after = time::OffsetDateTime::from_unix_timestamp(request.not_after).ok()?;
    params.extended_key_usages = request.usages.iter().map(|usage| match usage {
        Usage::Server => rcgen::ExtendedKeyUsagePurpose::ServerAuth,
        Usage::Client => rcgen::ExtendedKeyUsagePurpose::ClientAuth,
    }).collect();
    let certificate = params.self_signed(&key).ok()?.pem();
    Some(NewIdentity { request, key: key.serialize_pem(), certificate })
}

/// Makes a new identity at the time `now`, in seconds since the epoch: asks for the certificate
/// of `certificate_request`. Whether a key can be made is up to the system; one that was made
/// loads again.
pub fn create(name: &str, now: i64) -> (r: Result<NewIdentity, Error>)
    ensures
        match request_problem(name@, now) {
            Some(e) => r == Err::<NewIdentity, Error>(e),
            None => match r {
                Ok(identity) => loads(identity) && asks_for(identity.request, name@, now),
                Err(e) => e == Error::IdentityFailed,
            },
        },
{
    match certificate_request(name, now) {
        Err(e) => Err(e),
        Ok(request) => match generate(request) {
            Some(identity) => Ok(identity),
            None => Err(Error::IdentityFailed),
        },
    }
}

/// What the file system says of the directory for the identity, and of the files in it.
pub struct DirectoryFacts {
    pub directory: bool,
    pub mode: u32,
    pub own: bool,
    pub key_exists: bool,
    pub certificate_exists: bool,
}

/// The first reason, in the order of the checks, for which no identity is made in a directory.
pub open spec fn directory_problem(facts: DirectoryFacts) -> Option<Error> {
    if !(facts.directory && crate::transport::owner_only(facts.mode) && facts.own) {
        Some(Error::DirectoryUnsafe)
    } else if facts.key_exists || facts.certificate_exists {
        Some(Error::IdentityExists)
    } else {
        None
    }
}

/// An identity is made only in a private directory that holds none.
pub fn check_directory(facts: &DirectoryFacts) -> (r: Result<(), Error>)
    ensures
        match directory_problem(*facts) {
            Some(e) => r == Err::<(), Error>(e),
            None => r is Ok,
        },
{
    if !(facts.directory && crate::transport::is_owner_only(facts.mode) && facts.own) {
        return Err(Error::DirectoryUnsafe);
    }
    if facts.key_exists || facts.certificate_exists {
        return Err(Error::IdentityExists);
    }
    Ok(())
}

} // verus!
