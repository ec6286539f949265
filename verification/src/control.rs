//! What the control interface shows and accepts. It exposes state and bounded management actions,
//! never input data.
use crate::edges::{validate_edges, EdgeConfig};
use crate::error::Error;
use crate::niri::{active_outputs, ActiveOutput, Output};
use crate::number::Binary64;
use crate::text::{byte_len, characters, same_text};
use vstd::prelude::*;

verus! {

pub const MAX_OUTPUTS: usize = 32;

pub const MAX_OUTPUT_NAME: usize = 128;

pub const MAX_OUTPUT_SIZE: u32 = 32768;

/// The length of a revision: a digest in hexadecimal digits.
pub const REVISION_LENGTH: usize = 64;

/// The length of a transaction identifier.
pub const TRANSACTION_LENGTH: usize = 32;

/// The longest error code that a computer may send.
pub const MAX_ERROR_CODE: usize = 64;

/// The longest control request.
pub const MAX_REQUEST_BYTES: usize = 16384;

pub const PACKAGE_VERSION: &'static str = "0.3.0-beta.3";

/// A computer's connections, the revision of its configuration and its outputs in use.
pub struct Desktop {
    pub edges: Vec<EdgeConfig>,
    pub revision: String,
    pub outputs: Vec<ActiveOutput>,
}

/// An output whose name and size are within bounds.
pub open spec fn output_valid(output: ActiveOutput) -> bool {
    &&& crate::text::byte_count(output.name@) <= MAX_OUTPUT_NAME
    &&& 0 < output.logical.width <= MAX_OUTPUT_SIZE
    &&& 0 < output.logical.height <= MAX_OUTPUT_SIZE
    &&& output.logical.scale.finite()
    &&& output.logical.scale.units() > 0
}

impl Desktop {
    /// Puts together what this computer tells the other one.
    pub fn assemble(edges: &Vec<EdgeConfig>, revision: String, outputs: &Vec<Output>) -> (r: Desktop)
        ensures
            r.edges@ == edges@,
            r.revision == revision,
            r.outputs@ == crate::niri::active_of(outputs@),
    {
        Desktop { edges: copy_edges(edges), revision, outputs: active_outputs(outputs) }
    }

    pub open spec fn problem(self) -> Option<Error> {
        if crate::edges::edges_problem(self.edges@) is Some {
            crate::edges::edges_problem(self.edges@)
        } else if self.outputs@.len() > MAX_OUTPUTS || crate::text::byte_count(self.revision@)
            > REVISION_LENGTH {
            Some(Error::InvalidDesktop)
        } else if exists|i: int|
            0 <= i < self.outputs@.len() && !output_valid(#[trigger] self.outputs@[i]) {
            Some(Error::InvalidDesktopOutput)
        } else {
            None
        }
    }

    pub fn validate(&self) -> (r: Result<(), Error>)
        ensures
            match self.problem() {
                Some(e) => r == Err::<(), Error>(e),
                None => r is Ok,
            },
    {
        match validate_edges(&self.edges) {
            Err(e) => return Err(e),
            Ok(()) => {},
        }
        if self.outputs.len() > MAX_OUTPUTS || byte_len(self.revision.as_str()) > REVISION_LENGTH {
            return Err(Error::InvalidDesktop);
        }
        proof {
            crate::number::lemma_constants();
        }
        for i in 0..self.outputs.len()
            invariant
                Binary64::zero().units() == 0,
                self.outputs@.len() <= MAX_OUTPUTS,
                crate::text::byte_count(self.revision@) <= REVISION_LENGTH,
                crate::edges::edges_problem(self.edges@) is None,
                forall|j: int| 0 <= j < i ==> output_valid(#[trigger] self.outputs@[j]),
        {
            let output = &self.outputs[i];
            if !(byte_len(output.name.as_str()) <= MAX_OUTPUT_NAME && output.logical.width > 0
                && output.logical.width <= MAX_OUTPUT_SIZE && output.logical.height > 0
                && output.logical.height <= MAX_OUTPUT_SIZE && output.logical.scale.is_finite()
                && Binary64::zero().less_than(output.logical.scale)) {
                assert(!output_valid(self.outputs@[i as int]));
                return Err(Error::InvalidDesktopOutput);
            }
        }
        Ok(())
    }
}

pub fn copy_edges(edges: &Vec<EdgeConfig>) -> (r: Vec<EdgeConfig>)
    ensures
        r@ == edges@,
{
    let mut copy: Vec<EdgeConfig> = Vec::new();
    for i in 0..edges.len()
        invariant
            copy@ == edges@.take(i as int),
    {
        copy.push(edges[i].clone());
        assert(edges@.take(i + 1) == edges@.take(i as int).push(edges@[i as int]));
    }
    assert(edges@.take(edges@.len() as int) == edges@);
    copy
}

pub fn copy_outputs(outputs: &Vec<ActiveOutput>) -> (r: Vec<ActiveOutput>)
    ensures
        r@ == outputs@,
{
    let mut copy: Vec<ActiveOutput> = Vec::new();
    for i in 0..outputs.len()
        invariant
            copy@ == outputs@.take(i as int),
    {
        copy.push(outputs[i].clone());
        assert(outputs@.take(i + 1) == outputs@.take(i as int).push(outputs@[i as int]));
    }
    assert(outputs@.take(outputs@.len() as int) == outputs@);
    copy
}

impl Desktop {
    /// Two desktops with the same contents.
    pub open spec fn same(self, other: Desktop) -> bool {
        &&& self.edges@ == other.edges@
        &&& self.revision@ == other.revision@
        &&& self.outputs@ == other.outputs@
    }
}

impl Clone for Desktop {
    fn clone(&self) -> (r: Desktop)
        ensures
            r.same(*self),
    {
        Desktop {
            edges: copy_edges(&self.edges),
            revision: self.revision.clone(),
            outputs: copy_outputs(&self.outputs),
        }
    }
}

/// A new layout for both computers, with the revisions that it is based on.
pub struct LayoutRequest {
    pub local_edges: Vec<EdgeConfig>,
    pub peer_edges: Vec<EdgeConfig>,
    pub local_revision: String,
    pub peer_revision: String,
}

impl LayoutRequest {
    pub open spec fn problem(self) -> Option<Error> {
        if crate::edges::edges_problem(self.local_edges@) is Some {
            crate::edges::edges_problem(self.local_edges@)
        } else if crate::edges::edges_problem(self.peer_edges@) is Some {
            crate::edges::edges_problem(self.peer_edges@)
        } else if crate::text::byte_count(self.local_revision@) != REVISION_LENGTH
            || crate::text::byte_count(self.peer_revision@) != REVISION_LENGTH {
            Some(Error::InvalidRevision)
        } else {
            None
        }
    }

    pub fn validate(&self) -> (r: Result<(), Error>)
        ensures
            match self.problem() {
                Some(e) => r == Err::<(), Error>(e),
                None => r is Ok,
            },
    {
        match validate_edges(&self.local_edges) {
            Err(e) => return Err(e),
            Ok(()) => {},
        }
        match validate_edges(&self.peer_edges) {
            Err(e) => return Err(e),
            Ok(()) => {},
        }
        if byte_len(self.local_revision.as_str()) != REVISION_LENGTH || byte_len(
            self.peer_revision.as_str(),
        ) != REVISION_LENGTH {
            return Err(Error::InvalidRevision);
        }
        Ok(())
    }
}

/// One step of a layout change that both computers agree on.
pub enum LayoutMessage {
    Prepare { id: String, edges: Vec<EdgeConfig>, revision: String },
    Prepared { id: String, ok: bool, error: Option<String> },
    Commit { id: String },
    Result { id: String, ok: bool, revision: Option<String>, error: Option<String> },
    Abort { id: String },
}

pub open spec fn hex_digit(c: char) -> bool {
    ||| '0' <= c <= '9'
    ||| 'a' <= c <= 'f'
    ||| 'A' <= c <= 'F'
}

pub open spec fn transaction_valid(id: Seq<char>) -> bool {
    &&& id.len() == TRANSACTION_LENGTH
    &&& forall|i: int| 0 <= i < id.len() ==> hex_digit(#[trigger] id[i])
}

pub fn is_transaction(id: &str) -> (r: bool)
    ensures
        r == transaction_valid(id@),
{
    let list = characters(id);
    if list.len() != TRANSACTION_LENGTH {
        return false;
    }
    for i in 0..list.len()
        invariant
            list@ == id@,
            id@.len() == TRANSACTION_LENGTH,
            forall|j: int| 0 <= j < i ==> hex_digit(#[trigger] id@[j]),
    {
        let c: char = list[i];
        if !(('0' <= c && c <= '9') || ('a' <= c && c <= 'f') || ('A' <= c && c <= 'F')) {
            assert(!hex_digit(id@[i as int]));
            return false;
        }
    }
    true
}

pub open spec fn error_code_fits(error: Option<String>) -> bool {
    error matches Some(text) ==> crate::text::byte_count(text@) <= MAX_ERROR_CODE
}

impl LayoutMessage {
    pub open spec fn id(self) -> Seq<char> {
        match self {
            LayoutMessage::Prepare { id, .. } => id@,
            LayoutMessage::Prepared { id, .. } => id@,
            LayoutMessage::Commit { id } => id@,
            LayoutMessage::Result { id, .. } => id@,
            LayoutMessage::Abort { id } => id@,
        }
    }

    pub open spec fn body_problem(self) -> Option<Error> {
        match self {
            LayoutMessage::Prepare { edges, revision, .. } => if crate::edges::edges_problem(
                edges@,
            ) is Some {
                crate::edges::edges_problem(edges@)
            } else if crate::text::byte_count(revision@) != REVISION_LENGTH {
                Some(Error::InvalidRevision)
            } else {
                None
            },
            LayoutMessage::Prepared { error, .. } => if error_code_fits(error) {
                None
            } else {
                Some(Error::InvalidLayoutResult)
            },
            LayoutMessage::Result { error, .. } => if error_code_fits(error) {
                None
            } else {
                Some(Error::InvalidLayoutResult)
            },
            _ => None,
        }
    }

    pub open spec fn problem(self) -> Option<Error> {
        if self.body_problem() is Some {
            self.body_problem()
        } else if !transaction_valid(self.id()) {
            Some(Error::InvalidTransaction)
        } else {
            None
        }
    }

    pub fn validate(&self) -> (r: Result<(), Error>)
        ensures
            match self.problem() {
                Some(e) => r == Err::<(), Error>(e),
                None => r is Ok,
            },
    {
        let id = match self {
            LayoutMessage::Prepare { id, edges, revision } => {
                match validate_edges(edges) {
                    Err(e) => return Err(e),
                    Ok(()) => {},
                }
                if byte_len(revision.as_str()) != REVISION_LENGTH {
                    return Err(Error::InvalidRevision);
                }
                id
            },
            LayoutMessage::Prepared { id, error, .. } => {
                if !short_error(error) {
                    return Err(Error::InvalidLayoutResult);
                }
                id
            },
            LayoutMessage::Result { id, error, .. } => {
                if !short_error(error) {
                    return Err(Error::InvalidLayoutResult);
                }
                id
            },
            LayoutMessage::Commit { id } => id,
            LayoutMessage::Abort { id } => id,
        };
        if is_transaction(id.as_str()) {
            Ok(())
        } else {
            Err(Error::InvalidTransaction)
        }
    }
}

fn short_error(error: &Option<String>) -> (r: bool)
    ensures
        r == error_code_fits(*error),
{
    match error {
        Some(text) => byte_len(text.as_str()) <= MAX_ERROR_CODE,
        None => true,
    }
}

/// What the status shows.
pub struct Snapshot {
    pub pid: u32,
    pub config_path: Option<String>,
    pub version: &'static str,
    pub connection: String,
    pub reason: Option<String>,
    pub role: String,
    pub local_unlocked: bool,
    pub peer_unlocked: Option<bool>,
    pub peer_name: String,
    /// The time that a message takes there and back, in microseconds.
    pub latency_us: Option<u64>,
    pub local: Option<Desktop>,
    pub peer: Option<Desktop>,
    pub configuring: bool,
    pub capture_ready: bool,
}

pub open spec fn text_of(text: Option<String>) -> Option<Seq<char>> {
    match text {
        Some(t) => Some(t@),
        None => None,
    }
}

impl Snapshot {
    pub fn new(pid: u32, peer_name: String) -> (r: Snapshot)
        ensures
            r.pid == pid,
            r.config_path is None,
            r.version@ == PACKAGE_VERSION@,
            r.connection@ == "starting"@,
            r.reason is None,
            r.role@ == "local"@,
            !r.local_unlocked,
            r.peer_unlocked is None,
            r.peer_name == peer_name,
            r.latency_us is None,
            r.local is None,
            r.peer is None,
            !r.configuring,
            !r.capture_ready,
    {
        Snapshot {
            pid,
            config_path: None,
            version: PACKAGE_VERSION,
            connection: "starting".to_owned(),
            reason: None,
            role: "local".to_owned(),
            local_unlocked: false,
            peer_unlocked: None,
            peer_name,
            latency_us: None,
            local: None,
            peer: None,
            configuring: false,
            capture_ready: false,
        }
    }

    /// Before the other computer is contacted.
    pub fn prepare(&mut self, config_path: Option<String>, local: Option<Desktop>)
        ensures
            final(self).role@ == "local"@,
            *final(self) == (Snapshot {
                config_path,
                local,
                role: final(self).role,
                configuring: false,
                peer_unlocked: None,
                latency_us: None,
                capture_ready: false,
                ..*old(self)
            }),
    {
        self.config_path = config_path;
        self.local = local;
        self.role = "local".to_owned();
        self.configuring = false;
        self.peer_unlocked = None;
        self.latency_us = None;
        self.capture_ready = false;
    }

    /// While the session is locked.
    pub fn pause(&mut self)
        ensures
            final(self).connection@ == "paused"@,
            text_of(final(self).reason) == Some("session_locked"@),
            *final(self) == (Snapshot {
                connection: final(self).connection,
                reason: final(self).reason,
                local_unlocked: false,
                ..*old(self)
            }),
    {
        self.connection = "paused".to_owned();
        self.local_unlocked = false;
        self.reason = Some("session_locked".to_owned());
    }

    /// While the other computer is awaited.
    pub fn await_peer(&mut self, status: &str)
        ensures
            final(self).connection@ == status@,
            *final(self) == (Snapshot {
                connection: final(self).connection,
                reason: None,
                local_unlocked: true,
                ..*old(self)
            }),
    {
        self.connection = status.to_owned();
        self.reason = None;
        self.local_unlocked = true;
    }

    /// The two computers are connected.
    pub fn connect(&mut self, config_path: Option<String>, local: Desktop)
        ensures
            final(self).connection@ == "connected"@,
            *final(self) == (Snapshot {
                connection: final(self).connection,
                config_path,
                reason: None,
                local: Some(local),
                ..*old(self)
            }),
    {
        self.connection = "connected".to_owned();
        self.config_path = config_path;
        self.reason = None;
        self.local = Some(local);
    }

    /// What the connected computers are doing.
    pub fn coordinate(
        &mut self,
        role: &str,
        local_unlocked: bool,
        reason: Option<&'static str>,
        configuring: bool,
        capture_ready: bool,
    )
        ensures
            final(self).role@ == role@,
            text_of(final(self).reason) == (match reason {
                Some(text) => Some(text@),
                None => None,
            }),
            *final(self) == (Snapshot {
                role: final(self).role,
                reason: final(self).reason,
                local_unlocked,
                configuring,
                capture_ready,
                ..*old(self)
            }),
    {
        self.role = role.to_owned();
        self.local_unlocked = local_unlocked;
        self.reason = match reason {
            Some(text) => Some(text.to_owned()),
            None => None,
        };
        self.configuring = configuring;
        self.capture_ready = capture_ready;
    }

    /// The connection is lost.
    pub fn fail(&mut self, reason: &str)
        ensures
            final(self).connection@ == "problem"@,
            final(self).role@ == "local"@,
            text_of(final(self).reason) == Some(reason@),
            *final(self) == (Snapshot {
                connection: final(self).connection,
                role: final(self).role,
                reason: final(self).reason,
                configuring: false,
                capture_ready: false,
                ..*old(self)
            }),
    {
        self.connection = "problem".to_owned();
        self.role = "local".to_owned();
        self.configuring = false;
        self.capture_ready = false;
        self.reason = Some(reason.to_owned());
    }
}

/// What can be asked of the control interface.
pub enum Request {
    Status,
    Release { config_path: Option<String> },
    ApplyLayout { layout: LayoutRequest, config_path: Option<String> },
}

/// The answer to a request; `data` is JSON text.
pub struct Reply {
    pub ok: bool,
    pub data: Option<String>,
    pub error: Option<String>,
}

impl Reply {
    pub fn success(data: String) -> (r: Reply)
        ensures
            r == (Reply { ok: true, data: Some(data), error: None }),
    {
        Reply { ok: true, data: Some(data), error: None }
    }

    pub fn failure(code: &str) -> (r: Reply)
        ensures
            !r.ok,
            r.data is None,
            text_of(r.error) == Some(code@),
    {
        Reply { ok: false, data: None, error: Some(code.to_owned()) }
    }
}

/// What becomes of a request.
pub enum Screening {
    /// It is answered with the status.
    Status,
    /// It is refused with an error code.
    Refused(&'static str),
    /// It is for the coordinator.
    Forwarded,
}

impl Request {
    /// The configuration that a request is meant for, if it names one.
    pub open spec fn context(self) -> Option<Seq<char>> {
        match self {
            Request::Status => None,
            Request::Release { config_path } => text_of(config_path),
            Request::ApplyLayout { config_path, .. } => text_of(config_path),
        }
    }

    pub fn config_path(&self) -> (r: Option<&String>)
        ensures
            match r {
                Some(path) => self.context() == Some(path@),
                None => self.context() is None,
            },
    {
        match self {
            Request::Status => None,
            Request::Release { config_path } => match config_path {
                Some(path) => Some(path),
                None => None,
            },
            Request::ApplyLayout { config_path, .. } => match config_path {
                Some(path) => Some(path),
                None => None,
            },
        }
    }
}

/// A request that names a configuration is for the one in use; `resolved` is the canonical form of
/// the named path, if there is one.
pub open spec fn context_matches(request: Request, snapshot: Snapshot, resolved: Option<String>) -> bool {
    request.context() is Some ==> text_of(snapshot.config_path) == text_of(resolved)
}

/// Decides what becomes of a request.
pub fn screen(request: &Request, snapshot: &Snapshot, resolved: &Option<String>) -> (r: Screening)
    ensures
        match r {
            Screening::Status => *request is Status,
            Screening::Refused(code) => {
                &&& !(*request is Status)
                &&& code@ == (if !context_matches(*request, *snapshot, *resolved) {
                    "config_changed"@
                } else {
                    "peer_offline"@
                })
                &&& !context_matches(*request, *snapshot, *resolved) || snapshot.connection@
                    != "connected"@
            },
            Screening::Forwarded => !(*request is Status) && context_matches(
                *request,
                *snapshot,
                *resolved,
            ) && snapshot.connection@ == "connected"@,
        },
{
    match request {
        Request::Status => return Screening::Status,
        _ => {},
    }
    if request.config_path().is_some() {
        let same = match (&snapshot.config_path, resolved) {
            (Some(a), Some(b)) => *a == *b,
            (None, None) => true,
            _ => false,
        };
        if !same {
            return Screening::Refused("config_changed");
        }
    }
    if !same_text(snapshot.connection.as_str(), "connected") {
        return Screening::Refused("peer_offline");
    }
    Screening::Forwarded
}

/// Accepts a request of this user that ends with its line.
pub fn check_client(own: bool, line: &[u8]) -> (r: Result<(), Error>)
    ensures
        r == (if !own {
            Err::<(), Error>(Error::ForeignClient)
        } else if line@.len() == 0 || line@.last() != 10 {
            Err::<(), Error>(Error::InvalidRequest)
        } else {
            Ok(())
        }),
{
    if !own {
        return Err(Error::ForeignClient);
    }
    if line.len() == 0 || line[line.len() - 1] != 10 {
        return Err(Error::InvalidRequest);
    }
    Ok(())
}

/// What the file system says of the control directory, and of what stands in the socket's place.
pub struct SocketFacts {
    pub directory: bool,
    pub own: bool,
    pub mode: u32,
    pub locked: bool,
    pub existing: Option<ExistingSocket>,
}

#[derive(Clone, Copy, PartialEq, Eq, Structural)]
pub struct ExistingSocket {
    pub socket: bool,
    pub own: bool,
}

/// The first reason, in the order of the checks, for which no control socket is opened.
pub open spec fn socket_problem(facts: SocketFacts) -> Option<Error> {
    if !(facts.directory && facts.own && crate::transport::owner_only(facts.mode)) {
        Some(Error::ControlDirectoryUnsafe)
    } else if !facts.locked {
        Some(Error::AlreadyRunning)
    } else if facts.existing matches Some(found) && !(found.socket && found.own) {
        Some(Error::ControlPathOccupied)
    } else {
        None
    }
}

/// A control socket is opened only in a private directory, by the only instance, and never in the
/// place of anything but an old socket.
pub fn check_socket(facts: &SocketFacts) -> (r: Result<(), Error>)
    ensures
        match socket_problem(*facts) {
            Some(e) => r == Err::<(), Error>(e),
            None => r is Ok,
        },
{
    if !(facts.directory && facts.own && crate::transport::is_owner_only(facts.mode)) {
        return Err(Error::ControlDirectoryUnsafe);
    }
    if !facts.locked {
        return Err(Error::AlreadyRunning);
    }
    match facts.existing {
        Some(found) => {
            if !(found.socket && found.own) {
                return Err(Error::ControlPathOccupied);
            }
        },
        None => {},
    }
    Ok(())
}

/// Draws bytes from `ring::rand::SystemRandom`, which fails when the system has no randomness to
/// give. Nothing is claimed of the bytes but their number.
#[verifier::external_body]
fn random_bytes() -> (r: Result<Vec<u8>, Error>)
    ensures
        r matches Ok(bytes) ==> bytes@.len() == 16,
        r matches Err(e) ==> e == Error::RandomUnavailable,
{
    let mut bytes = [0u8; 16];
    let source = ring::rand::SystemRandom::new();
    ring::rand::SecureRandom::fill(&source, &mut bytes).map_err(|_| Error::RandomUnavailable)?;
    Ok(bytes.to_vec())
}

/// A new identifier for a layout change.
pub fn transaction_id() -> (r: Result<String, Error>)
    ensures
        match r {
            Ok(id) => transaction_valid(id@) && exists|bytes: Seq<u8>|
                bytes.len() == 16 && id@ == #[trigger] crate::hex::hex_of(bytes),
            Err(e) => e == Error::RandomUnavailable,
        },
{
    match random_bytes() {
        Err(e) => Err(e),
        Ok(bytes) => {
            let id = crate::hex::encode(bytes.as_slice());
            proof {
                crate::hex::lemma_hex_digits(bytes@);
                assert forall|i: int| 0 <= i < id@.len() implies hex_digit(#[trigger] id@[i]) by {
                    assert(crate::hex::lower_hex_digit(crate::hex::hex_of(bytes@)[i]));
                }
            }
            Ok(id)
        },
    }
}

} // verus!
