//! The configuration of the bridge, and what it shows of the connection to the other computer.
use crate::capture_probe::Options;
use crate::edges::validate_edges;
use crate::error::Error;
use crate::niri::{find_output, ActiveOutput};
use crate::text::{characters, same_text};
use vstd::prelude::*;

pub use crate::edges::{valid_edge_id, EdgeConfig, MAX_EDGES};

verus! {

pub const MAX_ACTIVITY_DEVICES: usize = 32;

/// The pause, in milliseconds, before a lost connection is tried again.
pub const RETRY_DELAY_MS: u64 = 2000;

/// How the two computers get into contact.
pub enum Connection {
    Listen { address: String },
    Connect { address: String },
}

/// Where the files are, how to reach the other computer and which connections there are.
pub struct Config {
    pub certificate: String,
    pub private_key: String,
    pub peer_certificate: String,
    pub peer_name: String,
    pub connection: Connection,
    pub edges: Vec<EdgeConfig>,
    pub activity_devices: Vec<String>,
    pub native_touchpads: bool,
    pub source_path: Option<String>,
}

/// Some connection names no output.
pub open spec fn output_missing(edges: Seq<EdgeConfig>) -> bool {
    exists|i: int| 0 <= i < edges.len() && (#[trigger] edges[i]).output@.len() == 0
}

impl Config {
    /// The first reason, in the order of the checks, for which a configuration is refused.
    pub open spec fn problem(self) -> Option<Error> {
        if crate::edges::edges_problem(self.edges@) is Some {
            crate::edges::edges_problem(self.edges@)
        } else if output_missing(self.edges@) {
            Some(Error::EdgeOutputMissing)
        } else if !(1 <= self.activity_devices@.len() <= MAX_ACTIVITY_DEVICES) {
            Some(Error::ActivityDevicesMissing)
        } else {
            None
        }
    }

    pub fn validate(&self) -> (r: Result<(), Error>)
        ensures
            match self.problem() {
                Some(e) => r == Err::<(), Error>(e),
                None => r is Ok,
            },
    {
        match validate_edges(&self.edges) {
            Err(e) => return Err(e),
            Ok(()) => {},
        }
        for i in 0..self.edges.len()
            invariant
                crate::edges::edges_problem(self.edges@) is None,
                forall|j: int| 0 <= j < i ==> (#[trigger] self.edges@[j]).output@.len() > 0,
        {
            if self.edges[i].output.as_str().is_empty() {
                assert(self.edges@[i as int].output@.len() == 0);
                return Err(Error::EdgeOutputMissing);
            }
        }
        if self.activity_devices.len() < 1 || self.activity_devices.len() > MAX_ACTIVITY_DEVICES {
            return Err(Error::ActivityDevicesMissing);
        }
        Ok(())
    }
}

/// Brings a configuration with one unnamed connection and one with a list of connections into
/// the same form.
pub fn merge_edges(single: Option<EdgeConfig>, several: Vec<EdgeConfig>) -> (r: Result<
    Vec<EdgeConfig>,
    Error,
>)
    ensures
        single is Some && several@.len() > 0 ==> r == Err::<Vec<EdgeConfig>, Error>(
            Error::MixedEdges,
        ),
        single is None ==> r == Ok::<Vec<EdgeConfig>, Error>(several),
        single matches Some(edge) ==> several@.len() == 0 ==> (r matches Ok(edges) && edges@
            == seq![edge]),
{
    match single {
        None => Ok(several),
        Some(edge) => {
            if several.len() > 0 {
                return Err(Error::MixedEdges);
            }
            let mut edges: Vec<EdgeConfig> = Vec::new();
            edges.push(edge);
            assert(edges@ =~= seq![edge]);
            Ok(edges)
        },
    }
}

/// What is shown while the other computer is awaited.
pub fn waiting_status(connection: &Connection) -> (r: &'static str)
    ensures
        r@ == (match connection {
            Connection::Listen { .. } => "waiting"@,
            Connection::Connect { .. } => "connecting"@,
        }),
{
    match connection {
        Connection::Listen { .. } => "waiting",
        Connection::Connect { .. } => "connecting",
    }
}

pub open spec fn ascii_lower(c: char) -> char {
    if 'A' <= c <= 'Z' {
        ((c as u32 + 32) as u8) as char
    } else {
        c
    }
}

/// A text occurs at an index of another one, whatever the case of its letters.
pub open spec fn occurs_at(text: Seq<char>, part: Seq<char>, at: int) -> bool {
    &&& 0 <= at <= text.len() - part.len()
    &&& forall|i: int| 0 <= i < part.len() ==> ascii_lower(#[trigger] text[at + i]) == part[i]
}

pub open spec fn occurs(text: Seq<char>, part: Seq<char>) -> bool {
    exists|at: int| #[trigger] occurs_at(text, part, at)
}

pub fn to_lower(c: char) -> (r: char)
    ensures
        r == ascii_lower(c),
{
    if 'A' <= c && c <= 'Z' {
        ((c as u32 + 32) as u8) as char
    } else {
        c
    }
}

fn matches_at(text: &Vec<char>, part: &Vec<char>, at: usize) -> (r: bool)
    requires
        at + part@.len() <= text@.len(),
    ensures
        r == occurs_at(text@, part@, at as int),
{
    let length: usize = text.len();
    for i in 0..part.len()
        invariant
            length == text@.len(),
            at + part@.len() <= text@.len(),
            forall|j: int| 0 <= j < i ==> ascii_lower(#[trigger] text@[at + j]) == part@[j],
    {
        if to_lower(text[at + i]) != part[i] {
            assert(ascii_lower(text@[at + i as int]) != part@[i as int]);
            return false;
        }
    }
    true
}

/// Looks for a part in lower case in a text of any case.
pub fn mentions(text: &str, part: &str) -> (r: bool)
    ensures
        r == occurs(text@, part@),
{
    let a = characters(text);
    let b = characters(part);
    if b.len() > a.len() {
        return false;
    }
    let last: usize = a.len() - b.len();
    for at in 0..last
        invariant
            a@ == text@,
            b@ == part@,
            last + b@.len() == a@.len(),
            forall|k: int| 0 <= k < at ==> !#[trigger] occurs_at(text@, part@, k),
    {
        if matches_at(&a, &b, at) {
            return true;
        }
    }
    matches_at(&a, &b, last)
}

/// Some cause of a failure has to do with a certificate.
pub open spec fn about_certificates(causes: Seq<String>) -> bool {
    exists|i: int|
        0 <= i < causes.len() && occurs((#[trigger] causes[i])@, "certificat"@)
}

/// A text says that the other computer speaks another protocol, or another version of it.
pub open spec fn tells_mismatch(text: Seq<char>) -> bool {
    ||| occurs(text, "unsupported protocol version"@)
    ||| occurs(text, "peer protocol negotiation failed"@)
    ||| occurs(text, "expected protocol hello"@)
    ||| occurs(text, "peer doesn't support any known protocol"@)
    ||| occurs(text, "noapplicationprotocol"@)
}

fn is_mismatch(text: &str) -> (r: bool)
    ensures
        r == tells_mismatch(text@),
{
    mentions(text, "unsupported protocol version") || mentions(
        text,
        "peer protocol negotiation failed",
    ) || mentions(text, "expected protocol hello") || mentions(
        text,
        "peer doesn't support any known protocol",
    ) || mentions(text, "noapplicationprotocol")
}

/// Some cause of a failure is that the two computers speak different protocols.
pub open spec fn about_protocol(causes: Seq<String>) -> bool {
    exists|i: int| 0 <= i < causes.len() && tells_mismatch((#[trigger] causes[i])@)
}

/// A failure that rests on a mismatch of the protocol is not shown as an ordinary one.
pub proof fn lemma_mismatch_is_told_apart(causes: Seq<String>, index: int, error: Error)
    requires
        0 <= index < causes.len(),
        causes[index]@ == error.message(),
        error == Error::UnsupportedVersion || error == Error::ProtocolMismatch || error
            == Error::GreetingExpected,
    ensures
        about_protocol(causes),
{
    let text = error.message();
    if error == Error::UnsupportedVersion {
        reveal_strlit("Unsupported protocol version");
        reveal_strlit("unsupported protocol version");
        assert(occurs_at(text, "unsupported protocol version"@, 0));
    } else if error == Error::ProtocolMismatch {
        reveal_strlit("Peer protocol negotiation failed");
        reveal_strlit("peer protocol negotiation failed");
        assert(occurs_at(text, "peer protocol negotiation failed"@, 0));
    } else {
        reveal_strlit("Expected protocol hello");
        reveal_strlit("expected protocol hello");
        assert(occurs_at(text, "expected protocol hello"@, 0));
    }
    assert(tells_mismatch(causes[index]@));
}

/// What is shown when the connection to the other computer failed.
pub fn failure_reason(causes: &Vec<String>) -> (r: &'static str)
    ensures
        r@ == (if about_certificates(causes@) {
            "authentication_failed"@
        } else if about_protocol(causes@) {
            "protocol_mismatch"@
        } else {
            "connection_failed"@
        }),
{
    let mut mismatch = false;
    for i in 0..causes.len()
        invariant
            forall|j: int|
                0 <= j < i ==> !occurs((#[trigger] causes@[j])@, "certificat"@),
            mismatch ==> about_protocol(causes@),
            !mismatch ==> forall|j: int| 0 <= j < i ==> !tells_mismatch((#[trigger] causes@[j])@),
    {
        if mentions(causes[i].as_str(), "certificat") {
            assert(occurs(causes@[i as int]@, "certificat"@));
            return "authentication_failed";
        }
        if is_mismatch(causes[i].as_str()) {
            assert(tells_mismatch(causes@[i as int]@));
            mismatch = true;
        }
    }
    if mismatch {
        "protocol_mismatch"
    } else {
        "connection_failed"
    }
}

/// A capture that was told to end must have done so within this many microseconds.
pub const CAPTURE_STOP_LIMIT_US: u64 = 2_000_000;

/// A capture has taken too long to let go of the input.
pub fn capture_overdue(waited_us: u64) -> (r: bool)
    ensures
        r == (waited_us > CAPTURE_STOP_LIMIT_US),
{
    waited_us > CAPTURE_STOP_LIMIT_US
}

/// What follows on the end of a connection.
#[derive(Clone, Copy, Debug, PartialEq, Eq, Structural)]
pub enum Next {
    /// Leave the program.
    Leave,
    /// Contact the other computer again, after a pause.
    Retry,
    /// Leave the program with the failure, so that the system takes input back.
    Fail,
}

/// Keeps the connection to the other computer up.
pub struct Supervisor {
    /// The failure that was reported last.
    pub last_error: String,
}

impl Supervisor {
    pub fn new() -> (r: Supervisor)
        ensures
            r.last_error@ == Seq::<char>::empty(),
    {
        Supervisor { last_error: String::new() }
    }

    /// A connection has ended without a failure: because the program is to end, or not.
    pub fn on_end(&self, leaving: bool) -> (r: Next)
        ensures
            r == (if leaving {
                Next::Leave
            } else {
                Next::Retry
            }),
    {
        if leaving {
            Next::Leave
        } else {
            Next::Retry
        }
    }

    /// A connection has failed; `stuck` where the capture did not let go of the input. Returns
    /// what follows, and whether to report the failure: the same one is not reported twice.
    pub fn on_failure(&mut self, message: &str, stuck: bool) -> (r: (Next, bool))
        ensures
            r.0 == (if stuck {
                Next::Fail
            } else {
                Next::Retry
            }),
            r.1 == (!stuck && message@ != old(self).last_error@),
            final(self).last_error@ == (if stuck {
                old(self).last_error@
            } else {
                message@
            }),
    {
        if stuck {
            return (Next::Fail, false);
        }
        let report = !same_text(message, self.last_error.as_str());
        if report {
            self.last_error = message.to_owned();
        }
        (Next::Retry, report)
    }
}

/// The output that the pointer starts on: that of the first connection whose output is in use,
/// else any output in use.
pub open spec fn starting_output(edges: Seq<EdgeConfig>, outputs: Seq<ActiveOutput>) -> Option<Seq<char>>
    decreases edges.len(),
{
    if edges.len() == 0 {
        if outputs.len() == 0 {
            None
        } else {
            Some(outputs[0].name@)
        }
    } else if crate::niri::in_use(outputs, edges[0].output@) {
        Some(edges[0].output@)
    } else {
        starting_output(edges.drop_first(), outputs)
    }
}

pub fn initial_output(edges: &Vec<EdgeConfig>, outputs: &Vec<ActiveOutput>) -> (r: Result<
    String,
    Error,
>)
    ensures
        match starting_output(edges@, outputs@) {
            Some(name) => r matches Ok(text) && text@ == name,
            None => r == Err::<String, Error>(Error::NoActiveOutput),
        },
{
    assert(edges@.skip(0) == edges@);
    for i in 0..edges.len()
        invariant
            starting_output(edges@, outputs@) == starting_output(edges@.skip(i as int), outputs@),
    {
        assert(edges@.skip(i as int).drop_first() == edges@.skip(i + 1));
        if find_output(outputs, edges[i].output.as_str()).is_some() {
            return Ok(edges[i].output.clone());
        }
    }
    if outputs.len() == 0 {
        return Err(Error::NoActiveOutput);
    }
    Ok(outputs[0].name.clone())
}

/// A capture at a connection, for as long as a capture may take to be set up.
pub const CAPTURE_SECONDS: u64 = 15;

pub open spec fn capture_of(edge: EdgeConfig) -> Options {
    Options {
        output: edge.output,
        edge: edge.boundary.edge,
        start: edge.boundary.start,
        end: edge.boundary.end,
        seconds: CAPTURE_SECONDS,
    }
}

/// The captures at the connections that are to be watched.
pub fn capture_options(edges: &Vec<EdgeConfig>, armed: &Vec<usize>) -> (r: Vec<Options>)
    requires
        forall|i: int| 0 <= i < armed@.len() ==> (#[trigger] armed@[i]) < edges@.len(),
    ensures
        r@.len() == armed@.len(),
        forall|i: int|
            0 <= i < armed@.len() ==> #[trigger] r@[i] == capture_of(edges@[armed@[i] as int]),
{
    let mut list: Vec<Options> = Vec::new();
    for i in 0..armed.len()
        invariant
            forall|j: int| 0 <= j < armed@.len() ==> (#[trigger] armed@[j]) < edges@.len(),
            list@.len() == i,
            forall|j: int|
                0 <= j < i ==> #[trigger] list@[j] == capture_of(edges@[armed@[j] as int]),
    {
        let edge = &edges[armed[i]];
        list.push(
            Options {
                output: edge.output.clone(),
                edge: edge.boundary.edge,
                start: edge.boundary.start,
                end: edge.boundary.end,
                seconds: CAPTURE_SECONDS,
            },
        );
    }
    list
}

} // verus!
