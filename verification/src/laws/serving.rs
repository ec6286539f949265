//! What the program answers, trusts and reports.
use crate::bridge::{Config, Connection, Next, Supervisor};
use crate::capture_probe::Options;
use crate::control::{
    Desktop, LayoutMessage, LayoutRequest, Reply, Request, Screening, Snapshot, SocketFacts,
};
use crate::edges::EdgeConfig;
use crate::error::Error;
use crate::identity::{DirectoryFacts, NewIdentity, Usage};
use crate::net_probe::Summary;
use crate::niri::{ActiveOutput, Output};
use crate::protocol::Message;
use crate::session::{SessionFacts, Status};
use crate::touchpad::Descriptor;
use crate::transport::{FileFacts, PrivateKey};
use vstd::prelude::*;

verus! {

/// Input may be shared exactly in this user's own Wayland session, while it is active and unlocked;
/// any other session is refused.
pub proof fn lemma_when_a_session_is_unlocked(facts: SessionFacts, r: Result<Status, Error>)
    requires
        call_ensures(crate::session::read_status, (&facts,), r),
    ensures
        r is Err <==> facts.kind@ != "wayland"@ || !facts.own,
        r is Ok && r->Ok_0 is Unlocked <==> facts.kind@ == "wayland"@ && facts.own && facts.active
            && !facts.locked,
        r is Ok ==> !(r->Ok_0 is Unknown),
{
}

/// Only an unlocked session shares; an unknown one is not known; a change is told once.
pub proof fn lemma_statuses_mean_what_they_say(status: Status)
    ensures
        forall|r: bool|
            (#[trigger] call_ensures(crate::session::is_unlocked, (status,), r)) ==> (r
                <==> status is Unlocked),
        forall|r: bool|
            (#[trigger] call_ensures(crate::session::is_known, (status,), r)) ==> (r <==> !(
            status is Unknown)),
        forall|current: &mut Status, r: bool|
            (#[trigger] call_ensures(crate::session::announce, (current, status), r)) ==> (*final(current))
                == status && (r <==> *current != status),
{
}

/// The status shows what goes on: at the start, paused, waiting, connected, coordinating, failed.
pub proof fn lemma_the_status_shows_what_goes_on(
    pid: u32,
    peer_name: String,
    path: Option<String>,
    local: Option<Desktop>,
    desktop: Desktop,
    unlocked: bool,
    reason: Option<&'static str>,
    configuring: bool,
    ready: bool,
    content: Seq<char>,
)
    ensures
        forall|r: Snapshot|
            (#[trigger] call_ensures(Snapshot::new, (pid, peer_name), r)) ==> r.pid == pid
                && r.peer_name == peer_name && r.connection@ == "starting"@ && r.role@ == "local"@
                && !r.local_unlocked && r.peer_unlocked is None && r.local is None && r.peer is None
                && r.latency_us is None && !r.configuring && !r.capture_ready && r.version@
                == "0.3.0-beta.3"@,
        forall|s: &mut Snapshot, r: ()|
            (#[trigger] call_ensures(Snapshot::prepare, (s, path, local), r)) ==> (
            *final(s)).config_path == path && (*final(s)).local == local && (*final(s)).role@
                == "local"@ && (*final(s)).peer_unlocked is None && (*final(s)).latency_us is None && !(
            *final(s)).configuring && !(*final(s)).capture_ready && (*final(s)).pid == (*s).pid,
        forall|s: &mut Snapshot, r: ()|
            (#[trigger] call_ensures(Snapshot::pause, (s,), r)) ==> (*final(s)).connection@
                == "paused"@ && !(*final(s)).local_unlocked && (*final(s)).reason is Some && ((
            *final(s)).reason->0)@ == "session_locked"@ && (*final(s)).role == (*s).role,
        forall|s: &mut Snapshot, status: &str, r: ()|
            (#[trigger] call_ensures(Snapshot::await_peer, (s, status), r)) && status@ == content ==> (
            *final(s)).connection@ == content && (*final(s)).local_unlocked && (
            *final(s)).reason is None,
        forall|s: &mut Snapshot, r: ()|
            (#[trigger] call_ensures(Snapshot::connect, (s, path, desktop), r)) ==> (
            *final(s)).connection@ == "connected"@ && (*final(s)).reason is None && (*final(s)).local
                == Some(desktop) && (*final(s)).config_path == path,
        forall|s: &mut Snapshot, role: &str, r: ()|
            (#[trigger] call_ensures(
                Snapshot::coordinate,
                (s, role, unlocked, reason, configuring, ready),
                r,
            )) && role@ == content ==> (*final(s)).role@ == content && (*final(s)).local_unlocked
                == unlocked && (*final(s)).configuring == configuring && (*final(s)).capture_ready
                == ready && ((*final(s)).reason is Some <==> reason is Some) && (reason is Some ==> ((
            *final(s)).reason->0)@ == (reason->0)@) && (*final(s)).connection == (*s).connection,
        forall|s: &mut Snapshot, text: &str, r: ()|
            (#[trigger] call_ensures(Snapshot::fail, (s, text), r)) && text@ == content ==> (
            *final(s)).connection@ == "problem"@ && (*final(s)).role@ == "local"@ && (
            *final(s)).reason is Some && ((*final(s)).reason->0)@ == content && !(
            *final(s)).configuring && !(*final(s)).capture_ready,
{
}

/// A success carries its data and no error, a failure its code and no data.
pub proof fn lemma_replies_say_how_it_went(data: String, content: Seq<char>)
    ensures
        forall|r: Reply|
            (#[trigger] call_ensures(Reply::success, (data,), r)) ==> r.ok && r.data is Some && (
            r.data->0)@ == data@ && r.error is None,
        forall|code: &str, r: Reply|
            (#[trigger] call_ensures(Reply::failure, (code,), r)) && code@ == content ==> !r.ok
                && r.data is None && r.error is Some && (r.error->0)@ == content,
{
}

/// The configuration that a request is meant for.
pub open spec fn meant_for(request: Request) -> Option<String> {
    match request {
        Request::Status => None,
        Request::Release { config_path } => config_path,
        Request::ApplyLayout { config_path, .. } => config_path,
    }
}

/// The status can always be asked for. Anything else reaches the coordinator exactly while the other
/// computer is connected, and, if it names a configuration, that is the running one.
pub proof fn lemma_which_requests_reach_the_coordinator(
    request: Request,
    snapshot: Snapshot,
    resolved: Option<String>,
    r: Screening,
)
    requires
        call_ensures(crate::control::screen, (&request, &snapshot, &resolved), r),
    ensures
        ({
            let here = snapshot.config_path is Some == resolved is Some && (resolved is Some ==> (
            snapshot.config_path->0)@ == (resolved->0)@);
            let fit = meant_for(request) is None || here;
            &&& r is Status <==> request is Status
            &&& r is Forwarded <==> !(request is Status) && fit && snapshot.connection@ == "connected"@
            &&& r matches Screening::Refused(code) ==> (if fit {
                code@ == "peer_offline"@
            } else {
                code@ == "config_changed"@
            })
        }),
{
}

/// A client is answered only if it is this user's and has sent a whole line.
pub proof fn lemma_which_clients_are_answered(own: bool, content: Seq<u8>)
    ensures
        forall|line: &[u8], r: Result<(), Error>|
            (#[trigger] call_ensures(crate::control::check_client, (own, line), r)) && line@ == content
                ==> (r is Ok <==> own && content.len() > 0 && content[content.len() - 1] == 10),
{
}

/// The control socket is put into a private directory of this user, by one program at a time, and
/// replaces only an own socket.
pub proof fn lemma_where_the_control_socket_goes(facts: SocketFacts, r: Result<(), Error>)
    requires
        call_ensures(crate::control::check_socket, (&facts,), r),
    ensures
        r is Ok ==> facts.directory && facts.own && facts.locked && facts.mode & 0x3f == 0,
        r is Ok && facts.existing is Some ==> (facts.existing->0).socket && (facts.existing->0).own,
        facts.directory && facts.own && facts.locked && facts.mode & 0x3f == 0 && facts.existing is None
            ==> r is Ok,
{
}

/// A private key is read only from a regular file of this user that nobody else may use and that is
/// not too large.
pub proof fn lemma_which_key_files_are_used(facts: FileFacts, content: Seq<u8>)
    ensures
        forall|r: Result<(), Error>|
            (#[trigger] call_ensures(crate::transport::check_key_file, (&facts,), r)) ==> (r is Ok
                <==> facts.regular && facts.size <= 65536 && facts.mode & 0x3f == 0 && facts.own),
        forall|bytes: &[u8], r: Result<PrivateKey, Error>|
            (#[trigger] call_ensures(crate::transport::load_private_key, (&facts, bytes), r)) && bytes@
                == content ==> {
                let found = crate::transport::pem_private_key(content);
                &&& r is Ok <==> facts.regular && facts.size <= 65536 && facts.mode & 0x3f == 0
                    && facts.own && found is Some
                &&& r is Ok ==> (r->Ok_0).kind == (found->0).0 && (r->Ok_0).der@ == (found->0).1
            },
{
}

/// A certificate is taken from a file that holds exactly one, and is that one.
pub proof fn lemma_a_certificate_file_holds_one(content: Seq<u8>)
    ensures
        forall|bytes: &[u8], r: Result<Vec<u8>, Error>|
            (#[trigger] call_ensures(crate::transport::load_certificate, (bytes,), r)) && bytes@
                == content ==> {
                let found = crate::transport::pem_certificates(content);
                &&& r is Ok <==> content.len() <= 65536 && found is Some && (found->0).len() == 1
                &&& r is Ok ==> (r->Ok_0)@ == (found->0)[0]
            },
{
}

/// A connection is used only if both computers have agreed on this very protocol, and have greeted
/// each other with this very version.
pub proof fn lemma_what_both_computers_agree_on(message: Message, content: Seq<u8>)
    ensures
        forall|name: &[u8], r: Result<(), Error>|
            (#[trigger] call_ensures(crate::transport::check_protocol, (Some(name),), r)) && name@
                == content ==> (r is Ok <==> content == vstd::utf8::encode_utf8("niri-bridge/5"@)),
        forall|r: Result<(), Error>|
            (#[trigger] call_ensures(crate::transport::check_protocol, (None::<&[u8]>,), r)) ==> r is Err,
        forall|r: Message|
            (#[trigger] call_ensures(crate::transport::greeting, (), r)) ==> (r matches Message::Hello {
                version,
            } && version == 5),
        forall|r: Result<(), Error>|
            (#[trigger] call_ensures(crate::transport::check_greeting, (&message,), r)) ==> (r is Ok
                <==> (message matches Message::Hello { version } && version == 5)),
{
}

/// A server name is a name or an address.
pub proof fn lemma_which_names_a_certificate_carries(content: Seq<char>)
    ensures
        forall|name: &str, r: Result<(), Error>|
            (#[trigger] call_ensures(crate::transport::check_server_name, (name,), r)) && name@
                == content ==> (r is Ok <==> crate::manager::dns_name(content)
                || crate::transport::ip_address(content)),
{
}

/// The name of an identity is one label of lower-case letters, digits and hyphens, no hyphen at
/// either end.
pub open spec fn label(name: Seq<char>) -> bool {
    &&& 1 <= name.len() <= 63
    &&& forall|i: int|
        0 <= i < name.len() ==> ('a' <= (#[trigger] name[i]) <= 'z' || '0' <= name[i] <= '9' || name[i]
            == '-')
    &&& name[0] != '-'
    &&& name[name.len() - 1] != '-'
}

/// A new identity asks for a certificate of the given name, for a server and a client, from a day
/// before until a year after; and both of its files can be read again.
pub proof fn lemma_what_a_new_identity_is(content: Seq<char>, now: i64)
    ensures
        forall|name: &str, r: Result<NewIdentity, Error>|
            (#[trigger] call_ensures(crate::identity::create, (name, now), r)) && name@ == content ==> {
                &&& r is Ok ==> {
                    let request = (r->Ok_0).request;
                    let certificates = crate::transport::pem_certificates(
                        vstd::utf8::encode_utf8((r->Ok_0).certificate@),
                    );
                    let key = crate::transport::pem_private_key(
                        vstd::utf8::encode_utf8((r->Ok_0).key@),
                    );
                    &&& label(content)
                    &&& request.name@ == content
                    &&& request.not_before == now - 86_400
                    &&& request.not_after == now + 31_536_000
                    &&& request.usages@.len() == 2
                    &&& request.usages@.contains(Usage::Server)
                    &&& request.usages@.contains(Usage::Client)
                    &&& certificates is Some && (certificates->0).len() == 1
                    &&& key is Some
                }
                &&& !label(content) ==> r is Err
            },
        forall|name: &str, r: bool|
            (#[trigger] call_ensures(crate::identity::is_label, (name,), r)) && name@ == content ==> r
                == label(content),
{
    assert(crate::identity::label_valid(content) == label(content));
    assert(seq![Usage::Server, Usage::Client][0] is Server && seq![Usage::Server, Usage::Client][1] is Client);
}

/// An identity is made only in a private directory of this user, and never over another one.
pub proof fn lemma_where_an_identity_is_made(facts: DirectoryFacts, r: Result<(), Error>)
    requires
        call_ensures(crate::identity::check_directory, (&facts,), r),
    ensures
        r is Ok <==> facts.directory && facts.own && facts.mode & 0x3f == 0 && !facts.key_exists
            && !facts.certificate_exists,
{
}

/// A measurement is answered with its own number, a thousand times at most; nothing else is
/// answered, and only the expected answer is accepted.
pub proof fn lemma_measurements_are_answered(message: Message, count: u64, nonce: u64)
    ensures
        forall|r: Result<Message, Error>|
            (#[trigger] call_ensures(crate::net_probe::answer, (&message, count), r)) ==> {
                &&& r is Ok <==> message is Ping && count < 1000
                &&& r is Ok ==> (r->Ok_0 matches Message::Pong { nonce: n } && n == message->Ping_nonce)
            },
        forall|r: Result<(), Error>|
            (#[trigger] call_ensures(crate::net_probe::check_answer, (&message, nonce), r)) ==> (r is Ok
                <==> (message matches Message::Pong { nonce: n } && n == nonce)),
{
}

/// Of some measurements the largest is one of them and none is larger; the middle one is one of them.
pub proof fn lemma_measurements_are_summed_up(values: Vec<u64>, r: Option<Summary>)
    requires
        call_ensures(crate::net_probe::summarize, (&values,), r),
    ensures
        r is Some <==> values@.len() > 0,
        r is Some ==> {
            &&& (r->0).count == values@.len()
            &&& values@.contains((r->0).largest)
            &&& values@.contains((r->0).median)
            &&& forall|i: int| 0 <= i < values@.len() ==> (#[trigger] values@[i]) <= (r->0).largest
        },
{
    broadcast use vstd::seq_lib::group_to_multiset_ensures;

    if r is Some {
        let summary = r->0;
        let order = choose|order: Seq<u64>|
            {
                &&& #[trigger] crate::net_probe::ascending_values(order)
                &&& order.to_multiset() == values@.to_multiset()
                &&& order.len() == values@.len()
                &&& summary.count == values@.len()
                &&& summary.median == order[(values@.len() / 2) as int]
                &&& summary.largest == order.last()
            };
        assert(order.contains(order.last()) && order.contains(order[(values@.len() / 2) as int]));
        assert(order.to_multiset().count(order.last()) > 0);
        assert(order.to_multiset().count(order[(values@.len() / 2) as int]) > 0);
        assert(values@.contains(summary.largest) && values@.contains(summary.median));
        assert forall|i: int| 0 <= i < values@.len() implies (#[trigger] values@[i]) <= summary.largest by {
            assert(values@.to_multiset().count(values@[i]) > 0);
            assert(order.contains(values@[i]));
            let k = choose|k: int| 0 <= k < order.len() && order[k] == values@[i];
            if k < order.len() - 1 {
                assert(order[k] <= order[order.len() - 1]);
            }
        }
    }
}

/// Messages are accepted if their parts are, and their session is not zero; a greeting only of this
/// version.
pub proof fn lemma_which_messages_are_accepted(message: Message, r: Result<(), Error>)
    requires
        call_ensures(Message::validate, (&message,), r),
    ensures
        message matches Message::Hello { version } ==> (r is Ok <==> version == 5),
        message matches Message::Begin { session, entry } ==> (r is Ok <==> session != 0
            && entry.problem() is None),
        message matches Message::Input { session, event, .. } ==> (r is Ok <==> session != 0
            && event.problem() is None),
        message matches Message::End { session, exit } ==> (r is Ok <==> session != 0 && (exit is Some
            ==> (exit->0).problem() is None)),
        message matches Message::Touchpads { devices } ==> (r is Ok ==> devices@.len() <= 4 && forall|
            i: int,
        |
            0 <= i < devices@.len() ==> (#[trigger] devices@[i]).problem() is None),
        message matches Message::Desktop { info } ==> (r is Ok <==> info.problem() is None),
        message matches Message::Layout { message: m } ==> (r is Ok <==> m.problem() is None),
        message is Ping || message is Pong || message is LockState ==> r is Ok,
{
    if let Message::Touchpads { devices } = message {
        lemma_descriptors(devices@);
    }
}

proof fn lemma_descriptors(devices: Seq<Descriptor>)
    ensures
        crate::protocol::first_descriptor_problem(devices) is None ==> forall|i: int|
            0 <= i < devices.len() ==> (#[trigger] devices[i]).problem() is None,
    decreases devices.len(),
{
    if devices.len() > 0 {
        let rest = devices.drop_first();
        lemma_descriptors(rest);
        if crate::protocol::first_descriptor_problem(devices) is None {
            assert forall|i: int| 0 <= i < devices.len() implies (#[trigger] devices[i]).problem() is None by {
                if i > 0 {
                    assert(rest[i - 1] == devices[i]);
                }
            }
        }
    }
}

/// A frame is its payload behind four bytes that count it, the largest first; it is read back so.
pub proof fn lemma_frames_count_their_payload(content: Seq<u8>)
    ensures
        forall|payload: &[u8], r: Result<Vec<u8>, Error>|
            (#[trigger] call_ensures(crate::protocol::encode_frame, (payload,), r)) && payload@ == content
                ==> {
                &&& r is Ok <==> content.len() <= 65536
                &&& r is Ok ==> {
                    let frame = (r->Ok_0)@;
                    &&& frame.len() == content.len() + 4
                    &&& frame[0] * 16_777_216 + frame[1] * 65_536 + frame[2] * 256 + frame[3]
                        == content.len()
                    &&& forall|i: int| 0 <= i < content.len() ==> #[trigger] frame[i + 4] == content[i]
                }
            },
        forall|header: &[u8], r: Result<usize, Error>|
            (#[trigger] call_ensures(crate::protocol::frame_length, (header,), r)) && header@ == content
                && content.len() == 4 ==> {
                let length = content[0] * 16_777_216 + content[1] * 65_536 + content[2] * 256
                    + content[3];
                &&& r is Ok <==> 1 <= length <= 65536
                &&& r is Ok ==> r->Ok_0 == length
            },
{
    assert forall|frame: Seq<u8>| frame.len() == content.len() + 4 && frame.skip(4) == content implies forall|
        i: int,
    |
        0 <= i < content.len() ==> #[trigger] frame[i + 4] == content[i] by {
        assert forall|i: int| 0 <= i < content.len() implies #[trigger] frame[i + 4] == content[i] by {
            assert(frame.skip(4)[i] == frame[i + 4]);
        }
    }
}

/// A configuration needs sound connections on named outputs, and one to thirty-two devices.
pub proof fn lemma_which_configurations_are_used(config: Config, r: Result<(), Error>)
    requires
        call_ensures(Config::validate, (&config,), r),
    ensures
        r is Ok <==> {
            &&& super::places::sound_edges(config.edges@)
            &&& forall|i: int| 0 <= i < config.edges@.len() ==> (#[trigger] config.edges@[i]).output@.len() > 0
            &&& 1 <= config.activity_devices@.len() <= 32
        },
{
    super::places::lemma_sound_edges(config.edges@);
}

/// The connections of a configuration come from one of its two forms, never from both.
pub proof fn lemma_connections_come_from_one_form(single: Option<EdgeConfig>, several: Vec<EdgeConfig>, r: Result<Vec<EdgeConfig>, Error>)
    requires
        call_ensures(crate::bridge::merge_edges, (single, several), r),
    ensures
        r is Err <==> single is Some && several@.len() > 0,
        single is None ==> (r->Ok_0)@ == several@,
        single is Some && r is Ok ==> (r->Ok_0)@.len() == 1 && (r->Ok_0)@[0] == single->0,
{
}

/// Each watched connection is captured on its own output, at its own edge and span.
pub proof fn lemma_captures_follow_their_connections(edges: Vec<EdgeConfig>, armed: Vec<usize>, r: Vec<Options>)
    requires
        forall|i: int| 0 <= i < armed@.len() ==> (#[trigger] armed@[i]) < edges@.len(),
        call_ensures(crate::bridge::capture_options, (&edges, &armed), r),
    ensures
        r@.len() == armed@.len(),
        forall|i: int|
            0 <= i < r@.len() ==> {
                let edge = edges@[armed@[i] as int];
                &&& (#[trigger] r@[i]).output@ == edge.output@
                &&& r@[i].edge == edge.boundary.edge
                &&& r@[i].start == edge.boundary.start
                &&& r@[i].end == edge.boundary.end
                &&& r@[i].seconds == 15
            },
{
}

/// The pointer starts on the output of the first connection whose output is in use, else on any
/// output, and fails without one.
pub proof fn lemma_where_the_pointer_starts(edges: Vec<EdgeConfig>, outputs: Vec<ActiveOutput>, r: Result<String, Error>)
    requires
        call_ensures(crate::bridge::initial_output, (&edges, &outputs), r),
    ensures
        r is Ok <==> outputs@.len() > 0,
        r is Ok ==> super::crossing::shown(outputs@, (r->Ok_0)@),
        forall|i: int|
            0 <= i < edges@.len() && super::crossing::shown(outputs@, (#[trigger] edges@[i]).output@) && (
            forall|j: int|
                0 <= j < i ==> !super::crossing::shown(outputs@, (#[trigger] edges@[j]).output@))
                ==> r is Ok && (r->Ok_0)@ == edges@[i].output@,
{
    lemma_starting(edges@, outputs@);
}

proof fn lemma_starting(edges: Seq<EdgeConfig>, outputs: Seq<ActiveOutput>)
    ensures
        ({
            let found = crate::bridge::starting_output(edges, outputs);
            &&& found is Some <==> outputs.len() > 0
            &&& found is Some ==> super::crossing::shown(outputs, found->0)
            &&& forall|i: int|
                0 <= i < edges.len() && super::crossing::shown(outputs, (#[trigger] edges[i]).output@) && (
                forall|j: int|
                    0 <= j < i ==> !super::crossing::shown(outputs, (#[trigger] edges[j]).output@))
                    ==> found == Some(edges[i].output@)
        }),
    decreases edges.len(),
{
    if edges.len() == 0 {
        if outputs.len() > 0 {
            assert(outputs[0].name@ == outputs[0].name@);
        }
    } else {
        let rest = edges.drop_first();
        lemma_starting(rest, outputs);
        assert forall|i: int|
            0 <= i < edges.len() && super::crossing::shown(outputs, (#[trigger] edges[i]).output@) && (forall|
                j: int,
            |
                0 <= j < i ==> !super::crossing::shown(outputs, (#[trigger] edges[j]).output@)) implies
            crate::bridge::starting_output(edges, outputs) == Some(edges[i].output@) by {
            if i > 0 {
                assert(!super::crossing::shown(outputs, edges[0].output@));
                assert(rest[i - 1] == edges[i]);
                assert forall|j: int| 0 <= j < i - 1 implies !super::crossing::shown(
                    outputs,
                    (#[trigger] rest[j]).output@,
                ) by {
                    assert(!super::crossing::shown(outputs, edges[j + 1].output@));
                }
            }
        }
    }
}

/// A listening computer waits and a connecting one connects; a lost connection is tried again,
/// unless the program is to end or cannot let go of the input; a failure is reported when it is new.
pub proof fn lemma_connections_are_kept_up(connection: Connection, leaving: bool, stuck: bool, waited: u64, content: Seq<char>)
    ensures
        forall|r: &'static str|
            (#[trigger] call_ensures(crate::bridge::waiting_status, (&connection,), r)) ==> {
                &&& connection is Listen ==> r@ == "waiting"@
                &&& connection is Connect ==> r@ == "connecting"@
            },
        forall|s: &Supervisor, r: Next|
            (#[trigger] call_ensures(Supervisor::on_end, (s, leaving), r)) ==> (r is Leave <==> leaving) && (
            r is Retry <==> !leaving),
        forall|s: &mut Supervisor, message: &str, r: (Next, bool)|
            (#[trigger] call_ensures(Supervisor::on_failure, (s, message, stuck), r)) && message@
                == content ==> {
                &&& r.0 is Fail <==> stuck
                &&& r.0 is Retry <==> !stuck
                &&& !stuck ==> (r.1 <==> content != (*s).last_error@) && (*final(s)).last_error@ == content
            },
        forall|r: bool|
            (#[trigger] call_ensures(crate::bridge::capture_overdue, (waited,), r)) ==> (r <==> waited
                > 2_000_000),
{
}

/// A failure about a certificate is one of authentication, one about the protocol a mismatch; any
/// other is an ordinary one.
pub proof fn lemma_failures_have_reasons(causes: Vec<String>, r: &'static str)
    requires
        call_ensures(crate::bridge::failure_reason, (&causes,), r),
    ensures
        (exists|i: int, at: int|
            0 <= i < causes@.len() && #[trigger] says((causes@[i])@, "certificate"@, at)) ==> r@
            == "authentication_failed"@,
        r@ == "authentication_failed"@ || r@ == "protocol_mismatch"@ || r@ == "connection_failed"@,
        causes@.len() == 0 ==> r@ == "connection_failed"@,
{
    reveal_strlit("certificat");
    reveal_strlit("certificate");
    assert("certificat"@.len() == 10 && "certificate"@.len() == 11);
    assert forall|i: int, at: int| 0 <= i < causes@.len() && #[trigger] says(
        (causes@[i])@,
        "certificate"@,
        at,
    ) implies crate::bridge::about_certificates(causes@) by {
        let text = causes@[i]@;
        assert forall|k: int| 0 <= k < 10 implies "certificat"@[k] == "certificate"@[k] by {}
        assert(crate::bridge::occurs_at(text, "certificat"@, at));
        assert(crate::bridge::occurs(causes@[i]@, "certificat"@));
    }
}

/// A text in lower case stands at an index of another one.
pub open spec fn says(text: Seq<char>, part: Seq<char>, at: int) -> bool {
    0 <= at <= text.len() - part.len() && forall|i: int|
        0 <= i < part.len() ==> #[trigger] text[at + i] == part[i]
}

/// What is said of a desktop is its connections, its revision and exactly its outputs in use.
pub proof fn lemma_a_desktop_shows_what_there_is(edges: Vec<EdgeConfig>, revision: String, outputs: Vec<Output>, r: Desktop)
    requires
        call_ensures(Desktop::assemble, (&edges, revision, &outputs), r),
    ensures
        r.edges@ == edges@,
        r.revision == revision,
        forall|i: int|
            0 <= i < outputs@.len() && (#[trigger] outputs@[i]).logical is Some ==> exists|k: int|
                0 <= k < r.outputs@.len() && (#[trigger] r.outputs@[k]).name@ == outputs@[i].name@
                    && Some(r.outputs@[k].logical) == outputs@[i].logical,
        forall|k: int|
            0 <= k < r.outputs@.len() ==> exists|i: int|
                0 <= i < outputs@.len() && (#[trigger] outputs@[i]).name@ == (
                #[trigger] r.outputs@[k]).name@ && outputs@[i].logical == Some(r.outputs@[k].logical),
{
    lemma_active(outputs@);
}

proof fn lemma_active(outputs: Seq<Output>)
    ensures
        ({
            let list = crate::niri::active_of(outputs);
            &&& forall|i: int|
                0 <= i < outputs.len() && (#[trigger] outputs[i]).logical is Some ==> exists|k: int|
                    0 <= k < list.len() && (#[trigger] list[k]).name@ == outputs[i].name@
                        && Some(list[k].logical) == outputs[i].logical
            &&& forall|k: int|
                0 <= k < list.len() ==> exists|i: int|
                    0 <= i < outputs.len() && (#[trigger] outputs[i]).name@ == (
                    #[trigger] list[k]).name@ && outputs[i].logical == Some(list[k].logical)
        }),
    decreases outputs.len(),
{
    if outputs.len() > 0 {
        let less = outputs.drop_last();
        lemma_active(less);
        let before = crate::niri::active_of(less);
        let list = crate::niri::active_of(outputs);
        let last = outputs[outputs.len() - 1];
        assert forall|i: int| 0 <= i < outputs.len() && (#[trigger] outputs[i]).logical is Some implies exists|
            k: int,
        |
            0 <= k < list.len() && (#[trigger] list[k]).name@ == outputs[i].name@ && Some(list[k].logical)
                == outputs[i].logical by {
            if i < less.len() {
                assert(less[i] == outputs[i]);
                let k = choose|k: int|
                    0 <= k < before.len() && (#[trigger] before[k]).name@ == less[i].name@
                        && Some(before[k].logical) == less[i].logical;
                assert(list[k] == before[k]);
            } else {
                assert(list[list.len() - 1].name@ == last.name@);
            }
        }
        assert forall|k: int| 0 <= k < list.len() implies exists|i: int|
            0 <= i < outputs.len() && (#[trigger] outputs[i]).name@ == (#[trigger] list[k]).name@
                && outputs[i].logical == Some(list[k].logical) by {
            if k < before.len() {
                assert(list[k] == before[k]);
                let i = choose|i: int|
                    0 <= i < less.len() && (#[trigger] less[i]).name@ == before[k].name@
                        && less[i].logical == Some(before[k].logical);
                assert(outputs[i] == less[i]);
            } else {
                assert(outputs[outputs.len() - 1].name@ == list[k].name@);
            }
        }
    }
}

/// A layout request names sound connections for both computers and a whole revision of each; an
/// identifier of a change is 32 hexadecimal digits.
pub proof fn lemma_which_layout_requests_are_accepted(layout: LayoutRequest, content: Seq<char>)
    ensures
        forall|r: Result<(), Error>|
            (#[trigger] call_ensures(LayoutRequest::validate, (&layout,), r)) ==> (r is Ok
                <==> super::places::sound_edges(layout.local_edges@) && super::places::sound_edges(
                layout.peer_edges@,
            ) && vstd::utf8::encode_utf8(layout.local_revision@).len() == 64
                && vstd::utf8::encode_utf8(layout.peer_revision@).len() == 64),
        forall|id: &str, r: bool|
            (#[trigger] call_ensures(crate::control::is_transaction, (id,), r)) && id@ == content ==> (r
                <==> content.len() == 32 && forall|i: int|
                0 <= i < content.len() ==> ('0' <= (#[trigger] content[i]) <= '9' || 'a' <= content[i]
                    <= 'f' || 'A' <= content[i] <= 'F')),
{
    super::places::lemma_sound_edges(layout.local_edges@);
    super::places::lemma_sound_edges(layout.peer_edges@);
}

/// The steps of a layout change are accepted with a sound identifier; a proposal also needs sound
/// connections and a whole revision, and error codes are short.
pub proof fn lemma_which_layout_steps_are_accepted(message: LayoutMessage, r: Result<(), Error>)
    requires
        call_ensures(LayoutMessage::validate, (&message,), r),
    ensures
        message matches LayoutMessage::Prepare { id, edges, revision } ==> (r is Ok
            <==> super::places::sound_edges(edges@) && vstd::utf8::encode_utf8(revision@).len() == 64
            && crate::control::transaction_valid(id@)),
        message matches LayoutMessage::Prepared { id, error, .. } ==> (r is Ok
            <==> crate::control::transaction_valid(id@) && (error is Some ==> vstd::utf8::encode_utf8(
            (error->0)@,
        ).len() <= 64)),
        message matches LayoutMessage::Result { id, error, .. } ==> (r is Ok
            <==> crate::control::transaction_valid(id@) && (error is Some ==> vstd::utf8::encode_utf8(
            (error->0)@,
        ).len() <= 64)),
        message matches LayoutMessage::Commit { id } ==> (r is Ok <==> crate::control::transaction_valid(
            id@,
        )),
        message matches LayoutMessage::Abort { id } ==> (r is Ok <==> crate::control::transaction_valid(
            id@,
        )),
{
    if let LayoutMessage::Prepare { id, edges, revision } = message {
        super::places::lemma_sound_edges(edges@);
    }
}

/// Where no connection has an output in use, the first output is started on.
pub proof fn lemma_the_first_output_stands_in(edges: Vec<EdgeConfig>, outputs: Vec<ActiveOutput>, r: Result<String, Error>)
    requires
        call_ensures(crate::bridge::initial_output, (&edges, &outputs), r),
        outputs@.len() > 0,
        forall|i: int|
            0 <= i < edges@.len() ==> !super::crossing::shown(outputs@, (#[trigger] edges@[i]).output@),
    ensures
        r is Ok,
        (r->Ok_0)@ == outputs@[0].name@,
{
    lemma_first_output(edges@, outputs@);
}

proof fn lemma_first_output(edges: Seq<EdgeConfig>, outputs: Seq<ActiveOutput>)
    requires
        outputs.len() > 0,
        forall|i: int|
            0 <= i < edges.len() ==> !super::crossing::shown(outputs, (#[trigger] edges[i]).output@),
    ensures
        crate::bridge::starting_output(edges, outputs) == Some(outputs[0].name@),
    decreases edges.len(),
{
    if edges.len() > 0 {
        let rest = edges.drop_first();
        assert(!super::crossing::shown(outputs, edges[0].output@));
        assert(!crate::niri::in_use(outputs, edges[0].output@));
        assert forall|i: int| 0 <= i < rest.len() implies !super::crossing::shown(
            outputs,
            (#[trigger] rest[i]).output@,
        ) by {
            assert(rest[i] == edges[i + 1]);
        }
        lemma_first_output(rest, outputs);
    }
}

/// A cause that speaks of the protocol, in any of the ways in which it is spoken of, tells of a
/// mismatch, unless certificates are spoken of as well.
pub proof fn lemma_words_for_a_mismatch(causes: Vec<String>, at: int, r: &'static str)
    requires
        call_ensures(crate::bridge::failure_reason, (&causes,), r),
        0 <= at < causes@.len(),
        crate::bridge::occurs(causes@[at]@, "unsupported protocol version"@) || crate::bridge::occurs(
            causes@[at]@,
            "peer protocol negotiation failed"@,
        ) || crate::bridge::occurs(causes@[at]@, "expected protocol hello"@) || crate::bridge::occurs(
            causes@[at]@,
            "peer doesn't support any known protocol"@,
        ) || crate::bridge::occurs(causes@[at]@, "noapplicationprotocol"@),
        forall|i: int|
            0 <= i < causes@.len() ==> !crate::bridge::occurs(
                (#[trigger] causes@[i])@,
                "certificat"@,
            ),
    ensures
        r@ == "protocol_mismatch"@,
{
    assert(crate::bridge::tells_mismatch(causes@[at]@));
    assert(crate::bridge::about_protocol(causes@));
}

} // verus!
