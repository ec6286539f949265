//! What a saved configuration holds, and how a change of it is undone.
use crate::bridge::Connection;
use crate::document::{EdgeEntry, Toml};
use crate::edges::EdgeConfig;
use crate::error::Error;
use crate::geometry::Edge;
use crate::manager::{CertificateInfo, InitializeRequest, LayoutChange, Prepared, SaveRequest, Settings};
use crate::niri::ActiveOutput;
use vstd::prelude::*;

verus! {

/// The entries of a configuration as it loads.
pub open spec fn loaded(text: Seq<char>) -> Map<Seq<char>, Toml> {
    crate::document::parsed(text)->0
}

/// A configuration has a value at a key.
pub open spec fn at(found: Map<Seq<char>, Toml>, key: Seq<char>, value: Toml) -> bool {
    found.contains_key(key) && found[key] == value
}

/// A configuration has a value at a key of a table.
pub open spec fn inside(found: Map<Seq<char>, Toml>, table: Seq<char>, key: Seq<char>, value: Toml) -> bool {
    found.contains_key(table) && match found[table] {
        Toml::Table(inner) => inner.contains_key(key) && inner[key] == value,
        Toml::Inline(inner) => inner.contains_key(key) && inner[key] == value,
        _ => false,
    }
}

/// A configuration has a list of texts at a key.
pub open spec fn lists(found: Map<Seq<char>, Toml>, key: Seq<char>, texts: Seq<String>) -> bool {
    found.contains_key(key) && match found[key] {
        Toml::Texts(list) => list.len() == texts.len() && forall|i: int|
            0 <= i < texts.len() ==> #[trigger] list[i] == texts[i]@,
        _ => false,
    }
}

/// Two configurations agree at a key.
pub open spec fn agree(a: Map<Seq<char>, Toml>, b: Map<Seq<char>, Toml>, key: Seq<char>) -> bool {
    a.contains_key(key) == b.contains_key(key) && (a.contains_key(key) ==> a[key] == b[key])
}

/// A configuration holds some settings.
pub open spec fn holds(found: Map<Seq<char>, Toml>, settings: Settings) -> bool {
    &&& at(found, "native_touchpads"@, Toml::Flag(settings.native_touchpads))
    &&& lists(found, "activity_devices"@, settings.activity_devices@)
    &&& settings.connection matches Connection::Connect { address } ==> inside(
        found,
        "connection"@,
        "mode"@,
        Toml::Text("connect"@),
    ) && inside(found, "connection"@, "address"@, Toml::Text(address@))
    &&& settings.connection matches Connection::Listen { address } ==> inside(
        found,
        "connection"@,
        "mode"@,
        Toml::Text("listen"@),
    ) && inside(found, "connection"@, "address"@, Toml::Text(address@))
}

/// A table of a configuration stands for a connection.
pub open spec fn stands_for(table: Map<Seq<char>, Toml>, entry: EdgeEntry) -> bool {
    &&& at(table, "id"@, Toml::Text(entry.id@))
    &&& at(table, "output"@, Toml::Text(entry.output@))
    &&& inside(table, "boundary"@, "edge"@, Toml::Text(entry.edge@))
    &&& inside(table, "boundary"@, "start"@, Toml::Number(entry.start@))
    &&& inside(table, "boundary"@, "end"@, Toml::Number(entry.end@))
}

/// A configuration lists some connections, in order, and none in the older form.
pub open spec fn connects(found: Map<Seq<char>, Toml>, list: Seq<EdgeEntry>) -> bool {
    &&& !found.contains_key("edge"@)
    &&& list.len() == 0 ==> !found.contains_key("edges"@)
    &&& list.len() > 0 ==> found.contains_key("edges"@) && match found["edges"@] {
        Toml::Tables(tables) => tables.len() == list.len() && forall|i: int|
            0 <= i < list.len() ==> stands_for(#[trigger] tables[i], list[i]),
        _ => false,
    }
}

proof fn lemma_names()
    ensures
        "native_touchpads"@.len() == 16,
        "activity_devices"@.len() == 16,
        "connection"@.len() == 10,
        "mode"@.len() == 4,
        "address"@.len() == 7,
        "native_touchpads"@ != "activity_devices"@,
        "edge"@.len() == 4,
        "edges"@.len() == 5,
        "id"@.len() == 2,
        "output"@.len() == 6,
        "boundary"@.len() == 8,
        "start"@.len() == 5,
        "end"@.len() == 3,
        "peer_name"@.len() == 9,
        "peer_certificate"@.len() == 16,
        "peer_certificate"@ != "native_touchpads"@,
        "peer_certificate"@ != "activity_devices"@,
        "certificate"@.len() == 11,
        "private_key"@.len() == 11,
        "certificate"@ != "private_key"@,
{
    reveal_strlit("native_touchpads");
    reveal_strlit("activity_devices");
    reveal_strlit("connection");
    reveal_strlit("mode");
    reveal_strlit("address");
    reveal_strlit("edge");
    reveal_strlit("edges");
    reveal_strlit("id");
    reveal_strlit("output");
    reveal_strlit("boundary");
    reveal_strlit("start");
    reveal_strlit("end");
    reveal_strlit("peer_name");
    reveal_strlit("peer_certificate");
    reveal_strlit("certificate");
    reveal_strlit("private_key");
    assert("native_touchpads"@[0] == 'n' && "activity_devices"@[0] == 'a' && "peer_certificate"@[0]
        == 'p');
    assert("certificate"@[0] == 'c' && "private_key"@[0] == 'p');
}

/// Saved settings are the ones that were given, each under its key; every other entry is as it was,
/// and so is every other entry of the connection.
pub proof fn lemma_saved_settings_load_again(before: Seq<char>, settings: Settings)
    ensures
        forall|text: &str, r: Result<String, Error>|
            (#[trigger] call_ensures(crate::document::edit_settings, (text, &settings), r)) && text@
                == before && r is Ok ==> {
                &&& crate::document::parsed((r->Ok_0)@) is Some
                &&& holds(loaded((r->Ok_0)@), settings)
                &&& forall|key: Seq<char>|
                    key != "connection"@ && key != "native_touchpads"@ && key != "activity_devices"@
                        ==> #[trigger] agree(loaded((r->Ok_0)@), loaded(before), key)
                &&& forall|key: Seq<char>, value: Toml|
                    key != "mode"@ && key != "address"@ && loaded(before).contains_key("connection"@)
                        ==> (#[trigger] inside(loaded((r->Ok_0)@), "connection"@, key, value) <==> inside(
                        loaded(before),
                        "connection"@,
                        key,
                        value,
                    ))
            },
{
    lemma_names();
    if crate::document::parsed(before) is Some && crate::document::holds_keys(
        loaded(before),
        "connection"@,
    ) {
        lemma_settings(loaded(before), settings);
    }
}

proof fn lemma_settings(found: Map<Seq<char>, Toml>, settings: Settings)
    requires
        crate::document::holds_keys(found, "connection"@),
    ensures
        holds(crate::document::with_settings(found, settings), settings),
        forall|key: Seq<char>|
            key != "connection"@ && key != "native_touchpads"@ && key != "activity_devices"@
                ==> #[trigger] agree(crate::document::with_settings(found, settings), found, key),
        forall|key: Seq<char>, value: Toml|
            key != "mode"@ && key != "address"@ && found.contains_key("connection"@) ==> (#[trigger] inside(
                crate::document::with_settings(found, settings),
                "connection"@,
                key,
                value,
            ) <==> inside(found, "connection"@, key, value)),
{
    lemma_names();
    let after = crate::document::with_settings(found, settings);
    let list = crate::document::text_views(settings.activity_devices@);
    assert(after["activity_devices"@] == Toml::Texts(list));
    assert forall|i: int| 0 <= i < settings.activity_devices@.len() implies #[trigger] list[i]
        == settings.activity_devices@[i]@ by {}
}

/// Saved connections are the ones that were given, in their order and field by field; every other
/// entry is as it was.
pub proof fn lemma_saved_connections_load_again(before: Seq<char>, list: Vec<EdgeEntry>)
    ensures
        forall|text: &str, r: Result<String, Error>|
            (#[trigger] call_ensures(crate::document::edit_edges, (text, &list), r)) && text@ == before
                && r is Ok ==> {
                &&& crate::document::parsed((r->Ok_0)@) is Some
                &&& connects(loaded((r->Ok_0)@), list@)
                &&& forall|key: Seq<char>|
                    key != "edge"@ && key != "edges"@ ==> #[trigger] agree(
                        loaded((r->Ok_0)@),
                        loaded(before),
                        key,
                    )
            },
{
    if crate::document::parsed(before) is Some {
        lemma_connections(loaded(before), list@);
    }
}

proof fn lemma_connections(found: Map<Seq<char>, Toml>, list: Seq<EdgeEntry>)
    ensures
        connects(crate::document::with_edges(found, list), list),
        forall|key: Seq<char>|
            key != "edge"@ && key != "edges"@ ==> #[trigger] agree(
                crate::document::with_edges(found, list),
                found,
                key,
            ),
{
    lemma_names();
    let tables = crate::document::edge_tables(list);
    assert forall|i: int| 0 <= i < list.len() implies stands_for(#[trigger] tables[i], list[i]) by {
        assert(tables[i] == crate::document::edge_table(list[i]));
    }
}

/// A saved pairing names the computer and its certificate; every other entry is as it was.
pub proof fn lemma_a_saved_pairing_loads_again(before: Seq<char>, name: Seq<char>)
    ensures
        forall|text: &str, peer: &str, r: Result<String, Error>|
            (#[trigger] call_ensures(crate::document::edit_peer, (text, peer), r)) && text@ == before
                && peer@ == name && r is Ok ==> {
                &&& crate::document::parsed((r->Ok_0)@) is Some
                &&& at(loaded((r->Ok_0)@), "peer_name"@, Toml::Text(name))
                &&& at(loaded((r->Ok_0)@), "peer_certificate"@, Toml::Text("peer.pem"@))
                &&& forall|key: Seq<char>|
                    key != "peer_name"@ && key != "peer_certificate"@ ==> #[trigger] agree(
                        loaded((r->Ok_0)@),
                        loaded(before),
                        key,
                    )
            },
{
    lemma_names();
}

/// A new configuration holds the settings and connections that were given, the files of this
/// computer's identity, and no pairing yet.
pub proof fn lemma_a_new_configuration_is_complete(
    present: bool,
    request: InitializeRequest,
    list: Vec<EdgeEntry>,
    r: Result<String, Error>,
)
    requires
        call_ensures(crate::manager::initialize, (present, &request, &list), r),
        r is Ok,
    ensures
        !present,
        holds(loaded((r->Ok_0)@), request.settings),
        connects(loaded((r->Ok_0)@), list@),
        at(loaded((r->Ok_0)@), "certificate"@, Toml::Text("identity.pem"@)),
        at(loaded((r->Ok_0)@), "private_key"@, Toml::Text("identity.key.pem"@)),
        at(loaded((r->Ok_0)@), "peer_certificate"@, Toml::Text("peer.pem"@)),
        at(loaded((r->Ok_0)@), "peer_name"@, Toml::Text("unpaired"@)),
{
    lemma_names();
    let start = crate::document::initial_entries();
    assert(!start.contains_key("connection"@));
    lemma_settings(start, request.settings);
    let middle = crate::document::with_settings(start, request.settings);
    lemma_connections(middle, list@);
    let after = crate::document::with_edges(middle, list@);
    assert(agree(after, middle, "connection"@));
    assert(agree(after, middle, "native_touchpads"@));
    assert(agree(after, middle, "activity_devices"@));
    assert(agree(middle, start, "certificate"@) && agree(after, middle, "certificate"@));
    assert(agree(middle, start, "private_key"@) && agree(after, middle, "private_key"@));
    assert(agree(middle, start, "peer_certificate"@) && agree(after, middle, "peer_certificate"@));
    assert(agree(middle, start, "peer_name"@) && agree(after, middle, "peer_name"@));
}

/// A change is staged, not made: it remembers the text before, whose digest was expected, and the
/// digest of the text after.
pub open spec fn prepares(prepared: Prepared, before: Seq<char>, expected: Seq<char>) -> bool {
    &&& prepared.before@ == before
    &&& prepared.before_revision@ == expected
    &&& expected == crate::hex::hex_of(
        crate::manager::sha256(vstd::utf8::encode_utf8(before)),
    )
    &&& prepared.after_revision@ == crate::hex::hex_of(
        crate::manager::sha256(vstd::utf8::encode_utf8(prepared.next@)),
    )
    &&& !prepared.committed
    &&& !prepared.finished
    &&& crate::document::parsed(before) is Some
    &&& crate::document::parsed(prepared.next@) is Some
    &&& crate::comments::keeps_comments(before, prepared.next@)
}

/// Saving prepares exactly the settings that were asked for, and only on the revision that they
/// are based on.
pub proof fn lemma_saving_prepares_what_was_asked(before: String, request: SaveRequest, r: Result<Prepared, Error>)
    requires
        call_ensures(crate::manager::save, (before, &request), r),
    ensures
        r is Ok ==> prepares(r->Ok_0, before@, request.revision@) && holds(
            loaded((r->Ok_0).next@),
            request.settings,
        ) && forall|key: Seq<char>|
            key != "connection"@ && key != "native_touchpads"@ && key != "activity_devices"@
                ==> #[trigger] agree(loaded((r->Ok_0).next@), loaded(before@), key),
        request.revision@ != crate::hex::hex_of(
            crate::manager::sha256(vstd::utf8::encode_utf8(before@)),
        ) ==> r is Err,
{
    if r is Ok {
        lemma_settings(loaded(before@), request.settings);
    }
}

/// A new layout prepares exactly the connections that were asked for, and relies on their outputs.
pub proof fn lemma_a_new_layout_prepares_what_was_asked(
    before: String,
    change: LayoutChange,
    outputs: Vec<ActiveOutput>,
    expected: Seq<char>,
)
    ensures
        forall|revision: &str, r: Result<Prepared, Error>|
            (#[trigger] call_ensures(
                crate::manager::prepare_edge,
                (before, revision, &change, &outputs),
                r,
            )) && revision@ == expected && change.wf() && r is Ok ==> {
                let prepared = r->Ok_0;
                &&& prepares(prepared, before@, expected)
                &&& connects(loaded(prepared.next@), change.entries@)
                &&& forall|key: Seq<char>|
                    key != "edge"@ && key != "edges"@ ==> #[trigger] agree(
                        loaded(prepared.next@),
                        loaded(before@),
                        key,
                    )
                &&& prepared.target_outputs@.len() == change.edges@.len()
                &&& forall|i: int|
                    0 <= i < change.edges@.len() ==> (#[trigger] prepared.target_outputs@[i])@
                        == change.edges@[i].output@ && change.wide@[i] && super::crossing::shown(
                        outputs@,
                        change.edges@[i].output@,
                    )
            },
{
    lemma_new_edges(change.edges@, outputs@, change.wide@, 0);
    if crate::document::parsed(before@) is Some {
        lemma_connections(loaded(before@), change.entries@);
    }
}

proof fn lemma_new_edges(edges: Seq<EdgeConfig>, outputs: Seq<ActiveOutput>, wide: Seq<bool>, from: int)
    requires
        0 <= from,
    ensures
        crate::manager::first_new_edge_problem(edges, outputs, wide, from) is None ==> forall|i: int|
            from <= i < edges.len() ==> (wide[i] && super::crossing::shown(
                outputs,
                (#[trigger] edges[i]).output@,
            )),
    decreases edges.len() - from,
{
    if from < edges.len() {
        lemma_new_edges(edges, outputs, wide, from + 1);
    }
}

/// Pairing prepares the name of the certificate that was shown, and refuses another one and this
/// computer's own.
pub proof fn lemma_pairing_prepares_what_was_shown(
    before: String,
    candidate: CertificateInfo,
    expected: Seq<char>,
    seen: Seq<char>,
    mine: Seq<char>,
)
    ensures
        forall|revision: &str, shown: &str, own: &str, r: Result<Prepared, Error>|
            (#[trigger] call_ensures(
                crate::manager::import_peer,
                (before, revision, shown, &candidate, own),
                r,
            )) && revision@ == expected && shown@ == seen && own@ == mine ==> {
                &&& r is Ok ==> {
                    &&& candidate.fingerprint@ == seen
                    &&& candidate.fingerprint@ != mine
                    &&& prepares(r->Ok_0, before@, expected)
                    &&& at(loaded((r->Ok_0).next@), "peer_name"@, Toml::Text(candidate.name@))
                    &&& at(loaded((r->Ok_0).next@), "peer_certificate"@, Toml::Text("peer.pem"@))
                    &&& forall|key: Seq<char>|
                        key != "peer_name"@ && key != "peer_certificate"@ ==> #[trigger] agree(
                            loaded((r->Ok_0).next@),
                            loaded(before@),
                            key,
                        )
                }
                &&& candidate.fingerprint@ != seen || candidate.fingerprint@ == mine ==> r is Err
            },
{
    lemma_names();
}

/// A change is made only while its outputs are in use and the file is the one it is based on; it is
/// put back exactly while it is made, not confirmed, and the file is the one it made.
pub proof fn lemma_changes_are_made_and_undone(
    prepared: Prepared,
    outputs: Vec<ActiveOutput>,
    on_disk: Seq<char>,
)
    ensures
        forall|current: &str, r: Result<(), Error>|
            (#[trigger] call_ensures(Prepared::check_commit, (&prepared, &outputs, current), r))
                && current@ == on_disk ==> (r is Ok <==> on_disk == prepared.before_revision@ && forall|
                i: int,
            |
                0 <= i < prepared.target_outputs@.len() ==> super::crossing::shown(
                    outputs@,
                    (#[trigger] prepared.target_outputs@[i])@,
                )),
        forall|current: &str, r: Option<&String>|
            (#[trigger] call_ensures(Prepared::restore, (&prepared, Some(current)), r)) && current@
                == on_disk ==> {
                &&& r is Some <==> prepared.committed && !prepared.finished && on_disk
                    == prepared.after_revision@
                &&& r is Some ==> (r->0)@ == prepared.before@
            },
        forall|r: Option<&String>|
            (#[trigger] call_ensures(Prepared::restore, (&prepared, None::<&str>), r)) ==> r is None,
        forall|p: &mut Prepared, r: ()|
            (#[trigger] call_ensures(Prepared::commit, (p,), r)) ==> (*final(p)).committed && (
            *final(p)).finished == (*p).finished && (*final(p)).before == (*p).before,
        forall|p: &mut Prepared, r: ()|
            (#[trigger] call_ensures(Prepared::finish, (p,), r)) ==> (*final(p)).finished && (
            *final(p)).committed == (*p).committed && (*final(p)).before == (*p).before,
{
    assert forall|name: Seq<char>| #[trigger] crate::niri::in_use(outputs@, name)
        == super::crossing::shown(outputs@, name) by {}
}

/// A revision is the digest of the text, in hexadecimal digits.
pub proof fn lemma_a_revision_is_a_digest(content: Seq<u8>, text: Seq<char>, expected: Seq<char>)
    ensures
        forall|bytes: &[u8], r: String|
            (#[trigger] call_ensures(crate::manager::digest, (bytes,), r)) && bytes@ == content ==> r@.len()
                == 64 && super::plain::spells(r@, crate::manager::sha256(content)),
        forall|t: &str, e: &str, r: Result<(), Error>|
            (#[trigger] call_ensures(crate::manager::check_revision, (t, e), r)) && t@ == text && e@
                == expected ==> (r is Ok <==> expected == crate::hex::hex_of(
                crate::manager::sha256(vstd::utf8::encode_utf8(text)),
            )),
{
    assert forall|bytes: &[u8], r: String|
        (#[trigger] call_ensures(crate::manager::digest, (bytes,), r)) && bytes@ == content implies super::plain::spells(
        r@,
        crate::manager::sha256(content),
    ) by {
        super::plain::lemma_hex_spells(crate::manager::sha256(content));
    }
}

/// A certificate is imported only if it is the one that was shown and not this computer's own; a
/// file that is too large or holds a private key is no certificate.
pub proof fn lemma_which_certificates_are_taken(seen: Seq<char>, offered: Seq<char>, mine: Seq<char>, size: u64)
    ensures
        forall|shown: &str, candidate: &str, own: &str, r: Result<(), Error>|
            (#[trigger] call_ensures(crate::manager::check_import, (shown, candidate, own), r))
                && shown@ == seen && candidate@ == offered && own@ == mine ==> (r is Ok <==> offered
                == seen && offered != mine),
        forall|text: &str, r: Result<(), Error>|
            (#[trigger] call_ensures(crate::manager::check_certificate_file, (size, text), r)) && text@
                == offered ==> (r is Ok ==> size <= 65536 && !super::plain::occurs_in(
                offered,
                "PRIVATE KEY"@,
            )),
{
    assert forall|text: Seq<char>, part: Seq<char>| super::plain::occurs_in(text, part) implies #[trigger]
        crate::text::contains_text(text, part) by {
        let at = choose|at: int|
            0 <= at <= text.len() - part.len() && #[trigger] text.subrange(at, at + part.len()) == part;
        assert(text.subrange(at, at + part.len()) =~= part);
    }
}

/// A failure is reduced to the first of its causes that is a known code, and never to anything
/// else that was said.
pub proof fn lemma_failures_become_codes(causes: Vec<String>, r: &'static str)
    requires
        call_ensures(crate::manager::error_code, (&causes,), r),
    ensures
        forall|i: int|
            0 <= i < causes@.len() && crate::manager::known_code((#[trigger] causes@[i])@) && (forall|j: int|
                0 <= j < i ==> !crate::manager::known_code((#[trigger] causes@[j])@)) ==> r@
                == causes@[i]@,
        (forall|j: int| 0 <= j < causes@.len() ==> !crate::manager::known_code((#[trigger] causes@[j])@))
            ==> r@ == "operation_failed"@,
{
    lemma_codes(causes@);
}

proof fn lemma_codes(causes: Seq<String>)
    ensures
        forall|i: int|
            0 <= i < causes.len() && crate::manager::known_code((#[trigger] causes[i])@) && (forall|j: int|
                0 <= j < i ==> !crate::manager::known_code((#[trigger] causes[j])@))
                ==> crate::manager::code_for(causes) == causes[i]@,
        (forall|j: int| 0 <= j < causes.len() ==> !crate::manager::known_code((#[trigger] causes[j])@))
            ==> crate::manager::code_for(causes) == "operation_failed"@,
    decreases causes.len(),
{
    if causes.len() > 0 {
        let rest = causes.drop_first();
        lemma_codes(rest);
        assert forall|i: int| 0 <= i < rest.len() implies #[trigger] rest[i] == causes[i + 1] by {}
        assert forall|i: int|
            0 <= i < causes.len() && crate::manager::known_code((#[trigger] causes[i])@) && (forall|j: int|
                0 <= j < i ==> !crate::manager::known_code((#[trigger] causes[j])@)) implies
            crate::manager::code_for(causes) == causes[i]@ by {
            if i > 0 {
                assert(!crate::manager::known_code(causes[0]@));
                assert(rest[i - 1] == causes[i]);
                assert forall|j: int| 0 <= j < i - 1 implies !crate::manager::known_code(
                    (#[trigger] rest[j])@,
                ) by {
                    assert(!crate::manager::known_code(causes[j + 1]@));
                }
            }
        }
        if forall|j: int| 0 <= j < causes.len() ==> !crate::manager::known_code((#[trigger] causes[j])@) {
            assert(!crate::manager::known_code(causes[0]@));
            assert forall|j: int| 0 <= j < rest.len() implies !crate::manager::known_code(
                (#[trigger] rest[j])@,
            ) by {
                assert(!crate::manager::known_code(causes[j + 1]@));
            }
        }
    }
}

/// The length of an edge is that of its output along it.
pub proof fn lemma_the_extent_of_an_edge(edge: Edge, output: ActiveOutput, r: u32)
    requires
        call_ensures(crate::manager::extent, (edge, &output), r),
    ensures
        edge is Top || edge is Bottom ==> r == output.logical.width,
        edge is Left || edge is Right ==> r == output.logical.height,
{
}

/// A fraction is written with one digit, a point and at least one more digit; a negative zero is the
/// only other form.
pub proof fn lemma_how_fractions_are_written(content: Seq<char>)
    ensures
        forall|text: &str, r: bool|
            (#[trigger] call_ensures(crate::document::is_fraction, (text,), r)) && text@ == content ==> (r
                <==> content == "-0.0"@ || (content.len() >= 3 && '0' <= content[0] <= '9' && content[1]
                == '.' && forall|i: int| 2 <= i < content.len() ==> '0' <= #[trigger] content[i] <= '9')),
{
    let rest = content.skip(2);
    if content.len() >= 2 {
        assert forall|i: int| 2 <= i < content.len() implies #[trigger] content[i] == rest[i - 2] by {}
        assert forall|i: int| 0 <= i < rest.len() implies #[trigger] rest[i] == content[i + 2] by {}
        if crate::text::all_digits(rest) {
            assert forall|i: int| 2 <= i < content.len() implies '0' <= #[trigger] content[i] <= '9' by {
                assert('0' <= rest[i - 2] <= '9');
            }
        }
        if forall|i: int| 2 <= i < content.len() ==> '0' <= #[trigger] content[i] <= '9' {
            assert forall|i: int| 0 <= i < rest.len() implies '0' <= #[trigger] rest[i] <= '9' by {
                assert('0' <= content[i + 2] <= '9');
            }
        }
    }
}

} // verus!
