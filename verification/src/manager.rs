//! Decisions of the configuration operations that the desktop interface and paired layout updates
//! share.
use crate::bridge::Connection;
use crate::edges::EdgeConfig;
use crate::error::Error;
use crate::geometry::Edge;
use crate::hex::encode;
use crate::niri::{find_output, ActiveOutput};
use crate::text::{
    byte_len, characters, contains, from_characters, is_white_space, parse_number, same_characters,
    same_text, split, trim,
};
use vstd::prelude::*;

pub mod shown;

verus! {

pub const MAX_ADDRESS_BYTES: usize = 300;

pub const MAX_CERTIFICATE_BYTES: u64 = 65536;

/// The longest name of a computer.
pub const MAX_NAME_BYTES: usize = 253;

/// The largest input of a digest.
pub const MAX_DIGEST_INPUT: u64 = 0x1fff_ffff_ffff_ffff;

/// The 32 bytes of the SHA-256 digest of some bytes.
pub uninterp spec fn sha256(bytes: Seq<u8>) -> Seq<u8>;

/// Computes `ring::digest::digest` with `SHA256`: 32 bytes that depend on the input alone. It
/// panics on an input whose length in bits does not fit in 64 bits.
#[verifier::external_body]
fn sha256_digest(bytes: &[u8]) -> (r: Vec<u8>)
    requires
        bytes@.len() <= MAX_DIGEST_INPUT,
    ensures
        r@ == sha256(bytes@),
        r@.len() == 32,
{
    ring::digest::digest(&ring::digest::SHA256, bytes).as_ref().to_vec()
}

/// The SHA-256 digest of some bytes in hexadecimal digits.
pub fn digest(bytes: &[u8]) -> (r: String)
    requires
        bytes@.len() <= MAX_DIGEST_INPUT,
    ensures
        r@ == crate::hex::hex_of(sha256(bytes@)),
        r@.len() == 64,
{
    encode(sha256_digest(bytes).as_slice())
}

/// What can be changed in the settings dialog.
pub struct Settings {
    pub connection: Connection,
    pub activity_devices: Vec<String>,
    pub native_touchpads: bool,
}

/// New settings, based on a revision of the configuration.
pub struct SaveRequest {
    pub revision: String,
    pub settings: Settings,
}

/// What a new configuration starts with.
pub struct InitializeRequest {
    pub settings: Settings,
    pub edges: Vec<EdgeConfig>,
}

/// What is shown of a certificate.
pub struct CertificateInfo {
    pub name: String,
    pub fingerprint: String,
    pub expires: String,
    pub pem: String,
}

/// The components of a path: what stands between slashes, without empty pieces and single dots.
pub open spec fn components(path: Seq<char>) -> Seq<Seq<char>> {
    crate::text::pieces(path, '/', '/').filter(
        |piece: Seq<char>| piece.len() > 0 && piece != seq!['.'],
    )
}

/// An absolute path into the directory of input devices.
pub open spec fn input_path(path: Seq<char>) -> bool {
    &&& path.len() > 0
    &&& path[0] == '/'
    &&& components(path).len() >= 2
    &&& components(path)[0] == "dev"@
    &&& components(path)[1] == "input"@
}

fn path_components(path: &Vec<char>) -> (r: Vec<Vec<char>>)
    ensures
        crate::text::views(r@) == components(path@),
{
    let list = split(path, '/', '/');
    let ghost keep = |piece: Seq<char>| piece.len() > 0 && piece != seq!['.'];
    let ghost all = crate::text::views(list@);
    let mut kept: Vec<Vec<char>> = Vec::new();
    proof {
        reveal(Seq::filter);
        assert(crate::text::views(kept@) =~= all.take(0).filter(keep));
    }
    for i in 0..list.len()
        invariant
            keep == |piece: Seq<char>| piece.len() > 0 && piece != seq!['.'],
            all == crate::text::views(list@),
            crate::text::views(kept@) == all.take(i as int).filter(keep),
    {
        let piece = &list[i];
        let ghost before = kept@;
        proof {
            reveal(Seq::filter);
            assert(all.take(i + 1).drop_last() == all.take(i as int));
            assert(all[i as int] == piece@);
            assert(piece@.len() == 1 && piece@[0] == '.' ==> piece@ =~= seq!['.']);
        }
        if piece.len() > 0 && !(piece.len() == 1 && piece[0] == '.') {
            let mut copy: Vec<char> = Vec::new();
            for j in 0..piece.len()
                invariant
                    copy@ == piece@.take(j as int),
            {
                copy.push(piece[j]);
                assert(piece@.take(j + 1) == piece@.take(j as int).push(piece@[j as int]));
            }
            assert(piece@.take(piece@.len() as int) == piece@);
            kept.push(copy);
            assert(crate::text::views(kept@) =~= crate::text::views(before).push(piece@));
        }
    }
    assert(all.take(all.len() as int) == all);
    kept
}

pub fn is_input_path(path: &str) -> (r: bool)
    ensures
        r == input_path(path@),
{
    let list = characters(path);
    if list.len() == 0 || list[0] != '/' {
        return false;
    }
    let parts = path_components(&list);
    assert(crate::text::views(parts@).len() == parts@.len());
    if parts.len() < 2 {
        return false;
    }
    assert(crate::text::views(parts@)[0] == parts@[0]@);
    assert(crate::text::views(parts@)[1] == parts@[1]@);
    same_characters(&parts[0], &characters("dev")) && same_characters(
        &parts[1],
        &characters("input"),
    )
}

/// What stands behind the last colon of a text.
pub open spec fn after_colon(text: Seq<char>) -> Option<Seq<char>>
    decreases text.len(),
{
    if text.len() == 0 {
        None
    } else if text.last() == ':' {
        Some(Seq::empty())
    } else {
        match after_colon(text.drop_last()) {
            Some(rest) => Some(rest.push(text.last())),
            None => None,
        }
    }
}

/// An address that a connection can have: short, without white space, and ending in a port.
pub open spec fn address_valid(address: Seq<char>) -> bool {
    &&& crate::text::byte_count(address) <= MAX_ADDRESS_BYTES
    &&& forall|i: int| 0 <= i < address.len() ==> !crate::text::white_space(#[trigger] address[i])
    &&& match after_colon(address) {
        Some(port) => match crate::text::number_of(port) {
            Some(number) => 0 < number <= 65535,
            None => false,
        },
        None => false,
    }
}

fn port_text(list: &Vec<char>) -> (r: Option<Vec<char>>)
    ensures
        match after_colon(list@) {
            Some(port) => r matches Some(found) && found@ == port,
            None => r is None,
        },
{
    let mut found: Option<Vec<char>> = None;
    for i in 0..list.len()
        invariant
            match after_colon(list@.take(i as int)) {
                Some(port) => found matches Some(text) && text@ == port,
                None => found is None,
            },
    {
        assert(list@.take(i + 1).drop_last() == list@.take(i as int));
        let c: char = list[i];
        if c == ':' {
            let empty: Vec<char> = Vec::new();
            assert(empty@ =~= Seq::<char>::empty());
            found = Some(empty);
        } else {
            match found {
                Some(text) => {
                    let mut longer = text;
                    longer.push(c);
                    found = Some(longer);
                },
                None => {
                    found = None;
                },
            }
        }
    }
    assert(list@.take(list@.len() as int) == list@);
    found
}

pub fn is_address(address: &str) -> (r: bool)
    ensures
        r == address_valid(address@),
{
    if byte_len(address) > MAX_ADDRESS_BYTES {
        return false;
    }
    let list = characters(address);
    for i in 0..list.len()
        invariant
            list@ == address@,
            forall|j: int| 0 <= j < i ==> !crate::text::white_space(#[trigger] address@[j]),
    {
        if is_white_space(list[i]) {
            assert(crate::text::white_space(address@[i as int]));
            return false;
        }
    }
    match port_text(&list) {
        None => false,
        Some(port) => match parse_number(&port, 65535) {
            Some(number) => number > 0,
            None => false,
        },
    }
}

impl Connection {
    pub open spec fn target(self) -> Seq<char> {
        match self {
            Connection::Listen { address } => address@,
            Connection::Connect { address } => address@,
        }
    }

    pub open spec fn mode_name(self) -> Seq<char> {
        match self {
            Connection::Listen { .. } => "listen"@,
            Connection::Connect { .. } => "connect"@,
        }
    }

    pub fn address(&self) -> (r: &String)
        ensures
            r@ == self.target(),
    {
        match self {
            Connection::Listen { address } => address,
            Connection::Connect { address } => address,
        }
    }

    pub fn mode(&self) -> (r: &'static str)
        ensures
            r@ == self.mode_name(),
    {
        match self {
            Connection::Listen { .. } => "listen",
            Connection::Connect { .. } => "connect",
        }
    }
}

impl Settings {
    /// The first reason, in the order of the checks, for which settings are refused.
    pub open spec fn problem(self) -> Option<Error> {
        if !(1 <= self.activity_devices@.len() <= crate::bridge::MAX_ACTIVITY_DEVICES) {
            Some(Error::InputSelectionEmpty)
        } else if exists|i: int|
            0 <= i < self.activity_devices@.len() && !input_path(
                (#[trigger] self.activity_devices@[i])@,
            ) {
            Some(Error::InputPathInvalid)
        } else if !address_valid(self.connection.target()) {
            Some(Error::AddressInvalid)
        } else {
            None
        }
    }
}

pub fn check_settings(settings: &Settings) -> (r: Result<(), Error>)
    ensures
        match settings.problem() {
            Some(e) => r == Err::<(), Error>(e),
            None => r is Ok,
        },
{
    if settings.activity_devices.len() < 1 || settings.activity_devices.len()
        > crate::bridge::MAX_ACTIVITY_DEVICES {
        return Err(Error::InputSelectionEmpty);
    }
    for i in 0..settings.activity_devices.len()
        invariant
            1 <= settings.activity_devices@.len() <= crate::bridge::MAX_ACTIVITY_DEVICES,
            forall|j: int|
                0 <= j < i ==> input_path((#[trigger] settings.activity_devices@[j])@),
    {
        if !is_input_path(settings.activity_devices[i].as_str()) {
            assert(!input_path(settings.activity_devices@[i as int]@));
            return Err(Error::InputPathInvalid);
        }
    }
    if is_address(settings.connection.address().as_str()) {
        Ok(())
    } else {
        Err(Error::AddressInvalid)
    }
}

/// The codes that are reported as they are.
pub open spec fn known_code(text: Seq<char>) -> bool {
    ||| text == "certificate_invalid"@
    ||| text == "certificate_changed"@
    ||| text == "private_key_selected"@
    ||| text == "certificate_name_ambiguous"@
    ||| text == "config_invalid"@
    ||| text == "settings_permissions"@
    ||| text == "settings_busy"@
    ||| text == "settings_conflict"@
    ||| text == "settings_write_failed"@
    ||| text == "layout_invalid"@
    ||| text == "output_unavailable"@
    ||| text == "input_selection_empty"@
    ||| text == "input_path_invalid"@
    ||| text == "address_invalid"@
    ||| text == "pair_same_device"@
    ||| text == "config_exists"@
    ||| text == "session_locked"@
    ||| text == "peer_offline"@
    ||| text == "layout_unconfirmed"@
}

fn code_of(text: &str) -> (r: Option<&'static str>)
    ensures
        match r {
            Some(code) => known_code(text@) && code@ == text@,
            None => !known_code(text@),
        },
{
    if same_text(text, "certificate_invalid") {
        Some("certificate_invalid")
    } else if same_text(text, "certificate_changed") {
        Some("certificate_changed")
    } else if same_text(text, "private_key_selected") {
        Some("private_key_selected")
    } else if same_text(text, "certificate_name_ambiguous") {
        Some("certificate_name_ambiguous")
    } else if same_text(text, "config_invalid") {
        Some("config_invalid")
    } else if same_text(text, "settings_permissions") {
        Some("settings_permissions")
    } else if same_text(text, "settings_busy") {
        Some("settings_busy")
    } else if same_text(text, "settings_conflict") {
        Some("settings_conflict")
    } else if same_text(text, "settings_write_failed") {
        Some("settings_write_failed")
    } else if same_text(text, "layout_invalid") {
        Some("layout_invalid")
    } else if same_text(text, "output_unavailable") {
        Some("output_unavailable")
    } else if same_text(text, "input_selection_empty") {
        Some("input_selection_empty")
    } else if same_text(text, "input_path_invalid") {
        Some("input_path_invalid")
    } else if same_text(text, "address_invalid") {
        Some("address_invalid")
    } else if same_text(text, "pair_same_device") {
        Some("pair_same_device")
    } else if same_text(text, "config_exists") {
        Some("config_exists")
    } else if same_text(text, "session_locked") {
        Some("session_locked")
    } else if same_text(text, "peer_offline") {
        Some("peer_offline")
    } else if same_text(text, "layout_unconfirmed") {
        Some("layout_unconfirmed")
    } else {
        None
    }
}

/// The code for a chain of causes: the first cause that is one.
pub open spec fn code_for(causes: Seq<String>) -> Seq<char>
    decreases causes.len(),
{
    if causes.len() == 0 {
        "operation_failed"@
    } else if known_code(causes[0]@) {
        causes[0]@
    } else {
        code_for(causes.drop_first())
    }
}

/// Reduces a failure to a code that can be shown without giving details away.
pub fn error_code(causes: &Vec<String>) -> (r: &'static str)
    ensures
        r@ == code_for(causes@),
{
    assert(causes@.skip(0) == causes@);
    for i in 0..causes.len()
        invariant
            code_for(causes@) == code_for(causes@.skip(i as int)),
    {
        assert(causes@.skip(i as int).drop_first() == causes@.skip(i + 1));
        match code_of(causes[i].as_str()) {
            Some(code) => return code,
            None => {},
        }
    }
    "operation_failed"
}

/// Along a screen edge, the length of the output.
pub fn extent(edge: Edge, output: &ActiveOutput) -> (r: u32)
    ensures
        r == (if edge == Edge::Top || edge == Edge::Bottom {
            output.logical.width
        } else {
            output.logical.height
        }),
{
    match edge {
        Edge::Top => output.logical.width,
        Edge::Bottom => output.logical.width,
        Edge::Left => output.logical.height,
        Edge::Right => output.logical.height,
    }
}

/// What keeps one connection of a new layout from being used; `wide` where its span covers at
/// least one pixel.
pub open spec fn new_edge_problem(edge: EdgeConfig, outputs: Seq<ActiveOutput>, wide: bool) -> Option<Error> {
    if !crate::niri::in_use(outputs, edge.output@) {
        Some(Error::OutputUnavailable)
    } else if !wide {
        Some(Error::LayoutInvalid)
    } else {
        None
    }
}

pub open spec fn first_new_edge_problem(
    edges: Seq<EdgeConfig>,
    outputs: Seq<ActiveOutput>,
    wide: Seq<bool>,
    from: int,
) -> Option<Error>
    decreases edges.len() - from,
{
    if from < 0 || from >= edges.len() {
        None
    } else if new_edge_problem(edges[from], outputs, wide[from]) is Some {
        new_edge_problem(edges[from], outputs, wide[from])
    } else {
        first_new_edge_problem(edges, outputs, wide, from + 1)
    }
}

/// Checks a new layout against the outputs in use.
pub fn check_layout(edges: &Vec<EdgeConfig>, outputs: &Vec<ActiveOutput>, wide: &Vec<bool>) -> (r:
    Result<(), Error>)
    requires
        wide@.len() == edges@.len(),
    ensures
        !crate::edges::edges_valid(edges@) ==> r == Err::<(), Error>(Error::LayoutInvalid),
        crate::edges::edges_valid(edges@) ==> match first_new_edge_problem(
            edges@,
            outputs@,
            wide@,
            0,
        ) {
            Some(e) => r == Err::<(), Error>(e),
            None => r is Ok,
        },
{
    match crate::edges::validate_edges(edges) {
        Err(_) => return Err(Error::LayoutInvalid),
        Ok(()) => {},
    }
    for i in 0..edges.len()
        invariant
            wide@.len() == edges@.len(),
            crate::edges::edges_valid(edges@),
            first_new_edge_problem(edges@, outputs@, wide@, 0) == first_new_edge_problem(
                edges@,
                outputs@,
                wide@,
                i as int,
            ),
    {
        if find_output(outputs, edges[i].output.as_str()).is_none() {
            return Err(Error::OutputUnavailable);
        }
        if !wide[i] {
            return Err(Error::LayoutInvalid);
        }
    }
    Ok(())
}

/// A change of the configuration file: its text before and after, and how far it has come.
pub struct Prepared {
    pub before: String,
    pub next: String,
    pub before_revision: String,
    pub after_revision: String,
    pub committed: bool,
    pub finished: bool,
    pub target_outputs: Vec<String>,
}

/// The revision of a text.
pub open spec fn revision_of(text: Seq<char>) -> Seq<char> {
    crate::hex::hex_of(sha256(vstd::utf8::encode_utf8(text)))
}

/// A change may start only from the text that it is based on.
pub fn check_revision(text: &str, expected: &str) -> (r: Result<(), Error>)
    requires
        crate::text::byte_count(text@) <= MAX_DIGEST_INPUT,
    ensures
        r == (if revision_of(text@) == expected@ {
            Ok(())
        } else {
            Err::<(), Error>(Error::SettingsConflict)
        }),
{
    if same_text(digest(text.as_bytes()).as_str(), expected) {
        Ok(())
    } else {
        Err(Error::SettingsConflict)
    }
}

impl Prepared {
    /// The revisions are those of the texts.
    pub open spec fn wf(self) -> bool {
        &&& self.before_revision@ == revision_of(self.before@)
        &&& self.after_revision@ == revision_of(self.next@)
    }

    /// Stages a change without making it visible.
    pub fn stage(before: String, next: String, target_outputs: Vec<String>) -> (r: Prepared)
        requires
            crate::text::byte_count(before@) <= MAX_DIGEST_INPUT,
            crate::text::byte_count(next@) <= MAX_DIGEST_INPUT,
        ensures
            r.wf(),
            r.before == before,
            r.next == next,
            r.target_outputs == target_outputs,
            !r.committed,
            !r.finished,
    {
        let before_revision = digest(before.as_str().as_bytes());
        let after_revision = digest(next.as_str().as_bytes());
        Prepared {
            before,
            next,
            before_revision,
            after_revision,
            committed: false,
            finished: false,
            target_outputs,
        }
    }

    /// Some output that the change relies on is not in use.
    pub open spec fn target_missing(self, outputs: Seq<ActiveOutput>) -> bool {
        exists|i: int|
            0 <= i < self.target_outputs@.len() && !crate::niri::in_use(
                outputs,
                (#[trigger] self.target_outputs@[i])@,
            )
    }

    /// Whether the change can be made now: its outputs are in use and nobody has edited the file
    /// since.
    pub fn check_commit(&self, outputs: &Vec<ActiveOutput>, current: &str) -> (r: Result<(), Error>)
        ensures
            r == (if self.target_missing(outputs@) {
                Err::<(), Error>(Error::OutputUnavailable)
            } else if current@ != self.before_revision@ {
                Err::<(), Error>(Error::SettingsConflict)
            } else {
                Ok(())
            }),
    {
        for i in 0..self.target_outputs.len()
            invariant
                forall|j: int|
                    0 <= j < i ==> crate::niri::in_use(
                        outputs@,
                        (#[trigger] self.target_outputs@[j])@,
                    ),
        {
            if find_output(outputs, self.target_outputs[i].as_str()).is_none() {
                assert(!crate::niri::in_use(outputs@, self.target_outputs@[i as int]@));
                return Err(Error::OutputUnavailable);
            }
        }
        if !same_text(current, self.before_revision.as_str()) {
            return Err(Error::SettingsConflict);
        }
        Ok(())
    }

    /// The file has been replaced.
    pub fn commit(&mut self)
        ensures
            *final(self) == (Prepared { committed: true, ..*old(self) }),
    {
        self.committed = true;
    }

    /// The change is confirmed and stays.
    pub fn finish(&mut self)
        ensures
            *final(self) == (Prepared { finished: true, ..*old(self) }),
    {
        self.finished = true;
    }

    /// The change was made, not confirmed, and nobody has edited the file since.
    pub open spec fn to_be_undone(self, current: Option<Seq<char>>) -> bool {
        self.committed && !self.finished && current == Some(self.after_revision@)
    }

    /// When the change is let go of: the text to put back, if any. `current` is the revision of
    /// the file as it is.
    pub fn restore(&self, current: Option<&str>) -> (r: Option<&String>)
        ensures
            match current {
                Some(revision) => if self.to_be_undone(Some(revision@)) {
                    r == Some(&self.before)
                } else {
                    r is None
                },
                None => r is None,
            },
    {
        match current {
            Some(revision) => if self.committed && !self.finished && same_text(
                revision,
                self.after_revision.as_str(),
            ) {
                Some(&self.before)
            } else {
                None
            },
            None => None,
        }
    }
}

/// A change that was made and not confirmed is undone: the file is again the text that the change
/// started from. One that somebody has edited since is left alone, unless the edited text has the
/// same digest.
pub proof fn lemma_unconfirmed_change_is_undone(prepared: Prepared, on_disk: Seq<char>)
    requires
        prepared.wf(),
        prepared.committed,
        !prepared.finished,
    ensures
        on_disk == prepared.next@ ==> prepared.to_be_undone(Some(revision_of(on_disk))),
        sha256(vstd::utf8::encode_utf8(on_disk)) != sha256(
            vstd::utf8::encode_utf8(prepared.next@),
        ) ==> !prepared.to_be_undone(Some(revision_of(on_disk))),
{
    if revision_of(on_disk) == prepared.after_revision@ {
        crate::hex::lemma_hex_injective(
            sha256(vstd::utf8::encode_utf8(on_disk)),
            sha256(vstd::utf8::encode_utf8(prepared.next@)),
        );
    }
}

/// A change that is not made yet, or that is confirmed, is never undone.
pub proof fn lemma_other_changes_stay(prepared: Prepared, current: Option<Seq<char>>)
    requires
        !prepared.committed || prepared.finished,
    ensures
        !prepared.to_be_undone(current),
{
}

/// A text is a name in the domain name system.
pub uninterp spec fn dns_name(text: Seq<char>) -> bool;

/// Tells by `rustls::pki_types::ServerName::try_from` whether a text is a DNS name, not an IP
/// address and not anything else. That depends on the text alone.
#[verifier::external_body]
pub(crate) fn is_dns_name(text: &str) -> (r: bool)
    ensures
        r == dns_name(text@),
{
    match rustls::pki_types::ServerName::try_from(text) {
        Ok(rustls::pki_types::ServerName::DnsName(_)) => true,
        _ => false,
    }
}

/// A piece of a list of names that is a DNS name: what stands behind its mark.
pub open spec fn marked_name(piece: Seq<char>) -> Option<Seq<char>> {
    let text = crate::text::trimmed(piece);
    if crate::text::has_prefix(text, "DNS:"@) {
        Some(text.skip(4))
    } else {
        None
    }
}

/// The DNS names among some pieces, in order.
pub open spec fn marked_names(list: Seq<Seq<char>>) -> Seq<Seq<char>>
    decreases list.len(),
{
    if list.len() == 0 {
        Seq::empty()
    } else {
        match marked_name(list.last()) {
            Some(name) => marked_names(list.drop_last()).push(name),
            None => marked_names(list.drop_last()),
        }
    }
}

/// The DNS names that a listing of alternative names holds.
pub open spec fn listed_names(listing: Seq<char>) -> Seq<Seq<char>> {
    marked_names(crate::text::pieces(listing, ',', '\n'))
}

fn name_of(piece: &Vec<char>) -> (r: Option<Vec<char>>)
    ensures
        match marked_name(piece@) {
            Some(name) => r matches Some(found) && found@ == name,
            None => r is None,
        },
{
    let whole = from_characters(piece);
    let text = trim(whole.as_str());
    let mark = characters("DNS:");
    proof {
        reveal_strlit("DNS:");
        assert(mark@.len() == 4);
    }
    if text.len() < 4 {
        return None;
    }
    if !(text[0] == mark[0] && text[1] == mark[1] && text[2] == mark[2] && text[3] == mark[3]) {
        assert(text@.take(4)[0] == text@[0] && text@.take(4)[1] == text@[1] && text@.take(4)[2]
            == text@[2] && text@.take(4)[3] == text@[3]);
        return None;
    }
    assert(text@.take(4) =~= mark@);
    let mut name: Vec<char> = Vec::new();
    for i in 4..text.len()
        invariant
            name@ == text@.subrange(4, i as int),
            text@.len() >= 4,
    {
        name.push(text[i]);
        assert(text@.subrange(4, i + 1) == text@.subrange(4, i as int).push(text@[i as int]));
    }
    assert(text@.subrange(4, text@.len() as int) =~= text@.skip(4));
    Some(name)
}

fn names_in(listing: &str) -> (r: Vec<Vec<char>>)
    ensures
        crate::text::views(r@) == listed_names(listing@),
{
    let list = split(&characters(listing), ',', '\n');
    let ghost all = crate::text::views(list@);
    let mut names: Vec<Vec<char>> = Vec::new();
    assert(crate::text::views(names@) =~= marked_names(all.take(0)));
    for i in 0..list.len()
        invariant
            all == crate::text::views(list@),
            crate::text::views(names@) == marked_names(all.take(i as int)),
    {
        proof {
            assert(all.take(i + 1).drop_last() == all.take(i as int));
            assert(all[i as int] == list@[i as int]@);
        }
        let ghost before = names@;
        match name_of(&list[i]) {
            Some(name) => {
                let ghost added = name@;
                names.push(name);
                assert(crate::text::views(names@) =~= crate::text::views(before).push(added));
            },
            None => {},
        }
    }
    assert(all.take(all.len() as int) == all);
    names
}

/// A name that a paired computer can have.
pub open spec fn peer_name_valid(name: Seq<char>) -> bool {
    &&& dns_name(name)
    &&& !name.contains('*')
    &&& crate::text::byte_count(name) <= MAX_NAME_BYTES
}

/// Takes the one name of a computer out of a listing of the alternative names of its certificate.
pub fn certificate_name(listing: &str) -> (r: Result<String, Error>)
    ensures
        ({
            let names = listed_names(listing@);
            if names.len() != 1 {
                r == Err::<String, Error>(Error::CertificateNameAmbiguous)
            } else if !peer_name_valid(crate::text::trimmed(names[0])) {
                r == Err::<String, Error>(Error::CertificateInvalid)
            } else {
                r matches Ok(name) && name@ == crate::text::trimmed(names[0])
            }
        }),
{
    let names = names_in(listing);
    assert(crate::text::views(names@).len() == names@.len());
    if names.len() != 1 {
        return Err(Error::CertificateNameAmbiguous);
    }
    assert(crate::text::views(names@)[0] == names@[0]@);
    let raw = from_characters(&names[0]);
    let list = trim(raw.as_str());
    let name = from_characters(&list);
    check_peer_name(name, &list)
}

fn check_peer_name(name: String, list: &Vec<char>) -> (r: Result<String, Error>)
    requires
        name@ == list@,
    ensures
        r == (if peer_name_valid(name@) {
            Ok(name)
        } else {
            Err::<String, Error>(Error::CertificateInvalid)
        }),
{
    if !is_dns_name(name.as_str()) || byte_len(name.as_str()) > MAX_NAME_BYTES {
        return Err(Error::CertificateInvalid);
    }
    for i in 0..list.len()
        invariant
            name@ == list@,
            dns_name(name@),
            crate::text::byte_count(name@) <= MAX_NAME_BYTES,
            forall|j: int| 0 <= j < i ==> list@[j] != '*',
    {
        if list[i] == '*' {
            assert(name@.contains('*'));
            return Err(Error::CertificateInvalid);
        }
    }
    Ok(name)
}

/// Refuses to read as a certificate what is too large or holds a private key.
pub fn check_certificate_file(size: u64, text: &str) -> (r: Result<(), Error>)
    ensures
        r == (if size > MAX_CERTIFICATE_BYTES {
            Err::<(), Error>(Error::CertificateInvalid)
        } else if crate::text::contains_text(text@, "PRIVATE KEY"@) {
            Err::<(), Error>(Error::PrivateKeySelected)
        } else {
            Ok(())
        }),
{
    if size > MAX_CERTIFICATE_BYTES {
        return Err(Error::CertificateInvalid);
    }
    if contains(text, "PRIVATE KEY") {
        return Err(Error::PrivateKeySelected);
    }
    Ok(())
}

/// A certificate is imported only if it is the one that was shown, and not this computer's own.
pub fn check_import(shown: &str, candidate: &str, own: &str) -> (r: Result<(), Error>)
    ensures
        r == (if candidate@ != shown@ {
            Err::<(), Error>(Error::CertificateChanged)
        } else if candidate@ == own@ {
            Err::<(), Error>(Error::PairSameDevice)
        } else {
            Ok(())
        }),
{
    if !same_text(candidate, shown) {
        return Err(Error::CertificateChanged);
    }
    if same_text(candidate, own) {
        return Err(Error::PairSameDevice);
    }
    Ok(())
}

/// A text without as many repetitions of a prefix as it starts with.
pub open spec fn strip_repeated(text: Seq<char>, prefix: Seq<char>) -> Seq<char>
    decreases text.len(),
{
    if prefix.len() > 0 && crate::text::has_prefix(text, prefix) {
        strip_repeated(text.skip(prefix.len() as int), prefix)
    } else {
        text
    }
}

/// The date out of a line that says when a certificate expires.
pub fn expiry_date(line: &str) -> (r: String)
    ensures
        r@ == strip_repeated(crate::text::trimmed(line@), "notAfter="@),
{
    let list = trim(line);
    let mut text = from_characters(&list);
    proof {
        reveal_strlit("notAfter=");
        assert("notAfter="@.len() == 9);
    }
    while crate::text::starts_with(text.as_str(), "notAfter=")
        invariant
            "notAfter="@.len() == 9,
            strip_repeated(crate::text::trimmed(line@), "notAfter="@) == strip_repeated(
                text@,
                "notAfter="@,
            ),
        decreases text@.len(),
    {
        let whole = characters(text.as_str());
        let mut rest: Vec<char> = Vec::new();
        for i in 9..whole.len()
            invariant
                whole@.len() >= 9,
                rest@ == whole@.subrange(9, i as int),
        {
            rest.push(whole[i]);
            assert(whole@.subrange(9, i + 1) == whole@.subrange(9, i as int).push(
                whole@[i as int],
            ));
        }
        assert(rest@ =~= text@.skip(9));
        text = from_characters(&rest);
    }
    text
}

/// The text of a configuration is small enough for a digest.
pub open spec fn digestible(text: Seq<char>) -> bool {
    crate::text::byte_count(text) <= MAX_DIGEST_INPUT
}

fn is_digestible(text: &str) -> (r: bool)
    ensures
        r == digestible(text@),
{
    byte_len(text) as u64 <= MAX_DIGEST_INPUT
}

/// The change from one text to another is staged.
pub open spec fn staged(prepared: Prepared, before: Seq<char>, next: Seq<char>) -> bool {
    &&& prepared.wf()
    &&& prepared.before@ == before
    &&& prepared.next@ == next
    &&& !prepared.committed
    &&& !prepared.finished
}

/// Stages a change of a configuration, unless the texts are too large for a digest.
fn stage_change(before: String, next: String, target_outputs: Vec<String>) -> (r: Result<Prepared, Error>)
    ensures
        if digestible(before@) && digestible(next@) {
            &&& r is Ok
            &&& staged(r->Ok_0, before@, next@)
            &&& r->Ok_0.target_outputs == target_outputs
        } else {
            r == Err::<Prepared, Error>(Error::ConfigInvalid)
        },
{
    if !is_digestible(before.as_str()) || !is_digestible(next.as_str()) {
        return Err(Error::ConfigInvalid);
    }
    Ok(Prepared::stage(before, next, target_outputs))
}

/// A result is a staged change to a text that loads with given entries and keeps the comments of
/// the text before. It fails where one of those cannot stand on a line of its own, or where the
/// new text is too large for a digest.
pub open spec fn stages(
    r: Result<Prepared, Error>,
    before: Seq<char>,
    found: Map<Seq<char>, crate::document::Toml>,
) -> bool {
    match r {
        Ok(prepared) => {
            &&& staged(prepared, before, prepared.next@)
            &&& crate::comments::comments_writable(before)
            &&& crate::document::changed(before, prepared.next@, found)
        },
        Err(e) => {
            &&& e == Error::ConfigInvalid
            &&& crate::comments::comments_writable(before) ==> exists|next: Seq<char>| #[trigger]
                crate::document::changed(before, next, found) && !digestible(next)
        },
    }
}

/// Prepares new settings for a configuration whose text is `before`.
pub fn save(before: String, request: &SaveRequest) -> (r: Result<Prepared, Error>)
    ensures
        if !digestible(before@) {
            r == Err::<Prepared, Error>(Error::ConfigInvalid)
        } else if revision_of(before@) != request.revision@ {
            r == Err::<Prepared, Error>(Error::SettingsConflict)
        } else {
            match crate::document::parsed(before@) {
                None => r == Err::<Prepared, Error>(Error::ConfigInvalid),
                Some(found) => match request.settings.problem() {
                    Some(e) => r == Err::<Prepared, Error>(e),
                    None => if !crate::document::holds_keys(found, "connection"@) {
                        r == Err::<Prepared, Error>(Error::ConfigInvalid)
                    } else {
                        stages(
                            r,
                            before@,
                            crate::document::with_settings(found, request.settings),
                        )
                    },
                },
            }
        },
{
    if !is_digestible(before.as_str()) {
        return Err(Error::ConfigInvalid);
    }
    match check_revision(before.as_str(), request.revision.as_str()) {
        Err(e) => return Err(e),
        Ok(()) => {},
    }
    match crate::document::edit_settings(before.as_str(), &request.settings) {
        Err(e) => Err(e),
        Ok(next) => stage_change(before, next, Vec::new()),
    }
}

/// Some written connections are those that were checked.
pub open spec fn write_out(entries: Seq<crate::document::EdgeEntry>, edges: Seq<EdgeConfig>) -> bool {
    &&& entries.len() == edges.len()
    &&& forall|i: int|
        0 <= i < edges.len() ==> (#[trigger] entries[i]).id@ == edges[i].id@ && entries[i].output@
            == edges[i].output@ && entries[i].edge@ == edges[i].boundary.edge.name()
}

/// A new layout: the connections as they are checked, and as they are written.
pub struct LayoutChange {
    pub edges: Vec<EdgeConfig>,
    pub entries: Vec<crate::document::EdgeEntry>,
    /// Of each connection whether its span covers at least one pixel.
    pub wide: Vec<bool>,
}

impl LayoutChange {
    /// The written connections are the checked ones.
    pub open spec fn wf(self) -> bool {
        &&& write_out(self.entries@, self.edges@)
        &&& self.wide@.len() == self.edges@.len()
    }

    /// The first reason, in the order of the checks, for which a layout is refused.
    pub open spec fn problem(self, outputs: Seq<ActiveOutput>) -> Option<Error> {
        if !crate::edges::edges_valid(self.edges@) {
            Some(Error::LayoutInvalid)
        } else {
            first_new_edge_problem(self.edges@, outputs, self.wide@, 0)
        }
    }
}

/// Prepares a new layout for a configuration whose text is `before`.
pub fn prepare_edge(
    before: String,
    expected: &str,
    change: &LayoutChange,
    outputs: &Vec<ActiveOutput>,
) -> (r: Result<Prepared, Error>)
    requires
        change.wf(),
    ensures
        match change.problem(outputs@) {
            Some(e) => r == Err::<Prepared, Error>(e),
            None => if !digestible(before@) {
                r == Err::<Prepared, Error>(Error::ConfigInvalid)
            } else if revision_of(before@) != expected@ {
                r == Err::<Prepared, Error>(Error::SettingsConflict)
            } else {
                match crate::document::parsed(before@) {
                    None => r == Err::<Prepared, Error>(Error::ConfigInvalid),
                    Some(found) => if !crate::document::all_fractions(change.entries@) {
                        r == Err::<Prepared, Error>(Error::LayoutInvalid)
                    } else {
                        &&& stages(
                            r,
                            before@,
                            crate::document::with_edges(found, change.entries@),
                        )
                        &&& r matches Ok(prepared) ==> targets(prepared, change.edges@)
                    },
                }
            },
        },
{
    match check_layout(&change.edges, outputs, &change.wide) {
        Err(e) => return Err(e),
        Ok(()) => {},
    }
    if !is_digestible(before.as_str()) {
        return Err(Error::ConfigInvalid);
    }
    match check_revision(before.as_str(), expected) {
        Err(e) => return Err(e),
        Ok(()) => {},
    }
    let next = match crate::document::edit_edges(before.as_str(), &change.entries) {
        Err(e) => return Err(e),
        Ok(next) => next,
    };
    let mut target_outputs: Vec<String> = Vec::new();
    for i in 0..change.edges.len()
        invariant
            target_outputs@.len() == i,
            forall|j: int|
                0 <= j < i ==> (#[trigger] target_outputs@[j])@ == change.edges@[j].output@,
    {
        target_outputs.push(change.edges[i].output.clone());
    }
    stage_change(before, next, target_outputs)
}

/// A change relies on the outputs of some connections.
pub open spec fn targets(prepared: Prepared, edges: Seq<EdgeConfig>) -> bool {
    &&& prepared.target_outputs@.len() == edges.len()
    &&& forall|i: int|
        0 <= i < edges.len() ==> (#[trigger] prepared.target_outputs@[i])@ == edges[i].output@
}

/// Prepares the pairing with a computer whose certificate was shown; `own` is the fingerprint of
/// this computer.
pub fn import_peer(
    before: String,
    expected: &str,
    shown: &str,
    candidate: &CertificateInfo,
    own: &str,
) -> (r: Result<Prepared, Error>)
    ensures
        if candidate.fingerprint@ != shown@ {
            r == Err::<Prepared, Error>(Error::CertificateChanged)
        } else if candidate.fingerprint@ == own@ {
            r == Err::<Prepared, Error>(Error::PairSameDevice)
        } else if !digestible(before@) {
            r == Err::<Prepared, Error>(Error::ConfigInvalid)
        } else if revision_of(before@) != expected@ {
            r == Err::<Prepared, Error>(Error::SettingsConflict)
        } else {
            match crate::document::parsed(before@) {
                None => r == Err::<Prepared, Error>(Error::ConfigInvalid),
                Some(found) => stages(
                    r,
                    before@,
                    crate::document::with_peer(found, candidate.name@),
                ),
            }
        },
{
    match check_import(shown, candidate.fingerprint.as_str(), own) {
        Err(e) => return Err(e),
        Ok(()) => {},
    }
    if !is_digestible(before.as_str()) {
        return Err(Error::ConfigInvalid);
    }
    match check_revision(before.as_str(), expected) {
        Err(e) => return Err(e),
        Ok(()) => {},
    }
    match crate::document::edit_peer(before.as_str(), candidate.name.as_str()) {
        Err(e) => Err(e),
        Ok(next) => stage_change(before, next, Vec::new()),
    }
}

/// Writes a new configuration, unless there is one already; `entries` are its connections as they
/// are written.
pub fn initialize(
    present: bool,
    request: &InitializeRequest,
    entries: &Vec<crate::document::EdgeEntry>,
) -> (r: Result<String, Error>)
    requires
        write_out(entries@, request.edges@),
    ensures
        if present {
            r == Err::<String, Error>(Error::ConfigExists)
        } else if crate::edges::edges_problem(request.edges@) is Some {
            r == Err::<String, Error>(crate::edges::edges_problem(request.edges@)->0)
        } else {
            match request.settings.problem() {
                Some(e) => r == Err::<String, Error>(e),
                None => if crate::document::all_fractions(entries@) {
                    r matches Ok(text) && crate::document::parsed(text@) == Some(
                        crate::document::with_edges(
                            crate::document::with_settings(
                                crate::document::initial_entries(),
                                request.settings,
                            ),
                            entries@,
                        ),
                    )
                } else {
                    r == Err::<String, Error>(Error::LayoutInvalid)
                },
            }
        },
{
    if present {
        return Err(Error::ConfigExists);
    }
    match crate::edges::validate_edges(&request.edges) {
        Err(e) => return Err(e),
        Ok(()) => {},
    }
    crate::document::initial_document(&request.settings, entries)
}

} // verus!
