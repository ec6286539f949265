//! The configuration file as a document that keeps its comments while single settings change.
use crate::comments::lost_comments;
use crate::error::Error;
use crate::manager::{check_settings, Settings};
use crate::text::{characters, from_characters, same_text};
use vstd::prelude::*;

verus! {

/// A value of a document. A table stands under a header of its own or in dotted keys, an inline
/// table in braces.
pub ghost enum Toml {
    Text(Seq<char>),
    Flag(bool),
    Number(Seq<char>),
    Texts(Seq<Seq<char>>),
    Table(Map<Seq<char>, Toml>),
    Inline(Map<Seq<char>, Toml>),
    Tables(Seq<Map<Seq<char>, Toml>>),
    Other,
}

#[verifier::external_type_specification]
#[verifier::external_body]
pub struct ExDocument(toml_edit::DocumentMut);

#[verifier::external_type_specification]
#[verifier::external_body]
pub struct ExTomlError(toml_edit::TomlError);

/// The top-level entries of a document.
pub uninterp spec fn entries(document: toml_edit::DocumentMut) -> Map<Seq<char>, Toml>;

/// The text of a document.
pub uninterp spec fn document_text(document: toml_edit::DocumentMut) -> Seq<char>;

/// A document came about by parsing a text, or as an empty one, and has been changed since then
/// only as the functions of this module do.
pub uninterp spec fn from_text(document: toml_edit::DocumentMut) -> bool;

/// The top-level entries of the document that a text holds; nothing when it holds none.
pub uninterp spec fn parsed(text: Seq<char>) -> Option<Map<Seq<char>, Toml>>;

/// Parses a text with `str::parse::<toml_edit::DocumentMut>`. The parser depends on the text
/// alone.
#[verifier::external_body]
fn parse_document(text: &str) -> (r: Result<toml_edit::DocumentMut, toml_edit::TomlError>)
    ensures
        match parsed(text@) {
            Some(found) => r is Ok && from_text(r->Ok_0) && entries(r->Ok_0) == found,
            None => r is Err,
        },
{
    text.parse::<toml_edit::DocumentMut>()
}

pub open spec fn no_entries() -> Map<Seq<char>, Toml> {
    Map::empty()
}

/// `toml_edit::DocumentMut::new` makes an empty document.
#[verifier::external_body]
fn new_document() -> (r: toml_edit::DocumentMut)
    ensures
        from_text(r),
        entries(r) == no_entries(),
{
    toml_edit::DocumentMut::new()
}

/// Prints a document with its `Display`, comments and all. Parsing what was printed gives the same
/// entries again; so every string in it is closed.
#[verifier::external_body]
fn render(document: &toml_edit::DocumentMut) -> (r: String)
    requires
        from_text(*document),
    ensures
        r@ == document_text(*document),
        parsed(r@) == Some(entries(*document)),
        crate::comments::closed(r@),
{
    document.to_string()
}

/// Writes a text behind everything else with `DocumentMut::set_trailing`. Lines that are comments
/// or empty change no entry.
#[verifier::external_body]
fn append_comments(document: &mut toml_edit::DocumentMut, text: &str)
    requires
        from_text(*old(document)),
        crate::comments::only_comments(text@),
    ensures
        from_text(*final(document)),
        entries(*final(document)) == entries(*old(document)),
        document_text(*final(document)) == document_text(*old(document)) + text@,
{
    let trailing = document.trailing().as_str().unwrap_or_default().to_owned();
    document.set_trailing(trailing + text);
}

/// Assigns a string to a top-level key through `IndexMut` of the document, which adds the key or
/// replaces what it had, and nothing else.
#[verifier::external_body]
fn set_text(document: &mut toml_edit::DocumentMut, key: &str, text: &str)
    requires
        from_text(*old(document)),
    ensures
        from_text(*final(document)),
        entries(*final(document)) == entries(*old(document)).insert(key@, Toml::Text(text@)),
{
    document[key] = toml_edit::value(text);
}

/// Assigns a boolean to a top-level key through `IndexMut` of the document.
#[verifier::external_body]
fn set_flag(document: &mut toml_edit::DocumentMut, key: &str, flag: bool)
    requires
        from_text(*old(document)),
    ensures
        from_text(*final(document)),
        entries(*final(document)) == entries(*old(document)).insert(key@, Toml::Flag(flag)),
{
    document[key] = toml_edit::value(flag);
}

pub open spec fn text_views(list: Seq<String>) -> Seq<Seq<char>> {
    list.map_values(|text: String| text@)
}

/// Assigns a list of strings, collected into a `toml_edit::Array`, to a top-level key through
/// `IndexMut` of the document.
#[verifier::external_body]
fn set_texts(document: &mut toml_edit::DocumentMut, key: &str, list: &Vec<String>)
    requires
        from_text(*old(document)),
    ensures
        from_text(*final(document)),
        entries(*final(document)) == entries(*old(document)).insert(
            key@,
            Toml::Texts(text_views(list@)),
        ),
{
    let array: toml_edit::Array = list.iter().map(|text| text.as_str()).collect();
    document[key] = toml_edit::value(array);
}

/// A key can hold further keys: it is absent, or a table.
pub open spec fn holds_keys(found: Map<Seq<char>, Toml>, key: Seq<char>) -> bool {
    !found.contains_key(key) || found[key] is Table || found[key] is Inline
}

/// Looks a top-level key up with `Table::get` and asks `Item::is_table_like`.
#[verifier::external_body]
fn can_hold_keys(document: &toml_edit::DocumentMut, key: &str) -> (r: bool)
    ensures
        r == holds_keys(entries(*document), key@),
{
    document.get(key).map_or(true, |item| item.is_table_like())
}

/// Some entries after a key of an inner table was set. An inner table that was not there is made
/// inline.
pub open spec fn with_inner(
    found: Map<Seq<char>, Toml>,
    table: Seq<char>,
    key: Seq<char>,
    value: Toml,
) -> Map<Seq<char>, Toml> {
    let inner = if !found.contains_key(table) {
        Toml::Inline(Map::empty().insert(key, value))
    } else {
        match found[table] {
            Toml::Table(inner) => Toml::Table(inner.insert(key, value)),
            Toml::Inline(inner) => Toml::Inline(inner.insert(key, value)),
            other => other,
        }
    };
    found.insert(table, inner)
}

/// Assigns a string to a key of a table through `IndexMut` of the document and of the item, which
/// makes the table where there is none. On anything but a table it would panic.
#[verifier::external_body]
fn set_inner_text(document: &mut toml_edit::DocumentMut, table: &str, key: &str, text: &str)
    requires
        from_text(*old(document)),
        holds_keys(entries(*old(document)), table@),
    ensures
        from_text(*final(document)),
        entries(*final(document)) == with_inner(
            entries(*old(document)),
            table@,
            key@,
            Toml::Text(text@),
        ),
{
    document[table][key] = toml_edit::value(text);
}

/// `Table::remove` takes a top-level key out.
#[verifier::external_body]
fn remove(document: &mut toml_edit::DocumentMut, key: &str)
    requires
        from_text(*old(document)),
    ensures
        from_text(*final(document)),
        entries(*final(document)) == entries(*old(document)).remove(key@),
{
    document.remove(key);
}

/// A decimal fraction: a digit, a point and more digits; or zero with a minus sign.
pub open spec fn fraction_text(text: Seq<char>) -> bool {
    ||| text == "-0.0"@
    ||| {
        &&& text.len() >= 3
        &&& '0' <= text[0] <= '9'
        &&& text[1] == '.'
        &&& crate::text::all_digits(text.skip(2))
    }
}

/// A connection with the ends of its span written out as decimal fractions.
pub struct EdgeEntry {
    pub id: String,
    pub output: String,
    pub edge: String,
    pub start: String,
    pub end: String,
}

/// The table that stands for a connection.
pub open spec fn edge_table(entry: EdgeEntry) -> Map<Seq<char>, Toml> {
    let boundary = Map::<Seq<char>, Toml>::empty().insert("edge"@, Toml::Text(entry.edge@)).insert(
        "start"@,
        Toml::Number(entry.start@),
    ).insert("end"@, Toml::Number(entry.end@));
    Map::<Seq<char>, Toml>::empty().insert("id"@, Toml::Text(entry.id@)).insert(
        "output"@,
        Toml::Text(entry.output@),
    ).insert("boundary"@, Toml::Inline(boundary))
}

/// A key has an array of tables, or nothing.
pub open spec fn holds_tables(found: Map<Seq<char>, Toml>, key: Seq<char>) -> bool {
    found.contains_key(key) ==> found[key] is Tables
}

/// The tables of an array, none where there is no array.
pub open spec fn tables_at(found: Map<Seq<char>, Toml>, key: Seq<char>) -> Seq<Map<Seq<char>, Toml>> {
    if found.contains_key(key) {
        found[key]->Tables_0
    } else {
        Seq::empty()
    }
}

/// A table without tables that have headers of their own.
pub open spec fn flat(table: Map<Seq<char>, Toml>) -> bool {
    forall|key: Seq<char>|
        table.contains_key(key) ==> !((#[trigger] table[key]) is Table) && !(table[key] is Tables)
}

pub open spec fn all_flat(tables: Seq<Map<Seq<char>, Toml>>) -> bool {
    forall|i: int| 0 <= i < tables.len() ==> flat(#[trigger] tables[i])
}

/// Some entries after one table of an array was changed.
pub open spec fn with_table(
    found: Map<Seq<char>, Toml>,
    key: Seq<char>,
    index: int,
    table: Map<Seq<char>, Toml>,
) -> Map<Seq<char>, Toml> {
    found.insert(key, Toml::Tables(tables_at(found, key).update(index, table)))
}

/// Appends an empty table with `ArrayOfTables::push`, in an array that `Entry::or_insert` adds
/// where there is none. The tables that are there must be flat: headers below them could end up
/// behind the new one.
#[verifier::external_body]
fn push_table(document: &mut toml_edit::DocumentMut, key: &str)
    requires
        from_text(*old(document)),
        holds_tables(entries(*old(document)), key@),
        all_flat(tables_at(entries(*old(document)), key@)),
    ensures
        from_text(*final(document)),
        entries(*final(document)) == entries(*old(document)).insert(
            key@,
            Toml::Tables(tables_at(entries(*old(document)), key@).push(no_entries())),
        ),
{
    let empty = toml_edit::Item::ArrayOfTables(toml_edit::ArrayOfTables::new());
    let list = document.entry(key).or_insert(empty).as_array_of_tables_mut();
    list.expect("an array of tables").push(toml_edit::Table::new());
}

/// Assigns a string to a key of one table of an array through `IndexMut` of the document and of
/// the items.
#[verifier::external_body]
fn set_table_text(
    document: &mut toml_edit::DocumentMut,
    list: &str,
    index: usize,
    key: &str,
    text: &str,
)
    requires
        from_text(*old(document)),
        holds_tables(entries(*old(document)), list@),
        index < tables_at(entries(*old(document)), list@).len(),
    ensures
        from_text(*final(document)),
        entries(*final(document)) == with_table(
            entries(*old(document)),
            list@,
            index as int,
            tables_at(entries(*old(document)), list@)[index as int].insert(key@, Toml::Text(text@)),
        ),
{
    document[list][index][key] = toml_edit::value(text);
}

/// Assigns a string to a key of a table inside one table of an array through `IndexMut`, which
/// makes the inner table where there is none.
#[verifier::external_body]
fn set_table_inner_text(
    document: &mut toml_edit::DocumentMut,
    list: &str,
    index: usize,
    table: &str,
    key: &str,
    text: &str,
)
    requires
        from_text(*old(document)),
        holds_tables(entries(*old(document)), list@),
        index < tables_at(entries(*old(document)), list@).len(),
        holds_keys(tables_at(entries(*old(document)), list@)[index as int], table@),
    ensures
        from_text(*final(document)),
        entries(*final(document)) == with_table(
            entries(*old(document)),
            list@,
            index as int,
            with_inner(
                tables_at(entries(*old(document)), list@)[index as int],
                table@,
                key@,
                Toml::Text(text@),
            ),
        ),
{
    document[list][index][table][key] = toml_edit::value(text);
}

/// Assigns a number, which `str::parse::<toml_edit::Value>` reads from a decimal fraction, to a key
/// of a table inside one table of an array through `IndexMut`.
#[verifier::external_body]
fn set_table_inner_number(
    document: &mut toml_edit::DocumentMut,
    list: &str,
    index: usize,
    table: &str,
    key: &str,
    text: &str,
)
    requires
        from_text(*old(document)),
        holds_tables(entries(*old(document)), list@),
        index < tables_at(entries(*old(document)), list@).len(),
        holds_keys(tables_at(entries(*old(document)), list@)[index as int], table@),
        fraction_text(text@),
    ensures
        from_text(*final(document)),
        entries(*final(document)) == with_table(
            entries(*old(document)),
            list@,
            index as int,
            with_inner(
                tables_at(entries(*old(document)), list@)[index as int],
                table@,
                key@,
                Toml::Number(text@),
            ),
        ),
{
    let number = text.parse::<toml_edit::Value>().expect("a decimal fraction");
    document[list][index][table][key] = toml_edit::value(number);
}

/// Appends the table that stands for a connection.
fn push_edge(document: &mut toml_edit::DocumentMut, index: usize, entry: &EdgeEntry)
    requires
        from_text(*old(document)),
        holds_tables(entries(*old(document)), "edges"@),
        all_flat(tables_at(entries(*old(document)), "edges"@)),
        index == tables_at(entries(*old(document)), "edges"@).len(),
        fraction_text(entry.start@),
        fraction_text(entry.end@),
    ensures
        from_text(*final(document)),
        entries(*final(document)) == entries(*old(document)).insert(
            "edges"@,
            Toml::Tables(tables_at(entries(*old(document)), "edges"@).push(edge_table(*entry))),
        ),
{
    proof {
        reveal_strlit("id");
        reveal_strlit("output");
        reveal_strlit("boundary");
        assert("id"@.len() == 2 && "output"@.len() == 6 && "boundary"@.len() == 8);
    }
    push_table(document, "edges");
    set_table_text(document, "edges", index, "id", entry.id.as_str());
    set_table_text(document, "edges", index, "output", entry.output.as_str());
    set_table_inner_text(document, "edges", index, "boundary", "edge", entry.edge.as_str());
    set_table_inner_number(document, "edges", index, "boundary", "start", entry.start.as_str());
    set_table_inner_number(document, "edges", index, "boundary", "end", entry.end.as_str());
    proof {
        let list = tables_at(entries(*old(document)), "edges"@);
        let found = tables_at(entries(*document), "edges"@);
        assert(found[index as int] =~= edge_table(*entry));
        assert(found =~= list.push(edge_table(*entry)));
        assert(entries(*document) =~= entries(*old(document)).insert(
            "edges"@,
            Toml::Tables(list.push(edge_table(*entry))),
        ));
    }
}

/// Accepts a decimal fraction in the form that it has in the file.
pub fn is_fraction(text: &str) -> (r: bool)
    ensures
        r == fraction_text(text@),
{
    if same_text(text, "-0.0") {
        return true;
    }
    let list = characters(text);
    if list.len() < 3 || !('0' <= list[0] && list[0] <= '9') || list[1] != '.' {
        return false;
    }
    for i in 2..list.len()
        invariant
            list@ == text@,
            list@.len() >= 3,
            text@ != "-0.0"@,
            forall|j: int| 2 <= j < i ==> '0' <= #[trigger] text@[j] <= '9',
    {
        if !('0' <= list[i] && list[i] <= '9') {
            assert(text@.skip(2)[i - 2] == text@[i as int]);
            return false;
        }
    }
    true
}

/// Prints a changed document with all the comments of the text before.
fn render_with_comments(document: &mut toml_edit::DocumentMut, before: &str) -> (r: Result<String, Error>)
    requires
        from_text(*old(document)),
    ensures
        if crate::comments::comments_writable(before@) {
            r matches Ok(next) && changed(before@, next@, entries(*old(document)))
        } else {
            r == Err::<String, Error>(Error::ConfigInvalid)
        },
{
    let next = render(document);
    match lost_comments(before, next.as_str()) {
        Err(e) => Err(e),
        Ok(None) => Ok(next),
        Ok(Some(text)) => {
            append_comments(document, from_characters(&text).as_str());
            Ok(render(document))
        },
    }
}

/// A text loads with some entries, and keeps the comments of the text before.
pub open spec fn changed(before: Seq<char>, next: Seq<char>, found: Map<Seq<char>, Toml>) -> bool {
    &&& parsed(next) == Some(found)
    &&& crate::comments::keeps_comments(before, next)
}

/// The entries of a configuration after its settings were changed: four keys are new, every other
/// entry is as it was.
pub open spec fn with_settings(found: Map<Seq<char>, Toml>, settings: Settings) -> Map<Seq<char>, Toml> {
    with_inner(
        with_inner(
            found,
            "connection"@,
            "mode"@,
            Toml::Text(settings.connection.mode_name()),
        ),
        "connection"@,
        "address"@,
        Toml::Text(settings.connection.target()),
    ).insert("native_touchpads"@, Toml::Flag(settings.native_touchpads)).insert(
        "activity_devices"@,
        Toml::Texts(text_views(settings.activity_devices@)),
    )
}

fn put_settings(document: &mut toml_edit::DocumentMut, settings: &Settings) -> (r: Result<(), Error>)
    requires
        from_text(*old(document)),
    ensures
        from_text(*final(document)),
        match settings.problem() {
            Some(e) => r == Err::<(), Error>(e),
            None => if !holds_keys(entries(*old(document)), "connection"@) {
                r == Err::<(), Error>(Error::ConfigInvalid)
            } else {
                r is Ok && entries(*final(document)) == with_settings(
                    entries(*old(document)),
                    *settings,
                )
            },
        },
{
    match check_settings(settings) {
        Err(e) => return Err(e),
        Ok(()) => {},
    }
    if !can_hold_keys(document, "connection") {
        return Err(Error::ConfigInvalid);
    }
    set_inner_text(document, "connection", "mode", settings.connection.mode());
    set_inner_text(document, "connection", "address", settings.connection.address().as_str());
    set_flag(document, "native_touchpads", settings.native_touchpads);
    set_texts(document, "activity_devices", &settings.activity_devices);
    Ok(())
}

/// A result is a text that loads with some entries and keeps the comments of the text before. It
/// fails where one of those cannot stand on a line of its own.
pub open spec fn is_changed(
    r: Result<String, Error>,
    before: Seq<char>,
    found: Map<Seq<char>, Toml>,
) -> bool {
    if crate::comments::comments_writable(before) {
        r matches Ok(next) && changed(before, next@, found)
    } else {
        r == Err::<String, Error>(Error::ConfigInvalid)
    }
}

/// Changes the settings in the text of a configuration.
pub fn edit_settings(text: &str, settings: &Settings) -> (r: Result<String, Error>)
    ensures
        match parsed(text@) {
            None => r == Err::<String, Error>(Error::ConfigInvalid),
            Some(found) => match settings.problem() {
                Some(e) => r == Err::<String, Error>(e),
                None => if !holds_keys(found, "connection"@) {
                    r == Err::<String, Error>(Error::ConfigInvalid)
                } else {
                    is_changed(r, text@, with_settings(found, *settings))
                },
            },
        },
{
    let mut document = match parse_document(text) {
        Ok(document) => document,
        Err(_) => return Err(Error::ConfigInvalid),
    };
    match put_settings(&mut document, settings) {
        Err(e) => return Err(e),
        Ok(()) => {},
    }
    render_with_comments(&mut document, text)
}

/// The entries of a configuration after the pairing was changed.
pub open spec fn with_peer(found: Map<Seq<char>, Toml>, name: Seq<char>) -> Map<Seq<char>, Toml> {
    found.insert("peer_name"@, Toml::Text(name)).insert(
        "peer_certificate"@,
        Toml::Text("peer.pem"@),
    )
}

/// Changes the paired computer in the text of a configuration.
pub fn edit_peer(text: &str, name: &str) -> (r: Result<String, Error>)
    ensures
        match parsed(text@) {
            None => r == Err::<String, Error>(Error::ConfigInvalid),
            Some(found) => is_changed(r, text@, with_peer(found, name@)),
        },
{
    let mut document = match parse_document(text) {
        Ok(document) => document,
        Err(_) => return Err(Error::ConfigInvalid),
    };
    set_text(&mut document, "peer_name", name);
    set_text(&mut document, "peer_certificate", "peer.pem");
    render_with_comments(&mut document, text)
}

pub open spec fn edge_tables(list: Seq<EdgeEntry>) -> Seq<Map<Seq<char>, Toml>> {
    list.map_values(|entry: EdgeEntry| edge_table(entry))
}

pub open spec fn all_fractions(list: Seq<EdgeEntry>) -> bool {
    forall|i: int|
        0 <= i < list.len() ==> fraction_text((#[trigger] list[i]).start@) && fraction_text(
            list[i].end@,
        )
}

/// The entries of a configuration after its connections were changed. A single connection in the
/// older form gives way to the list.
pub open spec fn with_edges(found: Map<Seq<char>, Toml>, list: Seq<EdgeEntry>) -> Map<Seq<char>, Toml> {
    let rest = found.remove("edge"@).remove("edges"@);
    if list.len() == 0 {
        rest
    } else {
        rest.insert("edges"@, Toml::Tables(edge_tables(list)))
    }
}

fn put_edges(document: &mut toml_edit::DocumentMut, list: &Vec<EdgeEntry>)
    requires
        from_text(*old(document)),
        all_fractions(list@),
    ensures
        from_text(*final(document)),
        entries(*final(document)) == with_edges(entries(*old(document)), list@),
{
    remove(document, "edge");
    remove(document, "edges");
    let ghost rest = entries(*document);
    for i in 0..list.len()
        invariant
            rest == entries(*old(document)).remove("edge"@).remove("edges"@),
            all_fractions(list@),
            from_text(*document),
            entries(*document) == with_edges(entries(*old(document)), list@.take(i as int)),
    {
        proof {
            assert(fraction_text(list@[i as int].start@));
            let before = edge_tables(list@.take(i as int));
            assert(tables_at(entries(*document), "edges"@) =~= before);
            assert(edge_tables(list@.take(i + 1)) =~= before.push(edge_table(list@[i as int])));
            assert(all_flat(before));
        }
        push_edge(document, i, &list[i]);
        assert(entries(*document) =~= with_edges(entries(*old(document)), list@.take(i + 1)));
    }
    assert(list@.take(list@.len() as int) == list@);
}

fn fractions_written(list: &Vec<EdgeEntry>) -> (r: bool)
    ensures
        r == all_fractions(list@),
{
    for i in 0..list.len()
        invariant
            forall|j: int|
                0 <= j < i ==> fraction_text((#[trigger] list@[j]).start@) && fraction_text(
                    list@[j].end@,
                ),
    {
        if !is_fraction(list[i].start.as_str()) || !is_fraction(list[i].end.as_str()) {
            assert(!(fraction_text(list@[i as int].start@) && fraction_text(
                list@[i as int].end@,
            )));
            return false;
        }
    }
    true
}

/// Changes the connections in the text of a configuration.
pub fn edit_edges(text: &str, list: &Vec<EdgeEntry>) -> (r: Result<String, Error>)
    ensures
        match parsed(text@) {
            None => r == Err::<String, Error>(Error::ConfigInvalid),
            Some(found) => if all_fractions(list@) {
                is_changed(r, text@, with_edges(found, list@))
            } else {
                r == Err::<String, Error>(Error::LayoutInvalid)
            },
        },
{
    let mut document = match parse_document(text) {
        Ok(document) => document,
        Err(_) => return Err(Error::ConfigInvalid),
    };
    if !fractions_written(list) {
        return Err(Error::LayoutInvalid);
    }
    put_edges(&mut document, list);
    render_with_comments(&mut document, text)
}

/// The entries that a new configuration starts with.
pub open spec fn initial_entries() -> Map<Seq<char>, Toml> {
    Map::empty().insert("certificate"@, Toml::Text("identity.pem"@)).insert(
        "private_key"@,
        Toml::Text("identity.key.pem"@),
    ).insert("peer_certificate"@, Toml::Text("peer.pem"@)).insert(
        "peer_name"@,
        Toml::Text("unpaired"@),
    )
}

/// Writes a new configuration.
pub fn initial_document(settings: &Settings, list: &Vec<EdgeEntry>) -> (r: Result<String, Error>)
    ensures
        match settings.problem() {
            Some(e) => r == Err::<String, Error>(e),
            None => if all_fractions(list@) {
                r matches Ok(text) && parsed(text@) == Some(
                    with_edges(with_settings(initial_entries(), *settings), list@),
                )
            } else {
                r == Err::<String, Error>(Error::LayoutInvalid)
            },
        },
{
    let mut document = new_document();
    set_text(&mut document, "certificate", "identity.pem");
    set_text(&mut document, "private_key", "identity.key.pem");
    set_text(&mut document, "peer_certificate", "peer.pem");
    set_text(&mut document, "peer_name", "unpaired");
    proof {
        assert(entries(document) =~= initial_entries());
        reveal_strlit("connection");
        reveal_strlit("certificate");
        reveal_strlit("private_key");
        reveal_strlit("peer_certificate");
        reveal_strlit("peer_name");
        assert("connection"@.len() == 10 && "certificate"@.len() == 11 && "private_key"@.len() == 11
            && "peer_certificate"@.len() == 16 && "peer_name"@.len() == 9);
    }
    match put_settings(&mut document, settings) {
        Err(e) => return Err(e),
        Ok(()) => {},
    }
    if !fractions_written(list) {
        return Err(Error::LayoutInvalid);
    }
    put_edges(&mut document, list);
    Ok(render(&document))
}

/// Changing the settings leaves every other entry of a configuration as it was.
pub proof fn lemma_settings_keep_other_entries(
    found: Map<Seq<char>, Toml>,
    settings: Settings,
    key: Seq<char>,
)
    requires
        key != "connection"@,
        key != "native_touchpads"@,
        key != "activity_devices"@,
    ensures
        with_settings(found, settings).contains_key(key) == found.contains_key(key),
        found.contains_key(key) ==> with_settings(found, settings)[key] == found[key],
{
}

/// Changing the connections leaves every entry but the connections as it was.
pub proof fn lemma_edges_keep_other_entries(
    found: Map<Seq<char>, Toml>,
    list: Seq<EdgeEntry>,
    key: Seq<char>,
)
    requires
        key != "edge"@,
        key != "edges"@,
    ensures
        with_edges(found, list).contains_key(key) == found.contains_key(key),
        found.contains_key(key) ==> with_edges(found, list)[key] == found[key],
{
}

/// Changing the pairing leaves every other entry of a configuration as it was.
pub proof fn lemma_peer_keeps_other_entries(
    found: Map<Seq<char>, Toml>,
    name: Seq<char>,
    key: Seq<char>,
)
    requires
        key != "peer_name"@,
        key != "peer_certificate"@,
    ensures
        with_peer(found, name).contains_key(key) == found.contains_key(key),
        found.contains_key(key) ==> with_peer(found, name)[key] == found[key],
{
}

} // verus!
