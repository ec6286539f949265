//! What the Niri compositor reports of its outputs.
use crate::error::Error;
use crate::number::Binary64;
use crate::text::same_text;
use vstd::prelude::*;

verus! {

/// The largest reply that is read.
pub const RESPONSE_LIMIT: u64 = 1_048_576;

#[derive(Debug, Clone, Copy, PartialEq, Eq, Structural)]
pub enum Transform {
    Normal,
    Rotate90,
    Rotate180,
    Rotate270,
    Flipped,
    Flipped90,
    Flipped180,
    Flipped270,
}

/// The position and size of an output in logical pixels.
#[derive(Debug, Clone, Copy, PartialEq, Eq, Structural)]
pub struct LogicalOutput {
    pub x: i32,
    pub y: i32,
    pub width: u32,
    pub height: u32,
    pub scale: Binary64,
    pub transform: Transform,
}

#[derive(Debug, Clone, Copy, PartialEq, Eq, Structural)]
pub struct Mode {
    pub width: u32,
    pub height: u32,
    pub refresh_rate: u32,
}

/// The part of an output's metadata that is needed for geometry.
pub struct Output {
    pub name: String,
    pub logical: Option<LogicalOutput>,
    pub current_mode: Option<usize>,
    pub modes: Vec<Mode>,
}

/// An output that is in use.
pub struct ActiveOutput {
    pub name: String,
    pub logical: LogicalOutput,
}

impl Clone for ActiveOutput {
    fn clone(&self) -> (r: ActiveOutput)
        ensures
            r == *self,
    {
        ActiveOutput { name: self.name.clone(), logical: self.logical }
    }
}

/// The outputs in use, in order.
pub open spec fn active_of(outputs: Seq<Output>) -> Seq<ActiveOutput>
    decreases outputs.len(),
{
    if outputs.len() == 0 {
        Seq::empty()
    } else {
        let before = active_of(outputs.drop_last());
        match outputs.last().logical {
            Some(logical) => before.push(ActiveOutput { name: outputs.last().name, logical }),
            None => before,
        }
    }
}

pub fn active_outputs(outputs: &Vec<Output>) -> (r: Vec<ActiveOutput>)
    ensures
        r@ == active_of(outputs@),
{
    let mut list: Vec<ActiveOutput> = Vec::new();
    for i in 0..outputs.len()
        invariant
            list@ == active_of(outputs@.take(i as int)),
    {
        assert(outputs@.take(i + 1).drop_last() == outputs@.take(i as int));
        match outputs[i].logical {
            Some(logical) => {
                list.push(ActiveOutput { name: outputs[i].name.clone(), logical });
            },
            None => {},
        }
    }
    assert(outputs@.take(outputs@.len() as int) == outputs@);
    list
}

/// An output of a name is in use.
pub open spec fn in_use(outputs: Seq<ActiveOutput>, name: Seq<char>) -> bool {
    exists|i: int| 0 <= i < outputs.len() && (#[trigger] outputs[i]).name@ == name
}

/// The first output in use that has a name.
pub open spec fn lookup(outputs: Seq<ActiveOutput>, name: Seq<char>) -> Option<LogicalOutput>
    decreases outputs.len(),
{
    if outputs.len() == 0 {
        None
    } else if outputs[0].name@ == name {
        Some(outputs[0].logical)
    } else {
        lookup(outputs.drop_first(), name)
    }
}

pub fn find_output(outputs: &Vec<ActiveOutput>, name: &str) -> (r: Option<LogicalOutput>)
    ensures
        r == lookup(outputs@, name@),
        r is Some <==> in_use(outputs@, name@),
{
    assert(outputs@.skip(0) == outputs@);
    for i in 0..outputs.len()
        invariant
            forall|j: int| 0 <= j < i ==> (#[trigger] outputs@[j]).name@ != name@,
            lookup(outputs@, name@) == lookup(outputs@.skip(i as int), name@),
    {
        assert(outputs@.skip(i as int).drop_first() == outputs@.skip(i + 1));
        if same_text(outputs[i].name.as_str(), name) {
            assert(outputs@[i as int].name@ == name@);
            return Some(outputs[i].logical);
        }
    }
    None
}

/// Two lists of outputs in use are the same, name by name.
pub open spec fn same_active(a: Seq<ActiveOutput>, b: Seq<ActiveOutput>) -> bool {
    &&& a.len() == b.len()
    &&& forall|i: int|
        0 <= i < a.len() ==> (#[trigger] a[i]).name@ == b[i].name@ && a[i].logical == b[i].logical
}

pub fn same_outputs(a: &Vec<ActiveOutput>, b: &Vec<ActiveOutput>) -> (r: bool)
    ensures
        r == same_active(a@, b@),
{
    if a.len() != b.len() {
        return false;
    }
    for i in 0..a.len()
        invariant
            a@.len() == b@.len(),
            forall|j: int|
                0 <= j < i ==> (#[trigger] a@[j]).name@ == b@[j].name@ && a@[j].logical
                    == b@[j].logical,
    {
        if !(a[i].name == b[i].name && a[i].logical == b[i].logical) {
            assert(!(a@[i as int].name@ == b@[i as int].name@ && a@[i as int].logical
                == b@[i as int].logical));
            return false;
        }
    }
    true
}

/// One member of a JSON object: its name and its value as JSON text.
pub struct Member {
    pub name: String,
    pub value: String,
}

pub open spec fn member_views(members: Seq<Member>) -> Seq<(Seq<char>, Seq<char>)> {
    members.map_values(|m: Member| (m.name@, m.value@))
}

/// The members of the JSON object that a text holds, each with its value printed as JSON; nothing
/// when the text is no JSON, and no members when it is JSON but no object.
pub uninterp spec fn json_members(text: Seq<char>) -> Option<Seq<(Seq<char>, Seq<char>)>>;

/// Parses a text with `serde_json::from_str` and takes the object apart. The parser depends on
/// the text alone, so the members are a function of it.
#[verifier::external_body]
fn parse_members(text: &str) -> (r: Result<Vec<Member>, Error>)
    ensures
        match json_members(text@) {
            Some(members) => r matches Ok(list) && member_views(list@) == members,
            None => r == Err::<Vec<Member>, Error>(Error::InvalidReply),
        },
{
    let value: serde_json::Value = serde_json::from_str(text).map_err(|_| Error::InvalidReply)?;
    Ok(match value {
        serde_json::Value::Object(object) => object.into_iter().map(
            |(name, value)| Member { name, value: value.to_string() },
        ).collect(),
        _ => Vec::new(),
    })
}

/// The value of the first member with a name.
pub open spec fn member_value(members: Seq<(Seq<char>, Seq<char>)>, name: Seq<char>) -> Option<Seq<char>>
    decreases members.len(),
{
    if members.len() == 0 {
        None
    } else if members[0].0 == name {
        Some(members[0].1)
    } else {
        member_value(members.drop_first(), name)
    }
}

/// Finds a member of an object.
pub fn find_member(members: &Vec<Member>, name: &str) -> (r: Option<String>)
    ensures
        match member_value(member_views(members@), name@) {
            Some(value) => r matches Some(text) && text@ == value,
            None => r is None,
        },
{
    let ghost all = member_views(members@);
    assert(all.skip(0) == all);
    for i in 0..members.len()
        invariant
            all == member_views(members@),
            member_value(all, name@) == member_value(all.skip(i as int), name@),
    {
        assert(all.skip(i as int).drop_first() == all.skip(i + 1));
        assert(all.skip(i as int)[0] == all[i as int]);
        if same_text(members[i].name.as_str(), name) {
            return Some(members[i].value.clone());
        }
    }
    None
}

/// The items of the JSON array that a text holds, each printed as JSON; nothing when it holds none.
pub uninterp spec fn json_items(text: Seq<char>) -> Option<Seq<Seq<char>>>;

/// Parses an array with `serde_json::from_str::<Vec<Value>>` and prints its items. That depends on
/// the text alone.
#[verifier::external_body]
pub(crate) fn parse_items(text: &str) -> (r: Option<Vec<String>>)
    ensures
        match json_items(text@) {
            Some(items) => r is Some && crate::text::string_views(r->0@) == items,
            None => r is None,
        },
{
    let items: Vec<serde_json::Value> = serde_json::from_str(text).ok()?;
    Some(items.iter().map(|item| item.to_string()).collect())
}

/// The string that a JSON text holds; nothing when it holds none.
pub uninterp spec fn json_string(text: Seq<char>) -> Option<Seq<char>>;

/// Parses a string with `serde_json::from_str::<String>`. That depends on the text alone.
#[verifier::external_body]
pub(crate) fn parse_string(text: &str) -> (r: Option<String>)
    ensures
        match json_string(text@) {
            Some(found) => r is Some && r->0@ == found,
            None => r is None,
        },
{
    serde_json::from_str(text).ok()
}

/// The number that a JSON text holds; nothing when it is none, or does not fit.
pub uninterp spec fn json_number(text: Seq<char>) -> Option<u64>;

/// Parses a number with `serde_json::from_str::<u64>`. That depends on the text alone.
#[verifier::external_body]
pub(crate) fn parse_unsigned(text: &str) -> (r: Option<u64>)
    ensures
        r == json_number(text@),
{
    serde_json::from_str(text).ok()
}

/// The truth value that a JSON text holds; nothing when it holds none.
pub uninterp spec fn json_flag(text: Seq<char>) -> Option<bool>;

/// Parses a truth value with `serde_json::from_str::<bool>`. That depends on the text alone.
#[verifier::external_body]
pub(crate) fn parse_flag(text: &str) -> (r: Option<bool>)
    ensures
        r == json_flag(text@),
{
    serde_json::from_str(text).ok()
}

/// The value of a member of the object that a text holds.
pub open spec fn member_in(text: Seq<char>, name: Seq<char>) -> Option<Seq<char>> {
    match json_members(text) {
        Some(members) => member_value(members, name),
        None => None,
    }
}

pub(crate) fn member(text: &str, name: &str) -> (r: Option<String>)
    ensures
        match member_in(text@, name@) {
            Some(value) => r matches Some(found) && found@ == value,
            None => r is None,
        },
{
    match parse_members(text) {
        Ok(members) => find_member(&members, name),
        Err(_) => None,
    }
}

/// The version of the compositor, in its answer to the request for it.
pub fn version_of(answer: &str) -> (r: Option<String>)
    ensures
        match member_in(answer@, "Version"@) {
            Some(value) => match json_string(value) {
                Some(version) => r matches Some(text) && text@ == version,
                None => r is None,
            },
            None => r is None,
        },
{
    match member(answer, "Version") {
        Some(value) => parse_string(value.as_str()),
        None => None,
    }
}

/// Takes a successful answer out of a reply, as JSON text. The contents of a refusal are not
/// passed on: they may hold private details.
pub fn decode_reply(reply: &str) -> (r: Result<String, Error>)
    ensures
        match json_members(reply@) {
            None => r == Err::<String, Error>(Error::InvalidReply),
            Some(members) => match member_value(members, "Ok"@) {
                Some(value) => r matches Ok(text) && text@ == value,
                None => r == Err::<String, Error>(Error::NiriRejected),
            },
        },
{
    match parse_members(reply) {
        Err(e) => Err(e),
        Ok(members) => answer(&members),
    }
}

/// The successful answer among the members of a reply.
pub fn answer(members: &Vec<Member>) -> (r: Result<String, Error>)
    ensures
        match member_value(member_views(members@), "Ok"@) {
            Some(value) => r matches Ok(text) && text@ == value,
            None => r == Err::<String, Error>(Error::NiriRejected),
        },
{
    match find_member(members, "Ok") {
        Some(value) => Ok(value),
        None => Err(Error::NiriRejected),
    }
}

/// Takes a successful answer out of what was read from the compositor's socket. A reply that was
/// cut off has no line end.
pub fn accept_reply(reply: &str) -> (r: Result<String, Error>)
    ensures
        reply@.len() == 0 || reply@.last() != '\n' ==> r == Err::<String, Error>(
            Error::IncompleteReply,
        ),
        reply@.len() > 0 && reply@.last() == '\n' ==> match json_members(reply@) {
            None => r == Err::<String, Error>(Error::InvalidReply),
            Some(members) => match member_value(members, "Ok"@) {
                Some(value) => r matches Ok(text) && text@ == value,
                None => r == Err::<String, Error>(Error::NiriRejected),
            },
        },
{
    let list = crate::text::characters(reply);
    if list.len() == 0 || list[list.len() - 1] != '\n' {
        return Err(Error::IncompleteReply);
    }
    decode_reply(reply)
}

/// Takes the outputs, as JSON text, out of a successful answer.
pub fn outputs_of(answer: &str) -> (r: Result<String, Error>)
    ensures
        match json_members(answer@) {
            None => r == Err::<String, Error>(Error::InvalidReply),
            Some(members) => match member_value(members, "Outputs"@) {
                Some(value) => r matches Ok(text) && text@ == value,
                None => r == Err::<String, Error>(Error::NoOutputs),
            },
        },
{
    match parse_members(answer) {
        Err(e) => Err(e),
        Ok(members) => match find_member(&members, "Outputs") {
            Some(value) => Ok(value),
            None => Err(Error::NoOutputs),
        },
    }
}

} // verus!
