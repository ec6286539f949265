//! The permission to emulate a pointer, as far as it is decided here.
use crate::error::Error;
use crate::text::{characters, decimal, from_characters};
use vstd::prelude::*;
use vstd::string::*;

verus! {

/// The device type that stands for a pointer.
pub const POINTER_DEVICE: u32 = 2;

/// A connection's name as it stands in a path: without colons in front, dots as underscores.
pub open spec fn path_name(sender: Seq<char>) -> Seq<char> {
    let bare = without_colons(sender);
    bare.map_values(
        |c: char|
            if c == '.' {
                '_'
            } else {
                c
            },
    )
}

pub open spec fn without_colons(text: Seq<char>) -> Seq<char>
    decreases text.len(),
{
    if text.len() > 0 && text[0] == ':' {
        without_colons(text.drop_first())
    } else {
        text
    }
}

fn sender_name(sender: &str) -> (r: String)
    ensures
        r@ == path_name(sender@),
{
    let list = characters(sender);
    let mut start: usize = 0;
    assert(list@.skip(0) == list@);
    while start < list.len() && list[start] == ':'
        invariant
            list@ == sender@,
            start <= list@.len(),
            without_colons(sender@) == without_colons(list@.skip(start as int)),
        decreases list@.len() - start,
    {
        assert(list@.skip(start as int).drop_first() == list@.skip(start + 1));
        start = start + 1;
    }
    let ghost bare = list@.skip(start as int);
    assert(without_colons(sender@) == bare);
    let mut name: Vec<char> = Vec::new();
    for i in start..list.len()
        invariant
            bare == list@.skip(start as int),
            start <= list@.len(),
            name@.len() == i - start,
            forall|j: int|
                0 <= j < i - start ==> #[trigger] name@[j] == (if bare[j] == '.' {
                    '_'
                } else {
                    bare[j]
                }),
    {
        let c: char = list[i];
        assert(bare[i - start] == c);
        name.push(if c == '.' {
            '_'
        } else {
            c
        });
    }
    assert(name@ =~= path_name(sender@));
    from_characters(&name)
}

/// The token of a request: this program, its process and what the request is for.
pub fn request_token(pid: u32, suffix: &str) -> (r: String)
    ensures
        r@ == "niribridge_"@ + crate::text::decimal_of(pid as nat) + "_"@ + suffix@,
{
    let mut token = "niribridge_".to_owned();
    token.append(decimal(pid as u64).as_str());
    token.append("_");
    token.append(suffix);
    token
}

/// The token of a session: this program and its process.
pub fn session_token(pid: u32) -> (r: String)
    ensures
        r@ == "niribridge_"@ + crate::text::decimal_of(pid as nat),
{
    let mut token = "niribridge_".to_owned();
    token.append(decimal(pid as u64).as_str());
    token
}

/// The path under which a request is answered.
pub fn request_path(sender: &str, token: &str) -> (r: String)
    ensures
        r@ == "/org/freedesktop/portal/desktop/request/"@ + path_name(sender@) + "/"@ + token@,
{
    let mut path = "/org/freedesktop/portal/desktop/request/".to_owned();
    path.append(sender_name(sender).as_str());
    path.append("/");
    path.append(token);
    path
}

/// Accepts the answer to a request: under the path that was asked for, and with consent.
pub fn check_response(expected: &str, returned: &str, code: u32) -> (r: Result<(), Error>)
    ensures
        r == (if returned@ != expected@ {
            Err::<(), Error>(Error::PortalPathUnexpected)
        } else if code != 0 {
            Err::<(), Error>(Error::PortalDenied)
        } else {
            Ok(())
        }),
{
    if !crate::text::same_text(returned, expected) {
        return Err(Error::PortalPathUnexpected);
    }
    if code != 0 {
        return Err(Error::PortalDenied);
    }
    Ok(())
}

/// Accepts the granted device types if a pointer is among them.
pub fn check_granted(granted: u32) -> (r: Result<(), Error>)
    ensures
        r == (if granted & POINTER_DEVICE != 0 {
            Ok(())
        } else {
            Err::<(), Error>(Error::PointerNotGranted)
        }),
{
    if granted & POINTER_DEVICE != 0 {
        Ok(())
    } else {
        Err(Error::PointerNotGranted)
    }
}

} // verus!
