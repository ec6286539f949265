//! Whether the graphical session allows sharing. An unknown state does not.
use crate::error::Error;
use crate::text::same_text;
use vstd::prelude::*;

verus! {

#[derive(Clone, Copy, Debug, PartialEq, Eq, Structural)]
pub enum Status {
    Unknown,
    Unlocked,
    Unavailable,
}

/// What the login manager says of a session.
pub struct SessionFacts {
    pub kind: String,
    pub own: bool,
    pub active: bool,
    pub locked: bool,
}

/// The status of this user's Wayland session; any other session is refused.
pub fn read_status(facts: &SessionFacts) -> (r: Result<Status, Error>)
    ensures
        r == (if !(facts.kind@ == "wayland"@ && facts.own) {
            Err::<Status, Error>(Error::ForeignSession)
        } else if facts.active && !facts.locked {
            Ok(Status::Unlocked)
        } else {
            Ok(Status::Unavailable)
        }),
{
    if !(same_text(facts.kind.as_str(), "wayland") && facts.own) {
        return Err(Error::ForeignSession);
    }
    if facts.active && !facts.locked {
        Ok(Status::Unlocked)
    } else {
        Ok(Status::Unavailable)
    }
}

/// Only a change is announced.
pub fn announce(current: &mut Status, status: Status) -> (r: bool)
    ensures
        r == (*old(current) != status),
        *final(current) == status,
{
    if *current == status {
        return false;
    }
    *current = status;
    true
}

/// The state is known.
pub fn is_known(status: Status) -> (r: bool)
    ensures
        r == (status != Status::Unknown),
{
    status != Status::Unknown
}

/// Input may be shared.
pub fn is_unlocked(status: Status) -> (r: bool)
    ensures
        r == (status == Status::Unlocked),
{
    status == Status::Unlocked
}

} // verus!
