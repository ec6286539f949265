//! Measures the connection to the other computer; no input is sent.
use crate::error::Error;
use crate::protocol::Message;
use vstd::prelude::*;

verus! {

pub const MAX_MEASUREMENTS: u64 = 1000;

/// The number of measurements that are made.
pub const ROUNDS: u64 = 30;

/// The answer to a message during a measurement, `count` having been answered before.
pub fn answer(message: &Message, count: u64) -> (r: Result<Message, Error>)
    ensures
        match *message {
            Message::Ping { nonce } => if count < MAX_MEASUREMENTS {
                r == Ok::<Message, Error>(Message::Pong { nonce })
            } else {
                r == Err::<Message, Error>(Error::MeasurementLimit)
            },
            _ => r == Err::<Message, Error>(Error::MeasurementsOnly),
        },
{
    match message {
        Message::Ping { nonce } => if count < MAX_MEASUREMENTS {
            Ok(Message::Pong { nonce: *nonce })
        } else {
            Err(Error::MeasurementLimit)
        },
        _ => Err(Error::MeasurementsOnly),
    }
}

/// Accepts the answer to a measurement.
pub fn check_answer(message: &Message, nonce: u64) -> (r: Result<(), Error>)
    ensures
        r == (if *message == (Message::Pong { nonce }) {
            Ok(())
        } else {
            Err::<(), Error>(Error::UnexpectedAnswer)
        }),
{
    match message {
        Message::Pong { nonce: found } => if *found == nonce {
            Ok(())
        } else {
            Err(Error::UnexpectedAnswer)
        },
        _ => Err(Error::UnexpectedAnswer),
    }
}

pub open spec fn ascending_values(s: Seq<u64>) -> bool {
    forall|i: int, j: int| 0 <= i < j < s.len() ==> s[i] <= s[j]
}

fn insert_sorted(list: &mut Vec<u64>, value: u64)
    requires
        ascending_values(old(list)@),
    ensures
        ascending_values(final(list)@),
        final(list)@.to_multiset() == old(list)@.to_multiset().insert(value),
        final(list)@.len() == old(list)@.len() + 1,
{
    let mut at: usize = 0;
    while at < list.len() && list[at] <= value
        invariant
            *list == *old(list),
            at <= list@.len(),
            forall|i: int| 0 <= i < at ==> list@[i] <= value,
        decreases list@.len() - at,
    {
        at = at + 1;
    }
    proof {
        broadcast use vstd::seq_lib::group_to_multiset_ensures;

        assert(list@.insert(at as int, value).to_multiset() =~= list@.to_multiset().insert(value));
    }
    list.insert(at, value);
}

/// Puts measurements in ascending order.
pub fn sorted(values: &Vec<u64>) -> (r: Vec<u64>)
    ensures
        ascending_values(r@),
        r@.to_multiset() == values@.to_multiset(),
        r@.len() == values@.len(),
{
    let mut list: Vec<u64> = Vec::new();
    proof {
        broadcast use vstd::seq_lib::group_to_multiset_ensures;

        assert(values@.take(0) =~= Seq::<u64>::empty());
        assert(list@ =~= Seq::<u64>::empty());
    }
    for i in 0..values.len()
        invariant
            ascending_values(list@),
            list@.len() == i,
            list@.to_multiset() == values@.take(i as int).to_multiset(),
    {
        insert_sorted(&mut list, values[i]);
        proof {
            broadcast use vstd::seq_lib::group_to_multiset_ensures;

            assert(values@.take(i + 1) == values@.take(i as int).push(values@[i as int]));
        }
    }
    assert(values@.take(values@.len() as int) == values@);
    list
}

/// The median and the largest of some measurements.
#[derive(Clone, Copy, PartialEq, Eq, Structural)]
pub struct Summary {
    pub count: usize,
    pub median: u64,
    pub largest: u64,
}

/// Some ordering of the measurements has this median and this largest value.
pub open spec fn summarizes(summary: Summary, values: Seq<u64>) -> bool {
    exists|order: Seq<u64>|
        {
            &&& #[trigger] ascending_values(order)
            &&& order.to_multiset() == values.to_multiset()
            &&& order.len() == values.len()
            &&& summary.count == values.len()
            &&& summary.median == order[(values.len() / 2) as int]
            &&& summary.largest == order.last()
        }
}

/// Summarizes measurements; nothing when there are none.
pub fn summarize(values: &Vec<u64>) -> (r: Option<Summary>)
    ensures
        values@.len() == 0 ==> r is None,
        values@.len() > 0 ==> (r matches Some(summary) && summarizes(summary, values@)),
{
    if values.len() == 0 {
        return None;
    }
    let order = sorted(values);
    let count: usize = order.len();
    let summary = Summary { count, median: order[count / 2], largest: order[count - 1] };
    assert(ascending_values(order@));
    Some(summary)
}

} // verus!
