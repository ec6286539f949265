//! The devices that a desktop offers for emulated input.
use crate::error::Error;
use vstd::prelude::*;

verus! {

pub const POINTER: i32 = 1;

pub const ABSOLUTE: i32 = 2;

pub const SCROLL: i32 = 16;

pub const BUTTON: i32 = 32;

/// A device, by the address that the desktop's library knows it by.
#[derive(Clone, Copy, PartialEq, Eq, Structural)]
pub struct Device {
    pub address: u64,
    pub active: bool,
}

/// What an event of the desktop's library asks for.
#[derive(Clone, Copy, PartialEq, Eq, Structural)]
pub enum Step {
    Nothing,
    BindSeat,
    /// Keep a reference to the new device.
    Keep,
    /// Give up the references to a device.
    Forget,
    StartEmulating,
}

/// The devices, and whether the desktop has withdrawn its permission.
pub struct Devices {
    pub list: Vec<Device>,
    pub disconnected: bool,
}

/// The index of the first device at an address.
pub open spec fn index_of(list: Seq<Device>, address: u64) -> Option<int>
    decreases list.len(),
{
    if list.len() == 0 {
        None
    } else if list[0].address == address {
        Some(0)
    } else {
        match index_of(list.drop_first(), address) {
            Some(i) => Some(i + 1),
            None => None,
        }
    }
}

/// The list with the first device at an address made active or not.
pub open spec fn with_state(list: Seq<Device>, address: u64, active: bool) -> Seq<Device> {
    match index_of(list, address) {
        Some(i) => list.update(i, Device { active, ..list[i] }),
        None => list,
    }
}

/// The list without the devices at an address.
pub open spec fn without(list: Seq<Device>, address: u64) -> Seq<Device> {
    list.filter(|device: Device| device.address != address)
}

impl Devices {
    pub fn new() -> (r: Devices)
        ensures
            r.list@.len() == 0,
            !r.disconnected,
    {
        Devices { list: Vec::new(), disconnected: false }
    }

    fn find(&self, address: u64) -> (r: Option<usize>)
        ensures
            match index_of(self.list@, address) {
                Some(i) => r matches Some(k) && k == i,
                None => r is None,
            },
            r matches Some(k) ==> k < self.list@.len(),
    {
        assert(self.list@.skip(0) == self.list@);
        for i in 0..self.list.len()
            invariant
                index_of(self.list@, address) == (match index_of(
                    self.list@.skip(i as int),
                    address,
                ) {
                    Some(k) => Some(k + i),
                    None => None,
                }),
        {
            assert(self.list@.skip(i as int).drop_first() == self.list@.skip(i + 1));
            if self.list[i].address == address {
                return Some(i);
            }
        }
        None
    }

    fn drop_all(&mut self, address: u64)
        ensures
            final(self).list@ == without(old(self).list@, address),
            final(self).disconnected == old(self).disconnected,
    {
        let ghost keep = |device: Device| device.address != address;
        let mut kept: Vec<Device> = Vec::new();
        proof {
            reveal(Seq::filter);
            assert(kept@ =~= self.list@.take(0).filter(keep));
        }
        for i in 0..self.list.len()
            invariant
                self.list == old(self).list,
                self.disconnected == old(self).disconnected,
                keep == |device: Device| device.address != address,
                kept@ == self.list@.take(i as int).filter(keep),
        {
            proof {
                reveal(Seq::filter);
                assert(self.list@.take(i + 1).drop_last() == self.list@.take(i as int));
            }
            if self.list[i].address != address {
                kept.push(self.list[i]);
            }
        }
        assert(self.list@.take(self.list@.len() as int) == self.list@);
        self.list = kept;
    }

    /// The list after an event of the desktop's library.
    pub open spec fn list_after(self, kind: i32, address: u64) -> Seq<Device> {
        if kind == 5 && address != 0 {
            self.list@.push(Device { address, active: false })
        } else if kind == 6 {
            without(self.list@, address)
        } else if kind == 7 {
            with_state(self.list@, address, false)
        } else if kind == 8 {
            with_state(self.list@, address, true)
        } else {
            self.list@
        }
    }

    /// Takes an event over: two is the end of the permission, three a seat, five to eight a device
    /// that was added, removed, paused or resumed.
    pub fn on_event(&mut self, kind: i32, address: u64) -> (r: Step)
        ensures
            final(self).list@ == old(self).list_after(kind, address),
            final(self).disconnected == (old(self).disconnected || kind == 2),
            r == (if kind == 3 {
                Step::BindSeat
            } else if kind == 5 && address != 0 {
                Step::Keep
            } else if kind == 6 {
                Step::Forget
            } else if kind == 8 && index_of(old(self).list@, address) is Some {
                Step::StartEmulating
            } else {
                Step::Nothing
            }),
    {
        if kind == 2 {
            self.disconnected = true;
            return Step::Nothing;
        }
        if kind == 3 {
            return Step::BindSeat;
        }
        if kind == 5 && address != 0 {
            self.list.push(Device { address, active: false });
            return Step::Keep;
        }
        if kind == 6 {
            self.drop_all(address);
            return Step::Forget;
        }
        if kind == 7 || kind == 8 {
            match self.find(address) {
                Some(i) => {
                    let device: Device = self.list[i];
                    self.list.set(i, Device { active: kind == 8, ..device });
                    if kind == 8 {
                        return Step::StartEmulating;
                    }
                },
                None => {},
            }
        }
        Step::Nothing
    }

    /// The permission is still there.
    pub fn check(&self) -> (r: Result<(), Error>)
        ensures
            r == (if self.disconnected {
                Err::<(), Error>(Error::DesktopInputEnded)
            } else {
                Ok(())
            }),
    {
        if self.disconnected {
            Err(Error::DesktopInputEnded)
        } else {
            Ok(())
        }
    }

    /// The first device that is active and capable, if there is one.
    pub open spec fn first_active(self, capable: Seq<bool>, from: int) -> Option<u64>
        decreases self.list@.len() - from,
    {
        if from < 0 || from >= self.list@.len() {
            None
        } else if self.list@[from].active && capable[from] {
            Some(self.list@[from].address)
        } else {
            self.first_active(capable, from + 1)
        }
    }

    /// Chooses the device for an event; `capable` says of each device whether it can do it.
    pub fn device(&self, capable: &Vec<bool>) -> (r: Result<u64, Error>)
        requires
            capable@.len() == self.list@.len(),
        ensures
            match self.first_active(capable@, 0) {
                Some(address) => r == Ok::<u64, Error>(address),
                None => r == Err::<u64, Error>(Error::DesktopInputPaused),
            },
    {
        for i in 0..self.list.len()
            invariant
                capable@.len() == self.list@.len(),
                self.first_active(capable@, 0) == self.first_active(capable@, i as int),
        {
            if self.list[i].active && capable[i] {
                return Ok(self.list[i].address);
            }
        }
        Err(Error::DesktopInputPaused)
    }
}

/// A position lies on its output.
pub fn check_point(x: u32, y: u32, width: u32, height: u32) -> (r: Result<(), Error>)
    ensures
        r == (if x < width && y < height {
            Ok(())
        } else {
            Err::<(), Error>(Error::InvalidPoint)
        }),
{
    if width > 0 && height > 0 && x < width && y < height {
        Ok(())
    } else {
        Err(Error::InvalidPoint)
    }
}

} // verus!
