//! Compositor metadata. No capture surfaces or input devices are involved.
use crate::error::Error;
use crate::text::{characters, same_characters, same_text, trim};
use vstd::prelude::*;

pub use crate::niri::{LogicalOutput, Mode, Output, Transform};

verus! {

#[derive(Clone, Copy, Debug, PartialEq, Eq, Structural)]
pub enum Kind {
    Niri,
    Kde,
}

/// The compositor that a process of a name is.
pub open spec fn kind_named(name: Seq<char>) -> Option<Kind> {
    if name == "niri"@ {
        Some(Kind::Niri)
    } else if name == "kwin_wayland"@ || name == "kwin_wayland_wr"@ {
        Some(Kind::Kde)
    } else {
        None
    }
}

/// Tells the compositor by the name of the process that owns its socket.
pub fn detect(process_name: &str) -> (r: Result<Kind, Error>)
    ensures
        match kind_named(crate::text::trimmed(process_name@)) {
            Some(kind) => r == Ok::<Kind, Error>(kind),
            None => r == Err::<Kind, Error>(Error::UnsupportedCompositor),
        },
{
    let name = trim(process_name);
    if same_characters(&name, &characters("niri")) {
        Ok(Kind::Niri)
    } else if same_characters(&name, &characters("kwin_wayland")) || same_characters(
        &name,
        &characters("kwin_wayland_wr"),
    ) {
        Ok(Kind::Kde)
    } else {
        Err(Error::UnsupportedCompositor)
    }
}

/// Tells whether the compositor is Niri.
pub fn is_niri(process_name: &str) -> (r: bool)
    ensures
        r == (kind_named(crate::text::trimmed(process_name@)) == Some(Kind::Niri)),
{
    match detect(process_name) {
        Ok(kind) => kind == Kind::Niri,
        Err(_) => false,
    }
}

/// The owner of a compositor's socket must be this user.
pub fn check_owner(pid: i32, own: bool) -> (r: Result<i32, Error>)
    ensures
        r == (if pid > 0 && own {
            Ok::<i32, Error>(pid)
        } else {
            Err::<i32, Error>(Error::ForeignCompositor)
        }),
{
    if pid > 0 && own {
        Ok(pid)
    } else {
        Err(Error::ForeignCompositor)
    }
}

/// A process and its name, where it could be read.
pub struct Process {
    pub pid: i32,
    pub name: Option<String>,
}

/// The process is KWin itself.
pub open spec fn is_kwin(process: Process) -> bool {
    process.name matches Some(name) && crate::text::trimmed(name@) == "kwin_wayland"@
}

/// The first of some processes that is KWin itself.
pub open spec fn first_kwin(list: Seq<Process>) -> Option<i32>
    decreases list.len(),
{
    if list.len() == 0 {
        None
    } else if is_kwin(list[0]) {
        Some(list[0].pid)
    } else {
        first_kwin(list.drop_first())
    }
}

pub fn kwin(process: &Process) -> (r: bool)
    ensures
        r == is_kwin(*process),
{
    match &process.name {
        Some(name) => same_characters(&trim(name.as_str()), &characters("kwin_wayland")),
        None => false,
    }
}

/// The process of the compositor. Niri's own interface must belong to the owner of the socket; the
/// wrapper of KWin owns its socket, and then one of the wrapper's children is KWin.
pub fn compositor_pid(
    kind: Kind,
    owner: &Process,
    niri_pid: Option<i32>,
    children: &Vec<Process>,
) -> (r: Result<i32, Error>)
    ensures
        kind == Kind::Niri ==> r == (if niri_pid == Some(owner.pid) {
            Ok::<i32, Error>(owner.pid)
        } else {
            Err::<i32, Error>(Error::OtherSession)
        }),
        kind == Kind::Kde && is_kwin(*owner) ==> r == Ok::<i32, Error>(owner.pid),
        kind == Kind::Kde && !is_kwin(*owner) ==> match first_kwin(children@) {
            Some(pid) => r == Ok::<i32, Error>(pid),
            None => r == Err::<i32, Error>(Error::KwinNotFound),
        },
{
    match kind {
        Kind::Niri => {
            if niri_pid == Some(owner.pid) {
                return Ok(owner.pid);
            }
            return Err(Error::OtherSession);
        },
        Kind::Kde => {},
    }
    if kwin(owner) {
        return Ok(owner.pid);
    }
    assert(children@.skip(0) == children@);
    for i in 0..children.len()
        invariant
            kind == Kind::Kde,
            !is_kwin(*owner),
            first_kwin(children@) == first_kwin(children@.skip(i as int)),
    {
        assert(children@.skip(i as int).drop_first() == children@.skip(i + 1));
        if kwin(&children[i]) {
            return Ok(children[i].pid);
        }
    }
    Err(Error::KwinNotFound)
}

/// One interface that a compositor offers.
pub struct Global {
    pub name: u32,
    pub interface: String,
    pub version: u32,
}

/// An interface of a name, in a version that is new enough.
pub open spec fn offers(global: Global, interface: Seq<char>, version: u32) -> bool {
    global.interface@ == interface && global.version >= version
}

pub open spec fn first_offer(list: Seq<Global>, interface: Seq<char>, version: u32) -> Option<u32>
    decreases list.len(),
{
    if list.len() == 0 {
        None
    } else if offers(list[0], interface, version) {
        Some(list[0].name)
    } else {
        first_offer(list.drop_first(), interface, version)
    }
}

/// The manager of logical outputs.
pub fn output_manager(list: &Vec<Global>) -> (r: Result<u32, Error>)
    ensures
        match first_offer(list@, "zxdg_output_manager_v1"@, 3) {
            Some(name) => r == Ok::<u32, Error>(name),
            None => r == Err::<u32, Error>(Error::NoOutputManager),
        },
{
    assert(list@.skip(0) == list@);
    for i in 0..list.len()
        invariant
            first_offer(list@, "zxdg_output_manager_v1"@, 3) == first_offer(
                list@.skip(i as int),
                "zxdg_output_manager_v1"@,
                3,
            ),
    {
        assert(list@.skip(i as int).drop_first() == list@.skip(i + 1));
        if same_text(list[i].interface.as_str(), "zxdg_output_manager_v1") && list[i].version >= 3 {
            return Ok(list[i].name);
        }
    }
    Err(Error::NoOutputManager)
}

/// The outputs among the interfaces, in order.
pub open spec fn outputs_among(list: Seq<Global>) -> Seq<u32>
    decreases list.len(),
{
    if list.len() == 0 {
        Seq::empty()
    } else if offers(list.last(), "wl_output"@, 4) {
        outputs_among(list.drop_last()).push(list.last().name)
    } else {
        outputs_among(list.drop_last())
    }
}

pub fn output_names(list: &Vec<Global>) -> (r: Vec<u32>)
    ensures
        r@ == outputs_among(list@),
{
    let mut names: Vec<u32> = Vec::new();
    for i in 0..list.len()
        invariant
            names@ == outputs_among(list@.take(i as int)),
    {
        assert(list@.take(i + 1).drop_last() == list@.take(i as int));
        if same_text(list[i].interface.as_str(), "wl_output") && list[i].version >= 4 {
            names.push(list[i].name);
        }
    }
    assert(list@.take(list@.len() as int) == list@);
    names
}

/// What has been learnt of an output so far.
pub struct Metadata {
    pub name: Option<String>,
    pub position: Option<(i32, i32)>,
    pub size: Option<(i32, i32)>,
    pub mode: Option<Mode>,
    pub transform: Option<Transform>,
}

/// An output of which everything is known. Its scale is `physical_width` divided by `width`.
pub struct KnownOutput {
    pub name: String,
    pub x: i32,
    pub y: i32,
    pub width: u32,
    pub height: u32,
    pub physical_width: u32,
    pub transform: Transform,
    pub mode: Mode,
}

/// The picture is turned by a quarter.
pub open spec fn is_rotated(transform: Transform) -> bool {
    ||| transform == Transform::Rotate90
    ||| transform == Transform::Rotate270
    ||| transform == Transform::Flipped90
    ||| transform == Transform::Flipped270
}

pub fn rotated(transform: Transform) -> (r: bool)
    ensures
        r == is_rotated(transform),
{
    match transform {
        Transform::Rotate90 => true,
        Transform::Rotate270 => true,
        Transform::Flipped90 => true,
        Transform::Flipped270 => true,
        _ => false,
    }
}

impl Metadata {
    pub fn new() -> (r: Metadata)
        ensures
            r == (Metadata { name: None, position: None, size: None, mode: None, transform: None }),
    {
        Metadata { name: None, position: None, size: None, mode: None, transform: None }
    }

    /// Notes a mode: only the current one counts, and only if it is plausible.
    pub fn note_mode(&mut self, current: bool, width: i32, height: i32, refresh: i32)
        ensures
            *final(self) == (if current && width > 0 && height > 0 && refresh >= 0 {
                Metadata {
                    mode: Some(
                        Mode {
                            width: width as u32,
                            height: height as u32,
                            refresh_rate: refresh as u32,
                        },
                    ),
                    ..*old(self)
                }
            } else {
                *old(self)
            }),
    {
        if current && width > 0 && height > 0 && refresh >= 0 {
            self.mode = Some(
                Mode {
                    width: width as u32,
                    height: height as u32,
                    refresh_rate: refresh as u32,
                },
            );
        }
    }

    /// The first thing, in the order of the checks, that is missing or wrong.
    pub open spec fn problem(self) -> Option<Error> {
        if self.name is None {
            Some(Error::OutputNameMissing)
        } else if self.position is None {
            Some(Error::OutputPositionMissing)
        } else if self.size is None {
            Some(Error::OutputSizeMissing)
        } else if !((self.size->0).0 > 0 && (self.size->0).1 > 0) {
            Some(Error::InvalidOutputSize)
        } else if self.mode is None {
            Some(Error::OutputModeMissing)
        } else if self.transform is None {
            Some(Error::OutputTransformMissing)
        } else {
            None
        }
    }

    /// What is known of an output once nothing is missing.
    pub open spec fn completed(self, output: KnownOutput) -> bool {
        &&& self.name matches Some(name) && output.name@ == name@
        &&& self.position == Some((output.x, output.y))
        &&& self.size matches Some(size) && output.width == size.0 && output.height == size.1
        &&& self.mode == Some(output.mode)
        &&& self.transform == Some(output.transform)
        &&& output.physical_width == (if is_rotated(output.transform) {
            output.mode.height
        } else {
            output.mode.width
        })
    }

    pub fn complete(&self) -> (r: Result<KnownOutput, Error>)
        ensures
            match self.problem() {
                Some(e) => r == Err::<KnownOutput, Error>(e),
                None => r is Ok && self.completed(r->Ok_0),
            },
    {
        let name = match &self.name {
            Some(name) => name.clone(),
            None => return Err(Error::OutputNameMissing),
        };
        let (x, y): (i32, i32) = match self.position {
            Some(position) => position,
            None => return Err(Error::OutputPositionMissing),
        };
        let (width, height): (i32, i32) = match self.size {
            Some(size) => size,
            None => return Err(Error::OutputSizeMissing),
        };
        if !(width > 0 && height > 0) {
            return Err(Error::InvalidOutputSize);
        }
        let mode = match self.mode {
            Some(mode) => mode,
            None => return Err(Error::OutputModeMissing),
        };
        let transform = match self.transform {
            Some(transform) => transform,
            None => return Err(Error::OutputTransformMissing),
        };
        let physical_width: u32 = if rotated(transform) {
            mode.height
        } else {
            mode.width
        };
        Ok(
            KnownOutput {
                name,
                x,
                y,
                width: width as u32,
                height: height as u32,
                physical_width,
                transform,
                mode,
            },
        )
    }
}

pub open spec fn first_metadata_problem(list: Seq<Metadata>) -> Option<Error>
    decreases list.len(),
{
    if list.len() == 0 {
        None
    } else if list[0].problem() is Some {
        list[0].problem()
    } else {
        first_metadata_problem(list.drop_first())
    }
}

/// Puts the outputs together; one of which anything is missing makes the whole fail.
pub fn complete_outputs(list: &Vec<Metadata>) -> (r: Result<Vec<KnownOutput>, Error>)
    ensures
        match first_metadata_problem(list@) {
            Some(e) => r == Err::<Vec<KnownOutput>, Error>(e),
            None => r is Ok && r->Ok_0@.len() == list@.len() && forall|i: int|
                0 <= i < list@.len() ==> (#[trigger] list@[i]).completed(r->Ok_0@[i]),
        },
{
    let mut outputs: Vec<KnownOutput> = Vec::new();
    assert(list@.skip(0) == list@);
    for i in 0..list.len()
        invariant
            first_metadata_problem(list@) == first_metadata_problem(list@.skip(i as int)),
            outputs@.len() == i,
            forall|j: int| 0 <= j < i ==> (#[trigger] list@[j]).completed(outputs@[j]),
    {
        assert(list@.skip(i as int).drop_first() == list@.skip(i + 1));
        match list[i].complete() {
            Ok(output) => {
                outputs.push(output);
            },
            Err(e) => return Err(e),
        }
    }
    Ok(outputs)
}

} // verus!
