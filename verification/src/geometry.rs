//! Screens, their edges, and the spans of edges that connect two computers.
use crate::error::Error;
use crate::number::Binary64;
use crate::text::{is_blank, same_text};
use vstd::prelude::*;

verus! {

/// A screen area in logical pixels.
#[derive(Debug, Clone, Copy, PartialEq, Eq, Structural)]
pub struct Rect {
    pub x: Binary64,
    pub y: Binary64,
    pub width: Binary64,
    pub height: Binary64,
}

impl Rect {
    /// Every corner has finite coordinates.
    pub open spec fn bounded(self) -> bool {
        &&& self.x.finite()
        &&& self.y.finite()
        &&& self.width.finite()
        &&& self.height.finite()
        &&& self.x.sum_finite(self.width)
        &&& self.y.sum_finite(self.height)
    }

    pub open spec fn valid(self) -> bool {
        &&& self.bounded()
        &&& self.width.units() >= Binary64::one().units()
        &&& self.height.units() >= Binary64::one().units()
    }

    pub open spec fn problem(self) -> Option<Error> {
        if !self.bounded() {
            Some(Error::InfiniteCoordinates)
        } else if !self.valid() {
            Some(Error::ScreenTooSmall)
        } else {
            None
        }
    }

    pub fn validate(self) -> (r: Result<(), Error>)
        ensures
            r is Ok <==> self.valid(),
            match self.problem() {
                Some(e) => r == Err::<(), Error>(e),
                None => r is Ok,
            },
    {
        if !(self.x.is_finite() && self.y.is_finite() && self.width.is_finite()
            && self.height.is_finite() && self.x.sum_is_finite(self.width) && self.y.sum_is_finite(
            self.height,
        )) {
            return Err(Error::InfiniteCoordinates);
        }
        if !(Binary64::one().at_most(self.width) && Binary64::one().at_most(self.height)) {
            return Err(Error::ScreenTooSmall);
        }
        Ok(())
    }
}

#[derive(Debug, Clone, Copy, PartialEq, Eq, Structural)]
pub enum Edge {
    Top,
    Bottom,
    Left,
    Right,
}

impl Edge {
    pub open spec fn name(self) -> Seq<char> {
        match self {
            Edge::Top => "top"@,
            Edge::Bottom => "bottom"@,
            Edge::Left => "left"@,
            Edge::Right => "right"@,
        }
    }

    pub fn as_str(self) -> (r: &'static str)
        ensures
            r@ == self.name(),
    {
        match self {
            Edge::Top => "top",
            Edge::Bottom => "bottom",
            Edge::Left => "left",
            Edge::Right => "right",
        }
    }

    /// The edge with a name.
    pub fn from_name(name: &str) -> (r: Option<Edge>)
        ensures
            r matches Some(edge) ==> edge.name() == name@,
            r is None ==> forall|edge: Edge| #[trigger] edge.name() != name@,
    {
        if same_text(name, "top") {
            Some(Edge::Top)
        } else if same_text(name, "bottom") {
            Some(Edge::Bottom)
        } else if same_text(name, "left") {
            Some(Edge::Left)
        } else if same_text(name, "right") {
            Some(Edge::Right)
        } else {
            None
        }
    }
}

/// Two edges have different names.
pub proof fn lemma_edge_names_differ(a: Edge, b: Edge)
    requires
        a.name() == b.name(),
    ensures
        a == b,
{
    reveal_strlit("top");
    reveal_strlit("bottom");
    reveal_strlit("left");
    reveal_strlit("right");
    assert("top"@.len() == 3 && "left"@.len() == 4 && "right"@.len() == 5 && "bottom"@.len() == 6);
}

/// The part of a screen edge through which the pointer crosses, as fractions of its length.
#[derive(Debug, Clone, Copy, PartialEq, Eq, Structural)]
pub struct Boundary {
    pub edge: Edge,
    pub start: Binary64,
    pub end: Binary64,
}

impl Boundary {
    pub open spec fn valid(self) -> bool {
        &&& self.start.finite()
        &&& self.end.finite()
        &&& 0 <= self.start.units() < self.end.units() <= Binary64::one().units()
    }

    pub fn validate(self) -> (r: Result<(), Error>)
        ensures
            r == (if self.valid() {
                Ok(())
            } else {
                Err::<(), Error>(Error::InvalidBoundary)
            }),
    {
        proof {
            crate::number::lemma_constants();
        }
        if self.start.is_finite() && self.end.is_finite() && Binary64::zero().at_most(self.start)
            && self.end.at_most(Binary64::one()) && self.start.less_than(self.end) {
            Ok(())
        } else {
            Err(Error::InvalidBoundary)
        }
    }

    /// Why a position of the pointer cannot be placed on the span: the first reason, in the order
    /// of the checks.
    pub open spec fn crossing_problem(self, rect: Rect, x: Binary64, y: Binary64) -> Option<Error> {
        if !self.valid() {
            Some(Error::InvalidBoundary)
        } else if rect.problem() is Some {
            rect.problem()
        } else if !(x.finite() && y.finite()) {
            Some(Error::PointerNotFinite)
        } else {
            None
        }
    }

    pub fn check_crossing(self, rect: Rect, x: Binary64, y: Binary64) -> (r: Result<(), Error>)
        ensures
            match self.crossing_problem(rect, x, y) {
                Some(e) => r == Err::<(), Error>(e),
                None => r is Ok,
            },
    {
        match self.validate() {
            Err(e) => return Err(e),
            Ok(()) => {},
        }
        match rect.validate() {
            Err(e) => return Err(e),
            Ok(()) => {},
        }
        if !(x.is_finite() && y.is_finite()) {
            return Err(Error::PointerNotFinite);
        }
        Ok(())
    }

    /// Why the pointer cannot be placed on a screen behind the span: the first reason, in the
    /// order of the checks.
    pub open spec fn entry_problem(self, rect: Rect, fraction: Binary64, inset: Binary64) -> Option<Error> {
        if !self.valid() {
            Some(Error::InvalidBoundary)
        } else if rect.problem() is Some {
            rect.problem()
        } else if !fraction.within(Binary64::zero(), Binary64::one()) {
            Some(Error::InvalidFraction)
        } else if !(inset.finite() && inset.units() > 0) {
            Some(Error::InvalidInset)
        } else {
            None
        }
    }

    pub fn check_entry(self, rect: Rect, fraction: Binary64, inset: Binary64) -> (r: Result<(), Error>)
        ensures
            match self.entry_problem(rect, fraction, inset) {
                Some(e) => r == Err::<(), Error>(e),
                None => r is Ok,
            },
    {
        proof {
            crate::number::lemma_constants();
        }
        match self.validate() {
            Err(e) => return Err(e),
            Ok(()) => {},
        }
        match rect.validate() {
            Err(e) => return Err(e),
            Ok(()) => {},
        }
        if !fraction.is_within(Binary64::zero(), Binary64::one()) {
            return Err(Error::InvalidFraction);
        }
        if !(inset.is_finite() && Binary64::zero().less_than(inset)) {
            return Err(Error::InvalidInset);
        }
        Ok(())
    }
}

pub struct Screen {
    pub device: String,
    pub output: String,
    pub rect: Rect,
}

pub struct Endpoint {
    pub device: String,
    pub output: String,
    pub boundary: Boundary,
}

pub struct Link {
    pub a: Endpoint,
    pub b: Endpoint,
}

/// Screens of several devices and the link between two of them.
pub struct Layout {
    pub screens: Vec<Screen>,
    pub link: Link,
}

/// A screen of a device is listed.
pub open spec fn lists(screens: Seq<Screen>, device: Seq<char>, output: Seq<char>) -> bool {
    exists|i: int|
        0 <= i < screens.len() && (#[trigger] screens[i]).device@ == device && screens[i].output@
            == output
}

/// What is wrong with the screen at an index, the screens before it being in order.
pub open spec fn screen_problem(screens: Seq<Screen>, index: int) -> Option<Error> {
    let screen = screens[index];
    if crate::text::blank(screen.device@) || crate::text::blank(screen.output@) {
        Some(Error::EmptyScreenName)
    } else if screen.rect.problem() is Some {
        screen.rect.problem()
    } else if lists(screens.take(index), screen.device@, screen.output@) {
        Some(Error::DuplicateScreen)
    } else {
        None
    }
}

pub open spec fn first_screen_problem(screens: Seq<Screen>, from: int) -> Option<Error>
    decreases screens.len() - from,
{
    if from < 0 || from >= screens.len() {
        None
    } else if screen_problem(screens, from) is Some {
        screen_problem(screens, from)
    } else {
        first_screen_problem(screens, from + 1)
    }
}

impl Layout {
    pub open spec fn endpoint_problem(self, endpoint: Endpoint) -> Option<Error> {
        if !endpoint.boundary.valid() {
            Some(Error::InvalidBoundary)
        } else if !lists(self.screens@, endpoint.device@, endpoint.output@) {
            Some(Error::UnknownScreen)
        } else {
            None
        }
    }

    /// A layout in which every screen is named, sized and listed once, and the link connects
    /// listed screens of two devices.
    pub open spec fn valid(self) -> bool {
        &&& forall|i: int|
            0 <= i < self.screens@.len() ==> {
                &&& !crate::text::blank((#[trigger] self.screens@[i]).device@)
                &&& !crate::text::blank(self.screens@[i].output@)
                &&& self.screens@[i].rect.valid()
            }
        &&& forall|i: int, j: int|
            0 <= i < j < self.screens@.len() ==> (#[trigger] self.screens@[i]).device@ != (
            #[trigger] self.screens@[j]).device@ || self.screens@[i].output@
                != self.screens@[j].output@
        &&& self.link.a.device@ != self.link.b.device@
        &&& self.endpoint_problem(self.link.a) is None
        &&& self.endpoint_problem(self.link.b) is None
    }

    /// The first reason, in the order of the checks, for which a layout is refused.
    pub open spec fn problem(self) -> Option<Error> {
        if first_screen_problem(self.screens@, 0) is Some {
            first_screen_problem(self.screens@, 0)
        } else if self.link.a.device@ == self.link.b.device@ {
            Some(Error::LinkWithinDevice)
        } else if self.endpoint_problem(self.link.a) is Some {
            self.endpoint_problem(self.link.a)
        } else {
            self.endpoint_problem(self.link.b)
        }
    }

    fn lists_among(&self, count: usize, device: &String, output: &String) -> (r: bool)
        requires
            count <= self.screens@.len(),
        ensures
            r == lists(self.screens@.take(count as int), device@, output@),
    {
        for i in 0..count
            invariant
                count <= self.screens@.len(),
                forall|j: int|
                    0 <= j < i ==> (#[trigger] self.screens@[j]).device@ != device@
                        || self.screens@[j].output@ != output@,
        {
            if self.screens[i].device == *device && self.screens[i].output == *output {
                assert(self.screens@.take(count as int)[i as int] == self.screens@[i as int]);
                return true;
            }
        }
        false
    }

    fn check_endpoint(&self, endpoint: &Endpoint) -> (r: Result<(), Error>)
        ensures
            match self.endpoint_problem(*endpoint) {
                Some(e) => r == Err::<(), Error>(e),
                None => r is Ok,
            },
    {
        match endpoint.boundary.validate() {
            Err(e) => return Err(e),
            Ok(()) => {},
        }
        assert(self.screens@.take(self.screens@.len() as int) == self.screens@);
        if self.lists_among(self.screens.len(), &endpoint.device, &endpoint.output) {
            Ok(())
        } else {
            Err(Error::UnknownScreen)
        }
    }

    pub fn validate(&self) -> (r: Result<(), Error>)
        ensures
            r is Ok <==> self.valid(),
            match self.problem() {
                Some(e) => r == Err::<(), Error>(e),
                None => r is Ok,
            },
    {
        proof {
            lemma_layout_problem(*self);
        }
        for i in 0..self.screens.len()
            invariant
                first_screen_problem(self.screens@, 0) == first_screen_problem(
                    self.screens@,
                    i as int,
                ),
                self.problem() is None <==> self.valid(),
        {
            let screen = &self.screens[i];
            if is_blank(screen.device.as_str()) || is_blank(screen.output.as_str()) {
                return Err(Error::EmptyScreenName);
            }
            match screen.rect.validate() {
                Err(e) => return Err(e),
                Ok(()) => {},
            }
            if self.lists_among(i, &screen.device, &screen.output) {
                return Err(Error::DuplicateScreen);
            }
        }
        if self.link.a.device == self.link.b.device {
            return Err(Error::LinkWithinDevice);
        }
        match self.check_endpoint(&self.link.a) {
            Err(e) => return Err(e),
            Ok(()) => {},
        }
        self.check_endpoint(&self.link.b)
    }
}

proof fn lemma_first_screen_problem(screens: Seq<Screen>, from: int)
    requires
        0 <= from,
    ensures
        first_screen_problem(screens, from) is None <==> (forall|i: int|
            from <= i < screens.len() ==> #[trigger] screen_problem(screens, i) is None),
    decreases screens.len() - from,
{
    if from < screens.len() {
        lemma_first_screen_problem(screens, from + 1);
        if first_screen_problem(screens, from) is None {
            assert forall|i: int| from <= i < screens.len() implies #[trigger] screen_problem(
                screens,
                i,
            ) is None by {
                if i > from {
                    assert(screen_problem(screens, i) is None);
                }
            }
        }
    }
}

/// A layout is refused exactly when something is wrong with it.
pub proof fn lemma_layout_problem(layout: Layout)
    ensures
        layout.problem() is None <==> layout.valid(),
{
    let screens = layout.screens@;
    lemma_first_screen_problem(screens, 0);
    if first_screen_problem(screens, 0) is None {
        assert forall|i: int| 0 <= i < screens.len() implies {
            &&& !crate::text::blank((#[trigger] screens[i]).device@)
            &&& !crate::text::blank(screens[i].output@)
            &&& screens[i].rect.valid()
        } by {
            assert(screen_problem(screens, i) is None);
        }
        assert forall|i: int, j: int| 0 <= i < j < screens.len() implies (
        #[trigger] screens[i]).device@ != (#[trigger] screens[j]).device@ || screens[i].output@
            != screens[j].output@ by {
            assert(screen_problem(screens, j) is None);
            assert(screens.take(j)[i] == screens[i]);
        }
    }
    if layout.valid() {
        assert forall|i: int| 0 <= i < screens.len() implies #[trigger] screen_problem(
            screens,
            i,
        ) is None by {
            assert(screens[i].rect.valid());
            if lists(screens.take(i), screens[i].device@, screens[i].output@) {
                let k = choose|k: int|
                    0 <= k < screens.take(i).len() && (#[trigger] screens.take(i)[k]).device@
                        == screens[i].device@ && screens.take(i)[k].output@ == screens[i].output@;
                assert(screens.take(i)[k] == screens[k]);
            }
        }
    }
}

} // verus!
