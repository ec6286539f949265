//! The connections between the two computers: named spans of screen edges.
use crate::error::Error;
use crate::geometry::Boundary;
use crate::number::Binary64;
use crate::text::{characters, same_text};
use vstd::prelude::*;

verus! {

/// The largest number of connections between two computers.
pub const MAX_EDGES: usize = 16;

/// The largest number of characters in the identifier of a connection.
pub const MAX_EDGE_ID: usize = 64;

/// The identifier of a connection that was configured without one.
pub const DEFAULT_EDGE_ID: &'static str = "default";

/// One end of a connection: a span of an edge of an output.
pub struct EdgeConfig {
    pub id: String,
    pub output: String,
    pub boundary: Boundary,
}

/// A position on a connection.
pub struct EdgePosition {
    pub edge_id: String,
    pub fraction: Binary64,
}

pub open spec fn edge_id_char(c: char) -> bool {
    ||| 'a' <= c <= 'z'
    ||| 'A' <= c <= 'Z'
    ||| '0' <= c <= '9'
    ||| c == '-'
    ||| c == '_'
}

pub open spec fn edge_id_valid(id: Seq<char>) -> bool {
    &&& 1 <= id.len() <= MAX_EDGE_ID
    &&& forall|i: int| 0 <= i < id.len() ==> edge_id_char(#[trigger] id[i])
}

/// Accepts a short identifier of letters, digits, hyphens and underscores.
pub fn valid_edge_id(id: &str) -> (r: bool)
    ensures
        r == edge_id_valid(id@),
{
    let list = characters(id);
    if list.len() < 1 || list.len() > MAX_EDGE_ID {
        return false;
    }
    for i in 0..list.len()
        invariant
            list@ == id@,
            1 <= id@.len() <= MAX_EDGE_ID,
            forall|j: int| 0 <= j < i ==> edge_id_char(#[trigger] id@[j]),
    {
        let c: char = list[i];
        if !(('a' <= c && c <= 'z') || ('A' <= c && c <= 'Z') || ('0' <= c && c <= '9') || c == '-'
            || c == '_') {
            assert(!edge_id_char(id@[i as int]));
            return false;
        }
    }
    true
}

impl EdgeConfig {
    /// Two ends with the same contents.
    pub open spec fn same(self, other: EdgeConfig) -> bool {
        &&& self.id@ == other.id@
        &&& self.output@ == other.output@
        &&& self.boundary == other.boundary
    }

    /// Two spans of one screen edge share more than an end point.
    pub open spec fn overlaps(self, other: EdgeConfig) -> bool {
        &&& self.output@ == other.output@
        &&& self.boundary.edge == other.boundary.edge
        &&& self.boundary.start.units() < other.boundary.end.units()
        &&& other.boundary.start.units() < self.boundary.end.units()
    }
}

impl Clone for EdgeConfig {
    fn clone(&self) -> (r: EdgeConfig)
        ensures
            r == *self,
    {
        EdgeConfig { id: self.id.clone(), output: self.output.clone(), boundary: self.boundary }
    }
}

impl Clone for EdgePosition {
    fn clone(&self) -> (r: EdgePosition)
        ensures
            r == *self,
    {
        EdgePosition { edge_id: self.edge_id.clone(), fraction: self.fraction }
    }
}

impl EdgePosition {
    pub open spec fn valid(self) -> bool {
        &&& edge_id_valid(self.edge_id@)
        &&& self.fraction.within(Binary64::zero(), Binary64::one())
    }

    pub open spec fn problem(self) -> Option<Error> {
        if !edge_id_valid(self.edge_id@) {
            Some(Error::InvalidEdgeId)
        } else if !self.valid() {
            Some(Error::InvalidEdgePosition)
        } else {
            None
        }
    }

    pub fn validate(&self) -> (r: Result<(), Error>)
        ensures
            r is Ok <==> self.valid(),
            match self.problem() {
                Some(e) => r == Err::<(), Error>(e),
                None => r is Ok,
            },
    {
        if !valid_edge_id(self.edge_id.as_str()) {
            return Err(Error::InvalidEdgeId);
        }
        if !self.fraction.is_within(Binary64::zero(), Binary64::one()) {
            return Err(Error::InvalidEdgePosition);
        }
        Ok(())
    }
}

/// What is wrong with the connection at an index, the connections before it being in order.
pub open spec fn edge_problem(edges: Seq<EdgeConfig>, index: int) -> Option<Error> {
    let edge = edges[index];
    if !edge_id_valid(edge.id@) {
        Some(Error::InvalidEdgeId)
    } else if exists|i: int| 0 <= i < index && (#[trigger] edges[i]).id@ == edge.id@ {
        Some(Error::DuplicateEdgeId)
    } else if !edge.boundary.valid() {
        Some(Error::InvalidBoundary)
    } else if exists|i: int| 0 <= i < index && (#[trigger] edges[i]).overlaps(edge) {
        Some(Error::OverlappingEdges)
    } else {
        None
    }
}

pub open spec fn first_edge_problem(edges: Seq<EdgeConfig>, from: int) -> Option<Error>
    decreases edges.len() - from,
{
    if from < 0 || from >= edges.len() {
        None
    } else if edge_problem(edges, from) is Some {
        edge_problem(edges, from)
    } else {
        first_edge_problem(edges, from + 1)
    }
}

/// Connections with distinct identifiers whose spans are valid and do not overlap.
pub open spec fn edges_valid(edges: Seq<EdgeConfig>) -> bool {
    &&& 1 <= edges.len() <= MAX_EDGES
    &&& forall|i: int|
        0 <= i < edges.len() ==> edge_id_valid((#[trigger] edges[i]).id@) && edges[i].boundary.valid()
    &&& forall|i: int, j: int|
        0 <= i < j < edges.len() ==> (#[trigger] edges[i]).id@ != (#[trigger] edges[j]).id@
            && !edges[i].overlaps(edges[j])
}

/// The first reason, in the order of the checks, for which connections are refused.
pub open spec fn edges_problem(edges: Seq<EdgeConfig>) -> Option<Error> {
    if !(1 <= edges.len() <= MAX_EDGES) {
        Some(Error::InvalidEdgeCount)
    } else {
        first_edge_problem(edges, 0)
    }
}

pub fn validate_edges(edges: &Vec<EdgeConfig>) -> (r: Result<(), Error>)
    ensures
        r is Ok <==> edges_valid(edges@),
        match edges_problem(edges@) {
            Some(e) => r == Err::<(), Error>(e),
            None => r is Ok,
        },
{
    proof {
        lemma_edges_problem(edges@);
    }
    if edges.len() < 1 || edges.len() > MAX_EDGES {
        return Err(Error::InvalidEdgeCount);
    }
    for i in 0..edges.len()
        invariant
            1 <= edges@.len() <= MAX_EDGES,
            edges_problem(edges@) is None <==> edges_valid(edges@),
            first_edge_problem(edges@, 0) == first_edge_problem(edges@, i as int),
            forall|j: int| 0 <= j < i ==> #[trigger] edge_problem(edges@, j) is None,
    {
        let edge = &edges[i];
        if !valid_edge_id(edge.id.as_str()) {
            return Err(Error::InvalidEdgeId);
        }
        for j in 0..i
            invariant
                i < edges@.len(),
                *edge == edges@[i as int],
                edge_id_valid(edge.id@),
                1 <= edges@.len() <= MAX_EDGES,
                edges_problem(edges@) is None <==> edges_valid(edges@),
                first_edge_problem(edges@, 0) == first_edge_problem(edges@, i as int),
                forall|k: int| 0 <= k < j ==> (#[trigger] edges@[k]).id@ != edge.id@,
        {
            if edges[j].id == edge.id {
                assert(edges@[j as int].id@ == edge.id@);
                return Err(Error::DuplicateEdgeId);
            }
        }
        match edge.boundary.validate() {
            Err(e) => return Err(e),
            Ok(()) => {},
        }
        for j in 0..i
            invariant
                i < edges@.len(),
                *edge == edges@[i as int],
                edge_id_valid(edge.id@),
                edge.boundary.valid(),
                1 <= edges@.len() <= MAX_EDGES,
                edges_problem(edges@) is None <==> edges_valid(edges@),
                first_edge_problem(edges@, 0) == first_edge_problem(edges@, i as int),
                forall|k: int| 0 <= k < i ==> (#[trigger] edges@[k]).id@ != edge.id@,
                forall|k: int| 0 <= k < i ==> #[trigger] edge_problem(edges@, k) is None,
                forall|k: int| 0 <= k < j ==> !(#[trigger] edges@[k]).overlaps(*edge),
        {
            let other = &edges[j];
            assert(edge_problem(edges@, j as int) is None);
            if other.output == edge.output && other.boundary.edge == edge.boundary.edge
                && other.boundary.start.less_than(edge.boundary.end)
                && edge.boundary.start.less_than(other.boundary.end) {
                assert(edges@[j as int].overlaps(*edge));
                return Err(Error::OverlappingEdges);
            }
        }
    }
    Ok(())
}

proof fn lemma_first_edge_problem(edges: Seq<EdgeConfig>, from: int)
    requires
        0 <= from,
    ensures
        first_edge_problem(edges, from) is None <==> (forall|i: int|
            from <= i < edges.len() ==> #[trigger] edge_problem(edges, i) is None),
    decreases edges.len() - from,
{
    if from < edges.len() {
        lemma_first_edge_problem(edges, from + 1);
        if first_edge_problem(edges, from) is None {
            assert forall|i: int| from <= i < edges.len() implies #[trigger] edge_problem(
                edges,
                i,
            ) is None by {
                if i > from {
                    assert(edge_problem(edges, i) is None);
                }
            }
        }
    }
}

/// Connections are refused exactly when something is wrong with them.
pub proof fn lemma_edges_problem(edges: Seq<EdgeConfig>)
    ensures
        edges_problem(edges) is None <==> edges_valid(edges),
{
    lemma_first_edge_problem(edges, 0);
    if edges_problem(edges) is None {
        assert forall|i: int| 0 <= i < edges.len() implies edge_id_valid((#[trigger] edges[i]).id@)
            && edges[i].boundary.valid() by {
            assert(edge_problem(edges, i) is None);
        }
        assert forall|i: int, j: int| 0 <= i < j < edges.len() implies (#[trigger] edges[i]).id@ != (
        #[trigger] edges[j]).id@ && !edges[i].overlaps(edges[j]) by {
            assert(edge_problem(edges, j) is None);
        }
    }
    if edges_valid(edges) {
        assert forall|i: int| 0 <= i < edges.len() implies #[trigger] edge_problem(
            edges,
            i,
        ) is None by {
            assert(edge_id_valid(edges[i].id@));
        }
    }
}

/// The index of the connection with an identifier.
pub open spec fn edge_index(edges: Seq<EdgeConfig>, id: Seq<char>) -> Option<int>
    decreases edges.len(),
{
    if edges.len() == 0 {
        None
    } else if edges[0].id@ == id {
        Some(0)
    } else {
        match edge_index(edges.drop_first(), id) {
            Some(i) => Some(i + 1),
            None => None,
        }
    }
}

pub fn find_edge(edges: &Vec<EdgeConfig>, id: &str) -> (r: Option<usize>)
    ensures
        match edge_index(edges@, id@) {
            Some(i) => r matches Some(k) && k == i,
            None => r is None,
        },
        r matches Some(k) ==> k < edges@.len() && edges@[k as int].id@ == id@,
        r is None ==> forall|i: int| 0 <= i < edges@.len() ==> (#[trigger] edges@[i]).id@ != id@,
{
    assert(edges@.skip(0) == edges@);
    for i in 0..edges.len()
        invariant
            forall|j: int| 0 <= j < i ==> (#[trigger] edges@[j]).id@ != id@,
            edge_index(edges@, id@) == (match edge_index(edges@.skip(i as int), id@) {
                Some(k) => Some(k + i),
                None => None,
            }),
    {
        assert(edges@.skip(i as int).drop_first() == edges@.skip(i + 1));
        if same_text(edges[i].id.as_str(), id) {
            return Some(i);
        }
    }
    None
}

} // verus!
