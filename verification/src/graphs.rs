use vstd::prelude::*;

use std::collections::HashMap;

verus! {

broadcast use vstd::std_specs::hash::group_hash_axioms;

/// Element type of graph points.
#[derive(PartialEq, Eq, Structural, Clone, Copy, Debug)]
pub enum GraphType {
    F32,
    F64,
}

impl GraphType {
    /// Size in bytes of one coordinate.
    pub open spec fn spec_bytes_size(self) -> nat {
        match self {
            GraphType::F32 => 4,
            GraphType::F64 => 8,
        }
    }

    /// Returns the size in bytes of one coordinate.
    pub fn bytes_size(&self) -> (size: usize)
        ensures
            size == self.spec_bytes_size(),
    {
        match self {
            GraphType::F32 => 4,
            GraphType::F64 => 8,
        }
    }
}

/// A coordinate type that graphs can hold.
pub trait GraphElement: Copy {
    /// The wire type of the coordinate.
    fn graph_type() -> GraphType;
}

/// Description of the points carried by a graph message.
#[derive(PartialEq, Eq, Structural, Clone, Copy, Debug)]
pub struct GraphDataInfo {
    pub graph_type: GraphType,
    /// points lie at consecutive x positions, so only y values are sent
    pub is_linear: bool,
    pub points: u64,
}

/// Header of a graph message; the `u16` is the graph's index.
#[derive(PartialEq, Eq, Structural, Clone, Copy, Debug)]
pub enum GraphHeader {
    SetGraph(u16, GraphDataInfo),
    AddPoints(u16, GraphDataInfo),
    Remove(u16),
    Reset,
}

/// A graph: y values, and x values unless the points lie at consecutive x
/// positions.
#[derive(Clone, Debug)]
pub struct Graph<T> {
    pub y: Vec<T>,
    pub x: Option<Vec<T>>,
}

/// Abstract graph.
pub struct GraphModel<T> {
    pub y: Seq<T>,
    pub x: Option<Seq<T>>,
}

impl<T> Graph<T> {
    pub open spec fn model(&self) -> GraphModel<T> {
        GraphModel {
            y: self.y@,
            x: match self.x {
                Some(x) => Some(x@),
                None => None,
            },
        }
    }
}

/// Decoded coordinates of a graph message.
pub struct GraphPoints<T> {
    pub x: Option<Vec<T>>,
    pub y: Vec<T>,
}

impl<T> GraphPoints<T> {
    pub open spec fn model(&self) -> GraphModel<T> {
        GraphModel {
            y: self.y@,
            x: match self.x {
                Some(x) => Some(x@),
                None => None,
            },
        }
    }
}

/// The points carry what `info` announces: `points` y values, and as many x
/// values exactly when the points are not linear.
pub open spec fn points_match<T>(info: GraphDataInfo, p: GraphModel<T>) -> bool {
    &&& p.y.len() == info.points
    &&& match p.x {
        Some(x) => !info.is_linear && x.len() == info.points,
        None => info.is_linear,
    }
}

/// The graph after adding points, or `None` when the points do not fit the
/// graph: x values are added to a graph that has them, and only y values to
/// a linear graph.
pub open spec fn add_points_spec<T>(g: GraphModel<T>, expected: GraphType, info: GraphDataInfo, p: GraphModel<T>) -> Option<GraphModel<T>> {
    if info.graph_type != expected || !points_match(info, p) {
        None
    } else {
        match (g.x, p.x) {
            (Some(gx), Some(px)) => Some(GraphModel { y: g.y + p.y, x: Some(gx + px) }),
            (None, None) => Some(GraphModel { y: g.y + p.y, x: None }),
            _ => None,
        }
    }
}

/// Adding points keeps every point of the graph and appends the announced
/// number of new points after them, in order; a graph whose points each
/// have an x value keeps that, and a linear graph stays linear.
pub proof fn lemma_add_points_appends<T>(g: GraphModel<T>, expected: GraphType, info: GraphDataInfo, p: GraphModel<T>)
    ensures
        add_points_spec(g, expected, info, p) matches Some(r) ==> {
            &&& r.y.len() == g.y.len() + info.points
            &&& forall|j: int| 0 <= j < g.y.len() ==> r.y[j] == g.y[j]
            &&& forall|j: int| 0 <= j < info.points ==> r.y[g.y.len() + j] == p.y[j]
            &&& (r.x is None <==> g.x is None)
            &&& (g.x is Some && g.x->0.len() == g.y.len()) ==> (r.x is Some && r.x->0.len() == r.y.len() && (forall|
                j: int|
                0 <= j < g.x->0.len() ==> r.x->0[j] == g.x->0[j]))
        },
        add_points_spec(g, expected, info, p) is Some ==> info.graph_type == expected,
{
}

/// Why points announced by `info` are refused: their type is not the
/// graph's, or they do not carry what `info` announces.
pub open spec fn points_problem<T>(expected: GraphType, info: GraphDataInfo, p: GraphModel<T>) -> Seq<char> {
    if info.graph_type != expected {
        "Incoming Graph data type does not match."@
    } else {
        "Incoming Graph data does not match its description."@
    }
}

/// Why adding points to the graph `g` fails (see [`add_points_spec`]).
pub open spec fn add_problem<T>(g: GraphModel<T>, expected: GraphType, info: GraphDataInfo, p: GraphModel<T>) -> Seq<char> {
    if info.graph_type != expected || !points_match(info, p) {
        points_problem(expected, info, p)
    } else {
        "Incoming Graph data and graph are not compatible."@
    }
}

impl<T> Graph<T> {
    /// Builds a graph from the decoded points of a message.
    pub fn from_graph_data(expected: GraphType, info: GraphDataInfo, points: GraphPoints<T>) -> (res: Result<Self, String>)
        ensures
            res is Ok <==> info.graph_type == expected && points_match(info, points.model()),
            res matches Ok(g) ==> g.model() == points.model(),
            res matches Err(e) ==> e@ == points_problem(expected, info, points.model()),
    {
        if info.graph_type != expected {
            return Err(String::from_str("Incoming Graph data type does not match."));
        }
        let matches = points.y.len() as u64 == info.points && match &points.x {
            Some(x) => !info.is_linear && x.len() as u64 == info.points,
            None => info.is_linear,
        };
        if !matches {
            return Err(String::from_str("Incoming Graph data does not match its description."));
        }
        Ok(Graph { y: points.y, x: points.x })
    }

    /// Appends the decoded points of a message.
    pub fn add_points(&mut self, expected: GraphType, info: GraphDataInfo, points: GraphPoints<T>) -> (res: Result<(), String>)
        ensures
            ({
                let r = add_points_spec(old(self).model(), expected, info, points.model());
                &&& res is Ok <==> r is Some
                &&& res matches Err(e) ==> e@ == add_problem(old(self).model(), expected, info, points.model())
                &&& final(self).model() == match r {
                    Some(g) => g,
                    None => old(self).model(),
                }
            }),
    {
        if info.graph_type != expected {
            return Err(String::from_str("Incoming Graph data type does not match."));
        }
        let matches = points.y.len() as u64 == info.points && match &points.x {
            Some(x) => !info.is_linear && x.len() as u64 == info.points,
            None => info.is_linear,
        };
        if !matches {
            return Err(String::from_str("Incoming Graph data does not match its description."));
        }
        let GraphPoints { x: px, y: mut py } = points;
        match (&mut self.x, px) {
            (Some(gx), Some(mut px)) => {
                gx.append(&mut px);
                self.y.append(&mut py);
                Ok(())
            },
            (None, None) => {
                self.y.append(&mut py);
                Ok(())
            },
            _ => Err(String::from_str("Incoming Graph data and graph are not compatible.")),
        }
    }
}

/// Graphs of one state, by index, each with a flag telling whether it changed
/// since it was last read.
pub struct ValueGraphs<T> {
    name: String,
    graph_type: GraphType,
    graphs: HashMap<u16, (Graph<T>, bool)>,
}

impl<T> ValueGraphs<T> {
    /// The name the graphs' errors give.
    pub closed spec fn spec_name(&self) -> Seq<char> {
        self.name@
    }

    pub closed spec fn graphs(&self) -> Map<u16, (GraphModel<T>, bool)> {
        self.graphs@.map_values(|e: (Graph<T>, bool)| (e.0.model(), e.1))
    }

    pub closed spec fn spec_graph_type(&self) -> GraphType {
        self.graph_type
    }

    /// Creates an empty set of graphs of the given element type.
    pub fn new(name: String, graph_type: GraphType) -> (s: Self)
        ensures
            s.graphs() == Map::<u16, (GraphModel<T>, bool)>::empty(),
            s.spec_graph_type() == graph_type,
    {
        let s = ValueGraphs { name, graph_type, graphs: HashMap::new() };
        assert(s.graphs() =~= Map::<u16, (GraphModel<T>, bool)>::empty());
        s
    }

    /// Number of graphs.
    pub fn len(&self) -> (n: usize)
        ensures
            n == self.graphs().len(),
    {
        proof {
            assert(self.graphs().dom() =~= self.graphs@.dom());
        }
        self.graphs.len()
    }

    /// Borrows the graph at `idx` and clears its changed flag; returns the
    /// graph and whether it changed since the last read.
    pub fn read(&mut self, idx: u16) -> (res: Option<(&Graph<T>, bool)>)
        ensures
            final(self).spec_graph_type() == old(self).spec_graph_type(),
            if old(self).graphs().contains_key(idx) {
                &&& res matches Some((g, changed)) && g.model() == old(self).graphs()[idx].0
                    && changed == old(self).graphs()[idx].1
                &&& final(self).graphs() == old(self).graphs().insert(idx, (old(self).graphs()[idx].0, false))
            } else {
                res is None && final(self).graphs() == old(self).graphs()
            },
    {
        let ghost g0 = self.graphs();
        match self.graphs.remove(&idx) {
            Some((graph, changed)) => {
                let ghost gm = graph.model();
                self.graphs.insert(idx, (graph, false));
                assert(self.graphs() =~= g0.insert(idx, (gm, false)));
                match self.graphs.get(&idx) {
                    Some(entry) => Some((&entry.0, changed)),
                    None => None,
                }
            },
            None => None,
        }
    }

    /// Borrows the graph at `idx`.
    pub fn get(&self, idx: u16) -> (res: Option<&Graph<T>>)
        ensures
            if self.graphs().contains_key(idx) {
                res matches Some(g) && g.model() == self.graphs()[idx].0
            } else {
                res is None
            },
    {
        match self.graphs.get(&idx) {
            Some(entry) => Some(&entry.0),
            None => None,
        }
    }

    /// Applies a message from the server; `points` are the decoded
    /// coordinates of `Set` and `AddPoints` messages.
    pub fn update_graph(&mut self, header: GraphHeader, points: GraphPoints<T>) -> (res: Result<(), String>)
        ensures
            final(self).spec_graph_type() == old(self).spec_graph_type(),
            final(self).spec_name() == old(self).spec_name(),
            res matches Err(e) ==> e@ == "Error updating graph "@ + old(self).spec_name() + ": "@ + match header {
                GraphHeader::SetGraph(_, info) => points_problem(old(self).spec_graph_type(), info, points.model()),
                GraphHeader::AddPoints(idx, info) => add_problem(
                    old(self).graphs()[idx].0,
                    old(self).spec_graph_type(),
                    info,
                    points.model(),
                ),
                _ => Seq::empty(),
            },
            match header {
                GraphHeader::SetGraph(idx, info) => if info.graph_type == old(self).spec_graph_type()
                    && points_match(info, points.model()) {
                    res is Ok && final(self).graphs() == old(self).graphs().insert(idx, (points.model(), true))
                } else {
                    res is Err && final(self).graphs() == old(self).graphs()
                },
                GraphHeader::AddPoints(idx, info) => if old(self).graphs().contains_key(idx) {
                    match add_points_spec(old(self).graphs()[idx].0, old(self).spec_graph_type(), info, points.model()) {
                        Some(g) => res is Ok && final(self).graphs() == old(self).graphs().insert(idx, (g, true)),
                        None => res is Err && final(self).graphs() == old(self).graphs(),
                    }
                } else {
                    res is Ok && final(self).graphs() == old(self).graphs()
                },
                GraphHeader::Remove(idx) => res is Ok && final(self).graphs() == old(self).graphs().remove(idx),
                GraphHeader::Reset => res is Ok && final(self).graphs() == Map::<u16, (GraphModel<T>, bool)>::empty(),
            },
    {
        let ghost g0 = self.graphs();
        match header {
            GraphHeader::SetGraph(idx, info) => {
                match Graph::from_graph_data(self.graph_type, info, points) {
                    Ok(graph) => {
                        let ghost gm = graph.model();
                        self.graphs.insert(idx, (graph, true));
                        assert(self.graphs() =~= g0.insert(idx, (gm, true)));
                        Ok(())
                    },
                    Err(e) => Err(graph_error(&self.name, e)),
                }
            },
            GraphHeader::AddPoints(idx, info) => {
                match self.graphs.remove(&idx) {
                    Some((mut graph, changed)) => {
                        let r = graph.add_points(self.graph_type, info, points);
                        match r {
                            Ok(()) => {
                                let ghost gm = graph.model();
                                self.graphs.insert(idx, (graph, true));
                                assert(self.graphs() =~= g0.insert(idx, (gm, true)));
                                Ok(())
                            },
                            Err(e) => {
                                self.graphs.insert(idx, (graph, changed));
                                assert(self.graphs() =~= g0);
                                Err(graph_error(&self.name, e))
                            },
                        }
                    },
                    None => Ok(()),
                }
            },
            GraphHeader::Remove(idx) => {
                self.graphs.remove(&idx);
                assert(self.graphs() =~= g0.remove(idx));
                Ok(())
            },
            GraphHeader::Reset => {
                self.graphs.clear();
                assert(self.graphs() =~= Map::<u16, (GraphModel<T>, bool)>::empty());
                Ok(())
            },
        }
    }
}

fn graph_error(name: &String, e: String) -> (r: String)
    ensures
        r@ == "Error updating graph "@ + name@ + ": "@ + e@,
{
    let mut s = String::from_str("Error updating graph ");
    s.append(name.as_str());
    s.append(": ");
    s.append(e.as_str());
    s
}

} // verus!
