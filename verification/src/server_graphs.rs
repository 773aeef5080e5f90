use vstd::prelude::*;

use crate::graphs::GraphType;
use std::collections::HashMap;
use vstd::std_specs::hash::spec_keys_iter;
use vstd::std_specs::iter::IteratorSpec;

verus! {

broadcast use vstd::std_specs::hash::group_hash_axioms;

/// A graph as the server keeps it: the bytes of its y coordinates, and of
/// its x coordinates unless the points lie at consecutive x positions.
pub struct GraphBytes {
    pub y: Vec<u8>,
    pub x: Option<Vec<u8>>,
}

/// The bytes of a graph's y and x coordinates.
pub type GraphView = (Seq<u8>, Option<Seq<u8>>);

impl GraphBytes {
    pub open spec fn view_bytes(&self) -> GraphView {
        (
            self.y@,
            match self.x {
                Some(x) => Some(x@),
                None => None,
            },
        )
    }
}

/// The bytes of optional coordinates.
pub open spec fn opt_bytes(x: Option<Vec<u8>>) -> Option<Seq<u8>> {
    match x {
        Some(xs) => Some(xs@),
        None => None,
    }
}

/// `x` cut or padded with zero bytes to `n` bytes.
pub open spec fn resized(x: Seq<u8>, n: nat) -> Seq<u8> {
    if n <= x.len() {
        x.subrange(0, n as int)
    } else {
        x + Seq::new((n - x.len()) as nat, |i: int| 0u8)
    }
}

/// A graph after points are added: the new y coordinates follow the old
/// ones; new x coordinates are written after the first (old y count) bytes
/// of the old x coordinates, and only when the graph has x coordinates.
pub open spec fn points_added(g: GraphView, y: Seq<u8>, x: Option<Seq<u8>>) -> GraphView {
    (
        g.0 + y,
        match (x, g.1) {
            (Some(xs), Some(old)) => Some(resized(old, g.0.len()) + xs),
            _ => g.1,
        },
    )
}

/// The graphs of one state as the server keeps them, by index.
///
/// Each change returns whether it is sent to the client: when the client is
/// connected and the graphs enabled.
pub struct ServerGraphs {
    id: u64,
    graph_type: GraphType,
    graphs: HashMap<u16, GraphBytes>,
    enabled: bool,
}

impl ServerGraphs {
    pub closed spec fn spec_id(&self) -> u64 {
        self.id
    }

    pub closed spec fn spec_graph_type(&self) -> GraphType {
        self.graph_type
    }

    pub closed spec fn spec_enabled(&self) -> bool {
        self.enabled
    }

    /// The graphs' bytes by index.
    pub closed spec fn spec_graphs(&self) -> Map<u16, GraphView> {
        self.graphs@.map_values(|g: GraphBytes| g.view_bytes())
    }

    /// No graphs, not enabled.
    pub fn new(id: u64, graph_type: GraphType) -> (s: Self)
        ensures
            s.spec_id() == id,
            s.spec_graph_type() == graph_type,
            s.spec_graphs() == Map::<u16, GraphView>::empty(),
            !s.spec_enabled(),
    {
        let s = ServerGraphs { id, graph_type, graphs: HashMap::new(), enabled: false };
        assert(s.spec_graphs() =~= Map::<u16, GraphView>::empty());
        s
    }

    /// The element type of the coordinates.
    pub fn graph_type(&self) -> (t: GraphType)
        ensures
            t == self.spec_graph_type(),
    {
        self.graph_type
    }

    /// Marks the graphs as used by the client or not.
    pub fn enable(&mut self, enable: bool)
        ensures
            final(self).spec_enabled() == enable,
            final(self).spec_id() == old(self).spec_id(),
            final(self).spec_graph_type() == old(self).spec_graph_type(),
            final(self).spec_graphs() == old(self).spec_graphs(),
    {
        self.enabled = enable;
    }

    /// Whether the graph at `idx` has no x coordinates; refused when there
    /// is no graph there.
    pub fn is_linear(&self, idx: u16) -> (res: Result<bool, ()>)
        ensures
            res is Ok <==> self.spec_graphs().contains_key(idx),
            res is Ok ==> res->Ok_0 == self.spec_graphs()[idx].1 is None,
    {
        match self.graphs.get(&idx) {
            Some(g) => Ok(g.x.is_none()),
            None => Err(()),
        }
    }

    /// The number of graphs.
    pub fn count(&self) -> (n: usize)
        ensures
            n == self.spec_graphs().len(),
    {
        proof {
            assert(self.spec_graphs().dom() =~= self.graphs@.dom());
        }
        self.graphs.len()
    }

    /// Borrows the graph at `idx`.
    pub fn get(&self, idx: u16) -> (res: Option<&GraphBytes>)
        ensures
            self.spec_graphs().contains_key(idx) ==> (res matches Some(g) && g.view_bytes()
                == self.spec_graphs()[idx]),
            !self.spec_graphs().contains_key(idx) ==> res is None,
    {
        self.graphs.get(&idx)
    }

    /// Puts a graph at `idx`, replacing the one there.
    pub fn set(&mut self, idx: u16, y: Vec<u8>, x: Option<Vec<u8>>, connected: bool) -> (send: bool)
        ensures
            send == (connected && old(self).spec_enabled()),
            final(self).spec_id() == old(self).spec_id(),
            final(self).spec_graph_type() == old(self).spec_graph_type(),
            final(self).spec_enabled() == old(self).spec_enabled(),
            final(self).spec_graphs() == old(self).spec_graphs().insert(
                idx,
                (
                    y@,
                    opt_bytes(x),
                ),
            ),
    {
        let g = GraphBytes { y, x };
        let ghost gv = g.view_bytes();
        self.graphs.insert(idx, g);
        proof {
            assert(self.spec_graphs() =~= old(self).spec_graphs().insert(idx, gv));
        }
        connected && self.enabled
    }

    /// Adds points to the graph at `idx` (see [`points_added`]); refused
    /// when there is no graph there. The points added are `y.len()` divided
    /// by the size of a coordinate.
    pub fn add_points(&mut self, idx: u16, y: Vec<u8>, x: Option<Vec<u8>>, connected: bool) -> (res: Result<
        bool,
        String,
    >)
        requires
            x matches Some(xs) ==> xs.len() == y.len(),
        ensures
            final(self).spec_id() == old(self).spec_id(),
            final(self).spec_graph_type() == old(self).spec_graph_type(),
            final(self).spec_enabled() == old(self).spec_enabled(),
            res is Err <==> !old(self).spec_graphs().contains_key(idx),
            res is Err ==> final(self).spec_graphs() == old(self).spec_graphs(),
            res matches Err(e) ==> e@ == "Graph index not found."@,
            res is Ok ==> res->Ok_0 == (connected && old(self).spec_enabled()) && final(self).spec_graphs()
                == old(self).spec_graphs().insert(
                idx,
                points_added(
                    old(self).spec_graphs()[idx],
                    y@,
                    opt_bytes(x),
                ),
            ),
    {
        let mut y = y;
        match self.graphs.remove(&idx) {
            Some(mut g) => {
                let ghost before = g.view_bytes();
                let ghost added = points_added(
                    before,
                    y@,
                    opt_bytes(x),
                );
                let n = g.y.len();
                g.y.append(&mut y);
                match x {
                    Some(mut xs) => {
                        match g.x {
                            Some(mut old_x) => {
                                let ghost ox = old_x@;
                                old_x.resize(n, 0u8);
                                proof {
                                    if n > ox.len() {
                                        assert(old_x@ =~= ox + Seq::new((n - ox.len()) as nat, |i: int| 0u8));
                                    }
                                }
                                old_x.append(&mut xs);
                                g.x = Some(old_x);
                            },
                            None => {},
                        }
                    },
                    None => {},
                }
                proof {
                    assert(g.view_bytes() == added);
                }
                self.graphs.insert(idx, g);
                proof {
                    assert(self.spec_graphs() =~= old(self).spec_graphs().insert(idx, added));
                }
                Ok(connected && self.enabled)
            },
            None => {
                proof {
                    assert(self.spec_graphs() =~= old(self).spec_graphs());
                }
                Err(String::from_str("Graph index not found."))
            },
        }
    }

    /// Removes the graph at `idx`, if any.
    pub fn remove(&mut self, idx: u16, connected: bool) -> (send: bool)
        ensures
            send == (connected && old(self).spec_enabled()),
            final(self).spec_id() == old(self).spec_id(),
            final(self).spec_graph_type() == old(self).spec_graph_type(),
            final(self).spec_enabled() == old(self).spec_enabled(),
            final(self).spec_graphs() == old(self).spec_graphs().remove(idx),
    {
        self.graphs.remove(&idx);
        proof {
            assert(self.spec_graphs() =~= old(self).spec_graphs().remove(idx));
        }
        connected && self.enabled
    }

    /// Removes every graph.
    pub fn reset(&mut self, connected: bool) -> (send: bool)
        ensures
            send == (connected && old(self).spec_enabled()),
            final(self).spec_id() == old(self).spec_id(),
            final(self).spec_graph_type() == old(self).spec_graph_type(),
            final(self).spec_enabled() == old(self).spec_enabled(),
            final(self).spec_graphs() == Map::<u16, GraphView>::empty(),
    {
        self.graphs.clear();
        proof {
            assert(self.spec_graphs() =~= Map::<u16, GraphView>::empty());
        }
        connected && self.enabled
    }

    /// The indices of the graphs, each once, in no particular order.
    pub fn indices(&self) -> (r: Vec<u16>)
        ensures
            r@.to_set() == self.spec_graphs().dom(),
            r@.no_duplicates(),
    {
        let mut r: Vec<u16> = Vec::new();
        let ghost keys = spec_keys_iter(&self.graphs).remaining();
        for k in it: self.graphs.keys()
            invariant
                it.seq() == keys,
                r@ == it.seq().take(it.index()).map_values(|x: &u16| *x),
        {
            r.push(*k);
        }
        proof {
            assert(r@ =~= keys.unref());
            assert(self.spec_graphs().dom() =~= self.graphs@.dom());
        }
        r
    }

    /// A copy of every graph with its index, each index once.
    pub fn snapshot(&self) -> (r: Vec<(u16, Vec<u8>, Option<Vec<u8>>)>)
        ensures
            forall|i: int|
                0 <= i < r.len() ==> self.spec_graphs().contains_key(#[trigger] r@[i].0) && self.spec_graphs()[r@[i].0]
                    == (r@[i].1@, opt_bytes(r@[i].2)),
            forall|k: u16| #[trigger]
                self.spec_graphs().contains_key(k) ==> exists|i: int| 0 <= i < r.len() && r@[i].0 == k,
            forall|i: int, j: int| 0 <= i < j < r.len() ==> r@[i].0 != r@[j].0,
    {
        let indices = self.indices();
        let mut r: Vec<(u16, Vec<u8>, Option<Vec<u8>>)> = Vec::new();
        let mut j: usize = 0;
        while j < indices.len()
            invariant
                j <= indices@.len(),
                r@.len() == j,
                indices@.to_set() == self.spec_graphs().dom(),
                indices@.no_duplicates(),
                forall|i: int| 0 <= i < j ==> #[trigger] r@[i].0 == indices@[i],
                forall|i: int|
                    0 <= i < j ==> self.spec_graphs().contains_key(#[trigger] r@[i].0) && self.spec_graphs()[r@[i].0]
                        == (r@[i].1@, opt_bytes(r@[i].2)),
            decreases indices@.len() - j,
        {
            let k = indices[j];
            proof {
                assert(indices@.to_set().contains(k));
            }
            match self.graphs.get(&k) {
                Some(g) => {
                    let y = vstd::slice::slice_to_vec(g.y.as_slice());
                    let x = match &g.x {
                        Some(x) => Some(vstd::slice::slice_to_vec(x.as_slice())),
                        None => None,
                    };
                    r.push((k, y, x));
                },
                None => {
                    proof {
                        assert(self.spec_graphs().dom() =~= self.graphs@.dom());
                    }
                },
            }
            j += 1;
        }
        proof {
            assert forall|k: u16| #[trigger] self.spec_graphs().contains_key(k) implies exists|i: int|
                0 <= i < r.len() && r@[i].0 == k by {
                assert(indices@.to_set().contains(k));
                let i = choose|i: int| 0 <= i < indices@.len() && indices@[i] == k;
                assert(r@[i].0 == k);
            }
        }
        r
    }

    /// Whether a newly connected client is sent a reset and then every
    /// graph.
    pub fn sync(&self) -> (send: bool)
        ensures
            send == self.spec_enabled(),
    {
        self.enabled
    }
}

} // verus!
