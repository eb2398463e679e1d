//! The dependency graph: for each resolved coordinate, under its key, the
//! coordinates that it leads to and the depth at which it was found.

use crate::coordinate::{coordinate_views, Coordinate, CoordinateView};
use crate::string_map::StringMap;
use vstd::prelude::*;

verus! {

/// A resolved coordinate with its transitive candidates.
#[derive(Debug)]
pub struct DependencyNode {
    pub coordinate: Coordinate,
    pub dependencies: Vec<Coordinate>,
    pub depth: usize,
}

/// A `DependencyNode`, as plain values.
pub ghost struct NodeView {
    pub coordinate: CoordinateView,
    pub dependencies: Seq<CoordinateView>,
    pub depth: usize,
}

impl View for DependencyNode {
    type V = NodeView;

    open spec fn view(&self) -> NodeView {
        NodeView {
            coordinate: self.coordinate@,
            dependencies: coordinate_views(self.dependencies@),
            depth: self.depth,
        }
    }
}

impl Clone for DependencyNode {
    fn clone(&self) -> (r: Self)
        ensures
            r@ == self@,
    {
        DependencyNode {
            coordinate: self.coordinate.clone(),
            dependencies: crate::coordinate::clone_coordinates(&self.dependencies),
            depth: self.depth,
        }
    }
}

/// Whether every node of a graph stands under the key of its own
/// coordinate.
pub open spec fn keyed(g: Map<Seq<char>, NodeView>) -> bool {
    forall|k: Seq<char>| #[trigger] g.contains_key(k) ==> g[k].coordinate.key() == k
}

/// The nodes of a resolution, by the key of their coordinate. Every node
/// stands under the key of its own coordinate.
#[derive(Debug)]
pub struct DependencyGraph {
    nodes: StringMap<DependencyNode>,
}

impl View for DependencyGraph {
    type V = Map<Seq<char>, NodeView>;

    closed spec fn view(&self) -> Map<Seq<char>, NodeView> {
        self.nodes@.map_values(|n: DependencyNode| n@)
    }
}

impl DependencyGraph {
    /// The keys of the nodes, in the order in which they were first added.
    pub closed spec fn keys(&self) -> Seq<Seq<char>> {
        self.nodes.keys()
    }

    /// Every node stands under the key of its own coordinate.
    #[verifier::type_invariant]
    pub closed spec fn wf(&self) -> bool {
        keyed(self@)
    }

    /// What `wf` says, for those who hold a graph.
    pub proof fn lemma_keyed(&self)
        requires
            self.wf(),
        ensures
            keyed(self@),
    {
    }

    /// An empty graph.
    pub fn new() -> (g: Self)
        ensures
            g@ == Map::<Seq<char>, NodeView>::empty(),
            g.keys() == Seq::<Seq<char>>::empty(),
    {
        let g = DependencyGraph { nodes: StringMap::new() };
        proof {
            assert(g@ =~= Map::<Seq<char>, NodeView>::empty());
        }
        g
    }

    /// Records a node under the key of `coord`. A node that is already there
    /// under that key is replaced.
    pub fn add_node(&mut self, coord: Coordinate, deps: Vec<Coordinate>, depth: usize)
        ensures
            final(self)@ == old(self)@.insert(
                coord@.key(),
                NodeView { coordinate: coord@, dependencies: coordinate_views(deps@), depth },
            ),
            keyed(final(self)@),
    {
        proof {
            use_type_invariant(&*self);
        }
        let key = coord.to_string();
        let node = DependencyNode { coordinate: coord, dependencies: deps, depth };
        let mut taken = DependencyGraph { nodes: StringMap::new() };
        proof {
            assert(taken@ =~= Map::<Seq<char>, NodeView>::empty());
        }
        std::mem::swap(self, &mut taken);
        let mut nodes = taken.nodes;
        nodes.insert(key, node);
        proof {
            assert(nodes@.map_values(|n: DependencyNode| n@) =~= old(self)@.insert(
                coord@.key(),
                node@,
            ));
        }
        *self = DependencyGraph { nodes };
    }

    /// The node under `key`.
    pub fn get(&self, key: &str) -> (r: Option<&DependencyNode>)
        ensures
            match r {
                Some(node) => self@.contains_key(key@) && node@ == self@[key@]
                    && node@.coordinate.key() == key@,
                None => !self@.contains_key(key@),
            },
            keyed(self@),
    {
        proof {
            use_type_invariant(self);
        }
        self.nodes.get(key)
    }

    /// Whether there is a node under `key`.
    pub fn contains(&self, key: &str) -> (b: bool)
        ensures
            b == self@.contains_key(key@),
    {
        self.nodes.contains_key(key)
    }

    /// Number of nodes.
    pub fn len(&self) -> (n: usize)
        ensures
            n == self.keys().len(),
    {
        self.nodes.len()
    }

    /// All nodes, each once, in the order in which their keys were first
    /// added.
    pub fn nodes(&self) -> (r: Vec<&DependencyNode>)
        ensures
            r.len() == self.keys().len(),
            self@.dom() == self.keys().to_set(),
            self.keys().no_duplicates(),
            forall|i: int|
                0 <= i < r.len() ==> self@.contains_key(self.keys()[i]) && (#[trigger] r[i])@
                    == self@[self.keys()[i]] && r[i]@.coordinate.key() == self.keys()[i],
            keyed(self@),
    {
        proof {
            use_type_invariant(self);
        }
        let n = self.nodes.len();
        let mut r: Vec<&DependencyNode> = Vec::new();
        let mut i: usize = 0;
        proof {
            self.nodes.lemma_entries();
            assert(self@.dom() =~= self.keys().to_set());
        }
        while i < n
            invariant
                i <= n,
                n == self.nodes.keys().len(),
                self.nodes.wf(),
                r.len() == i,
                forall|j: int|
                    0 <= j < i ==> self@.contains_key(self.keys()[j]) && (#[trigger] r[j])@
                        == self@[self.keys()[j]],
            decreases n - i,
        {
            proof {
                self.nodes.lemma_entries();
                assert(self.nodes@.contains_key(self.nodes.keys()[i as int]));
            }
            r.push(self.nodes.value_at(i));
            i += 1;
        }
        r
    }
}

impl Default for DependencyGraph {
    fn default() -> (g: Self)
        ensures
            g@ == Map::<Seq<char>, NodeView>::empty(),
    {
        DependencyGraph::new()
    }
}

} // verus!
