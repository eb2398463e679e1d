//! A resolution step by step: the decisions of the resolver without the
//! fetching.
//!
//! Whoever fetches may do so for many coordinates at once. A `Resolution`
//! hands out requests, takes in the manifest or the error that came back
//! for each, and keeps the claims, the graph and the artifacts found. Each
//! coordinate is claimed once, and so fetched and recorded once.

use crate::coordinate::{clone_coordinates, coordinate_views, Coordinate, CoordinateView};
use crate::error::{MavenError, ResolverError};
use crate::graph::{DependencyGraph, NodeView};
use crate::pom::{text_map, Pom};
use crate::resolve::{
    build_overrides, candidates_of, keys_of, override_map, override_version, overridden,
    own_contribution, visit_node, ResolvedTree,
};
use vstd::hash_map::StringHashMap;
use vstd::prelude::*;

verus! {

/// What has become of a coordinate that was asked for.
#[derive(Debug)]
pub enum Claim {
    /// Its manifest is being fetched, for a node at this depth.
    Pending(Coordinate, usize),
    /// Its manifest, or an error in its place, has been taken in.
    Done,
}

/// A `Claim`, as plain values.
pub ghost enum ClaimView {
    Pending(CoordinateView, usize),
    Done,
}

impl View for Claim {
    type V = ClaimView;

    open spec fn view(&self) -> ClaimView {
        match *self {
            Claim::Pending(c, d) => ClaimView::Pending(c@, d),
            Claim::Done => ClaimView::Done,
        }
    }
}

/// A coordinate whose effective manifest is to be fetched.
#[derive(Debug)]
pub struct Request {
    pub coordinate: Coordinate,
    pub depth: usize,
}

/// A `Request`, as plain values.
pub ghost struct RequestView {
    pub coordinate: CoordinateView,
    pub depth: usize,
}

impl View for Request {
    type V = RequestView;

    open spec fn view(&self) -> RequestView {
        RequestView { coordinate: self.coordinate@, depth: self.depth }
    }
}

/// The views of a sequence of requests.
pub open spec fn request_views(v: Seq<Request>) -> Seq<RequestView> {
    v.map_values(|r: Request| r@)
}

/// Requests and the claims that stand after they were made.
pub ghost struct Claimed {
    pub requests: Seq<RequestView>,
    pub claims: Map<Seq<char>, ClaimView>,
}

/// What asking for `wanted`, one after the other, comes to: each is turned
/// into what the roots decide, and becomes a request unless its key is
/// claimed already.
pub open spec fn claimed_all(
    wanted: Seq<CoordinateView>,
    claims: Map<Seq<char>, ClaimView>,
    rules: Map<Seq<char>, Seq<char>>,
    depth: usize,
) -> Claimed
    decreases wanted.len(),
{
    if wanted.len() == 0 {
        Claimed { requests: Seq::empty(), claims }
    } else {
        let before = claimed_all(wanted.drop_last(), claims, rules, depth);
        let c = overridden(wanted.last(), rules);
        if before.claims.contains_key(c.key()) {
            before
        } else {
            Claimed {
                requests: before.requests.push(RequestView { coordinate: c, depth }),
                claims: before.claims.insert(c.key(), ClaimView::Pending(c, depth)),
            }
        }
    }
}

/// What follows a recorded manifest at depth `depth`: requests for its
/// transitive candidates one level down, as far as depths can be counted.
pub open spec fn followed(
    candidates: Seq<CoordinateView>,
    claims: Map<Seq<char>, ClaimView>,
    rules: Map<Seq<char>, Seq<char>>,
    depth: usize,
) -> Claimed {
    if depth < usize::MAX {
        claimed_all(candidates, claims, rules, (depth + 1) as usize)
    } else {
        Claimed { requests: Seq::empty(), claims }
    }
}

/// A resolution in progress.
pub struct Resolution {
    overrides: StringHashMap<String>,
    claims: StringHashMap<Claim>,
    graph: DependencyGraph,
    found: Vec<Coordinate>,
    roots: Vec<Coordinate>,
}

impl Resolution {
    /// The versions that the roots decide.
    pub closed spec fn rules(&self) -> Map<Seq<char>, Seq<char>> {
        text_map(self.overrides@)
    }

    /// What has become of each coordinate that was asked for, by key.
    pub closed spec fn claims(&self) -> Map<Seq<char>, ClaimView> {
        self.claims@.map_values(|c: Claim| c@)
    }

    /// The graph as far as it is filled.
    pub closed spec fn graph(&self) -> Map<Seq<char>, NodeView> {
        self.graph@
    }

    /// The artifacts found so far.
    pub closed spec fn found(&self) -> Seq<CoordinateView> {
        coordinate_views(self.found@)
    }

    /// The roots.
    pub closed spec fn roots(&self) -> Seq<CoordinateView> {
        coordinate_views(self.roots@)
    }

    /// What holds of a resolution at every step: the roots decide the
    /// versions; no two artifacts found have the same key; each of them is
    /// done with, stands in the graph under its key, and has the version
    /// that the roots decide; and each pending claim stands under the key
    /// of its coordinate.
    pub open spec fn wf(&self) -> bool {
        &&& self.rules() == override_map(self.roots())
        &&& keys_of(self.found()).no_duplicates()
        &&& forall|i: int|
            0 <= i < self.found().len() ==> {
                let c = #[trigger] self.found()[i];
                &&& self.claims().contains_key(c.key())
                &&& self.claims()[c.key()] is Done
                &&& self.graph().contains_key(c.key())
                &&& self.graph()[c.key()].coordinate == c
                &&& overridden(c, self.rules()) == c
            }
        &&& forall|k: Seq<char>| #[trigger]
            self.claims().contains_key(k) ==> (self.claims()[k] matches ClaimView::Pending(c, _)
                ==> c.key() == k && overridden(c, self.rules()) == c)
    }

    /// Asks for `requested` at `depth`.
    fn claim(&mut self, requested: &Coordinate, depth: usize) -> (r: Option<Request>)
        requires
            old(self).wf(),
        ensures
            final(self).wf(),
            final(self).rules() == old(self).rules(),
            final(self).roots() == old(self).roots(),
            final(self).graph() == old(self).graph(),
            final(self).found() == old(self).found(),
            ({
                let c = overridden(requested@, old(self).rules());
                if old(self).claims().contains_key(c.key()) {
                    &&& r is None
                    &&& final(self).claims() == old(self).claims()
                } else {
                    &&& r matches Some(request)
                    &&& request@ == (RequestView { coordinate: c, depth })
                    &&& final(self).claims() == old(self).claims().insert(
                        c.key(),
                        ClaimView::Pending(c, depth),
                    )
                }
            }),
    {
        let ghost rules = self.rules();
        let ghost before = self.claims();
        let coord = override_version(requested, &self.overrides);
        let key = coord.to_string();
        if self.claims.contains_key(key.as_str()) {
            return None;
        }
        proof {
            crate::resolve::lemma_overridden_idempotent(requested@, rules);
        }
        self.claims.insert(key, Claim::Pending(coord.clone(), depth));
        proof {
            assert(self.claims() =~= before.insert(
                coord@.key(),
                ClaimView::Pending(coord@, depth),
            ));
            assert forall|i: int| 0 <= i < self.found().len() implies {
                let c = #[trigger] self.found()[i];
                &&& self.claims().contains_key(c.key())
                &&& self.claims()[c.key()] is Done
            } by {
                let c = self.found()[i];
                assert(before.contains_key(c.key()));
            }
        }
        Some(Request { coordinate: coord, depth })
    }

    /// Asks for each of `wanted` at `depth`, one after the other.
    fn claim_all(&mut self, wanted: &Vec<Coordinate>, depth: usize) -> (requests: Vec<Request>)
        requires
            old(self).wf(),
        ensures
            final(self).wf(),
            final(self).rules() == old(self).rules(),
            final(self).roots() == old(self).roots(),
            final(self).graph() == old(self).graph(),
            final(self).found() == old(self).found(),
            final(self).claims() == claimed_all(
                coordinate_views(wanted@),
                old(self).claims(),
                old(self).rules(),
                depth,
            ).claims,
            request_views(requests@) == claimed_all(
                coordinate_views(wanted@),
                old(self).claims(),
                old(self).rules(),
                depth,
            ).requests,
    {
        let ghost all = coordinate_views(wanted@);
        let ghost start = self.claims();
        let ghost rules = self.rules();
        let mut requests: Vec<Request> = Vec::new();
        let mut i: usize = 0;
        proof {
            assert(request_views(requests@) =~= Seq::<RequestView>::empty());
            assert(all.take(0) =~= Seq::<CoordinateView>::empty());
        }
        while i < wanted.len()
            invariant
                i <= wanted.len(),
                all == coordinate_views(wanted@),
                self.wf(),
                self.rules() == rules,
                self.rules() == old(self).rules(),
                self.roots() == old(self).roots(),
                self.graph() == old(self).graph(),
                self.found() == old(self).found(),
                self.claims() == claimed_all(all.take(i as int), start, rules, depth).claims,
                request_views(requests@) == claimed_all(
                    all.take(i as int),
                    start,
                    rules,
                    depth,
                ).requests,
            decreases wanted.len() - i,
        {
            let ghost before = request_views(requests@);
            proof {
                assert(all.take(i + 1).drop_last() == all.take(i as int));
                assert(all.take(i + 1).last() == wanted@[i as int]@);
            }
            match self.claim(&wanted[i], depth) {
                Some(request) => {
                    requests.push(request);
                    proof {
                        assert(request_views(requests@) =~= before.push(request@));
                    }
                },
                None => {},
            }
            i += 1;
        }
        proof {
            assert(all.take(wanted.len() as int) == all);
        }
        requests
    }

    /// Begins a resolution of `roots` over `graph`, and says what to fetch
    /// first: the roots, each turned into what the roots together decide,
    /// and each key once.
    pub fn begin(roots: &Vec<Coordinate>, graph: DependencyGraph) -> (r: (Resolution, Vec<Request>))
        ensures
            r.0.wf(),
            r.0.roots() == coordinate_views(roots@),
            r.0.rules() == override_map(coordinate_views(roots@)),
            r.0.graph() == graph@,
            r.0.found().len() == 0,
            r.0.claims() == claimed_all(
                coordinate_views(roots@),
                Map::empty(),
                override_map(coordinate_views(roots@)),
                0,
            ).claims,
            request_views(r.1@) == claimed_all(
                coordinate_views(roots@),
                Map::empty(),
                override_map(coordinate_views(roots@)),
                0,
            ).requests,
    {
        let mut resolution = Resolution {
            overrides: build_overrides(roots),
            claims: StringHashMap::new(),
            graph,
            found: Vec::new(),
            roots: clone_coordinates(roots),
        };
        proof {
            assert(resolution.claims() =~= Map::<Seq<char>, ClaimView>::empty());
            assert(resolution.found() =~= Seq::<CoordinateView>::empty());
            assert(keys_of(resolution.found()) =~= Seq::<Seq<char>>::empty());
        }
        let requests = resolution.claim_all(roots, 0);
        (resolution, requests)
    }

    /// Takes in the effective manifest that was fetched for `request`, and
    /// says what to fetch next. The node is recorded, the coordinate is
    /// found unless its manifest is packaged as `pom`, and its transitive
    /// candidates are asked for one level down. A request that is not
    /// pending changes nothing.
    pub fn record(&mut self, request: &Request, pom: Pom) -> (next: Vec<Request>)
        requires
            old(self).wf(),
        ensures
            final(self).wf(),
            final(self).rules() == old(self).rules(),
            final(self).roots() == old(self).roots(),
            ({
                let key = request@.coordinate.key();
                if old(self).claims().contains_key(key) && old(self).claims()[key] is Pending {
                    let c = old(self).claims()[key]->Pending_0;
                    let depth = old(self).claims()[key]->Pending_1;
                    let then = followed(
                        candidates_of(pom@),
                        old(self).claims().insert(key, ClaimView::Done),
                        old(self).rules(),
                        depth,
                    );
                    &&& final(self).graph() == old(self).graph().insert(
                        key,
                        NodeView { coordinate: c, dependencies: candidates_of(pom@), depth },
                    )
                    &&& final(self).found() == old(self).found() + own_contribution(
                        c,
                        pom@.packaging,
                    )
                    &&& final(self).claims() == then.claims
                    &&& request_views(next@) == then.requests
                } else {
                    &&& final(self).graph() == old(self).graph()
                    &&& final(self).found() == old(self).found()
                    &&& final(self).claims() == old(self).claims()
                    &&& next@.len() == 0
                }
            }),
    {
        let key = request.coordinate.to_string();
        let ghost k = request@.coordinate.key();
        let ghost claims0 = self.claims();
        let ghost found0 = self.found();
        let ghost graph0 = self.graph();
        let ghost rules = self.rules();
        let (coord, depth) = match self.claims.get(key.as_str()) {
            Some(Claim::Pending(c, d)) => (c.clone(), *d),
            _ => {
                return Vec::new();
            },
        };
        proof {
            assert(claims0.contains_key(k));
            assert(claims0[k] == ClaimView::Pending(coord@, depth));
            assert(coord@.key() == k);
        }
        self.claims.insert(key, Claim::Done);
        let ghost claims1 = self.claims();
        proof {
            assert(claims1 =~= claims0.insert(k, ClaimView::Done));
        }
        let (transitive, mut own) = visit_node(&mut self.graph, &coord, pom, depth);
        let ghost mine = coordinate_views(own@);
        self.found.append(&mut own);
        proof {
            assert(self.found() =~= found0 + mine);
            assert forall|i: int| 0 <= i < found0.len() implies (#[trigger] found0[i]).key() != k by {
                assert(claims0[found0[i].key()] is Done);
            }
            assert forall|i: int, j: int|
                0 <= i < self.found().len() && 0 <= j < self.found().len() && i
                    != j implies keys_of(self.found())[i] != keys_of(self.found())[j] by {
                if i < found0.len() && j < found0.len() {
                    assert(keys_of(found0)[i] != keys_of(found0)[j]);
                }
            }
            assert forall|i: int| 0 <= i < self.found().len() implies {
                let c = #[trigger] self.found()[i];
                &&& self.claims().contains_key(c.key())
                &&& self.claims()[c.key()] is Done
                &&& self.graph().contains_key(c.key())
                &&& self.graph()[c.key()].coordinate == c
                &&& overridden(c, self.rules()) == c
            } by {
                if i < found0.len() {
                    assert(self.found()[i] == found0[i]);
                    assert(found0[i].key() != k);
                } else {
                    assert(self.found()[i] == coord@);
                }
            }
            assert(self.wf());
        }
        if depth < usize::MAX {
            self.claim_all(&transitive, depth + 1)
        } else {
            Vec::new()
        }
    }

    /// Takes in the error that came back for `request`. The failure of a
    /// root, which is a request at depth 0, is the failure of the whole;
    /// any other is passed over. A request that is not pending changes
    /// nothing.
    pub fn fail(&mut self, request: &Request, error: MavenError) -> (r: Result<(), ResolverError>)
        requires
            old(self).wf(),
        ensures
            final(self).wf(),
            final(self).rules() == old(self).rules(),
            final(self).roots() == old(self).roots(),
            final(self).graph() == old(self).graph(),
            final(self).found() == old(self).found(),
            ({
                let key = request@.coordinate.key();
                if old(self).claims().contains_key(key) && old(self).claims()[key] is Pending {
                    &&& final(self).claims() == old(self).claims().insert(key, ClaimView::Done)
                    &&& old(self).claims()[key]->Pending_1 == 0 ==> r == Err::<(), ResolverError>(
                        ResolverError::Maven(error),
                    )
                    &&& old(self).claims()[key]->Pending_1 > 0 ==> r is Ok
                } else {
                    &&& final(self).claims() == old(self).claims()
                    &&& r is Ok
                }
            }),
    {
        let key = request.coordinate.to_string();
        let ghost k = request@.coordinate.key();
        let ghost claims0 = self.claims();
        let depth = match self.claims.get(key.as_str()) {
            Some(Claim::Pending(_, d)) => *d,
            _ => {
                return Ok(());
            },
        };
        self.claims.insert(key, Claim::Done);
        proof {
            assert(self.claims() =~= claims0.insert(k, ClaimView::Done));
            assert forall|i: int| 0 <= i < self.found().len() implies {
                let c = #[trigger] self.found()[i];
                &&& self.claims().contains_key(c.key())
                &&& self.claims()[c.key()] is Done
            } by {
                let c = self.found()[i];
                assert(claims0.contains_key(c.key()));
            }
        }
        if depth == 0 {
            Err(ResolverError::Maven(error))
        } else {
            Ok(())
        }
    }

    /// Ends the resolution: the roots as they were asked for, the artifacts
    /// found, each once, and the graph.
    pub fn finish(self) -> (r: (ResolvedTree, DependencyGraph))
        requires
            self.wf(),
        ensures
            r.1@ == self.graph(),
            coordinate_views(r.0.root_dependencies@) == self.roots(),
            coordinate_views(r.0.all_dependencies@) == self.found(),
            keys_of(coordinate_views(r.0.all_dependencies@)).no_duplicates(),
            forall|i: int|
                0 <= i < r.0.all_dependencies@.len() ==> {
                    let c = (#[trigger] r.0.all_dependencies@[i])@;
                    &&& r.1@.contains_key(c.key())
                    &&& r.1@[c.key()].coordinate == c
                    &&& overridden(c, override_map(self.roots())) == c
                },
    {
        let ghost found = self.found();
        let Resolution { graph, found: all, roots, .. } = self;
        proof {
            assert forall|i: int| 0 <= i < all@.len() implies {
                let c = (#[trigger] all@[i])@;
                &&& graph@.contains_key(c.key())
                &&& graph@[c.key()].coordinate == c
                &&& overridden(c, override_map(coordinate_views(roots@))) == c
            } by {
                assert(found[i] == all@[i]@);
            }
        }
        (ResolvedTree { root_dependencies: roots, all_dependencies: all }, graph)
    }
}

} // verus!
