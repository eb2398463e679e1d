//! The resolver: from root coordinates to the flat list of artifacts that a
//! project needs, and the graph that led there.
//!
//! Roots decide versions: a request for a group and artifact that a root
//! names is turned into a request for the root's version, at any depth. A
//! coordinate is resolved once; a set of visited keys stops cycles and
//! repeated work. A manifest inherits properties and managed versions from
//! its parents. Of a manifest's dependencies only those that propagate are
//! followed.

use crate::client::{file_url, manifest_in, HttpResponse, MavenClient, MavenTransport};
use crate::coordinate::{
    clone_coordinates, coordinate_views, default_packaging_text, Coordinate, CoordinateView,
};
use crate::error::{MavenError, MavenErrorView, ResolverError};
use crate::graph::{keyed, DependencyGraph, NodeView};
use crate::pom::{
    dependency_views, filled_dependencies, inherited_properties, resolved_dependencies,
    text_map, DependencyScope, DependencyView, Pom, PomView,
};
use crate::pom_parser::manifest_matches;
use crate::text::equals;
pub use vstd::hash_map::StringHashMap;
use vstd::prelude::*;

verus! {

/// What a resolution gives: the roots as they were asked for, and every
/// artifact that they need, each once.
#[derive(Debug)]
pub struct ResolvedTree {
    pub root_dependencies: Vec<Coordinate>,
    pub all_dependencies: Vec<Coordinate>,
}

/// Resolves dependencies through a client, and keeps the graph.
pub struct Resolver<T: MavenTransport> {
    pub client: MavenClient<T>,
    pub graph: DependencyGraph,
}

/// How many ancestors of a manifest are followed at most: its parent, the
/// parent's parent, and so on up to the tenth.
pub const MAX_PARENT_DEPTH: usize = 10;

/// The versions that the roots decide: for each root's group and artifact
/// its version, the later root winning where two name the same.
pub open spec fn override_map(roots: Seq<CoordinateView>) -> Map<Seq<char>, Seq<char>>
    decreases roots.len(),
{
    if roots.len() == 0 {
        Map::empty()
    } else {
        override_map(roots.drop_last()).insert(roots.last().ga(), roots.last().version)
    }
}

/// A request after the roots have had their say: where a root names its
/// group and artifact, the version is the root's.
pub open spec fn overridden(c: CoordinateView, overrides: Map<Seq<char>, Seq<char>>) -> CoordinateView {
    if overrides.contains_key(c.ga()) {
        CoordinateView { version: overrides[c.ga()], ..c }
    } else {
        c
    }
}

/// Whether a dependency is followed: its scope is `Compile` or `Provided`,
/// it is not optional, and its version is known.
pub open spec fn propagates(d: DependencyView) -> bool {
    (d.scope == DependencyScope::Compile || d.scope == DependencyScope::Provided) && !d.optional
        && d.version is Some
}

/// The coordinate that a dependency with a version asks for.
pub open spec fn candidate(d: DependencyView) -> CoordinateView {
    CoordinateView {
        group_id: d.group_id,
        artifact_id: d.artifact_id,
        version: d.version->0,
        classifier: None,
        packaging: default_packaging_text(),
    }
}

/// The transitive candidates of a manifest: the coordinates of those of its
/// dependencies that propagate, in their order.
pub open spec fn transitive_candidates(deps: Seq<DependencyView>) -> Seq<CoordinateView>
    decreases deps.len(),
{
    if deps.len() == 0 {
        Seq::empty()
    } else {
        let before = transitive_candidates(deps.drop_last());
        if propagates(deps.last()) {
            before.push(candidate(deps.last()))
        } else {
            before
        }
    }
}

/// The keys of a list of coordinates.
pub open spec fn keys_of(list: Seq<CoordinateView>) -> Seq<Seq<char>> {
    list.map_values(|c: CoordinateView| c.key())
}

/// A list without the coordinates whose key occurred before in it.
pub open spec fn distinct_by_key(list: Seq<CoordinateView>) -> Seq<CoordinateView>
    decreases list.len(),
{
    if list.len() == 0 {
        Seq::empty()
    } else {
        let before = distinct_by_key(list.drop_last());
        if keys_of(before).contains(list.last().key()) {
            before
        } else {
            before.push(list.last())
        }
    }
}

/// A manifest that has inherited from its parent: the parent's managed
/// dependencies stand behind its own, the parent's properties are added
/// where it sets none of that name, and all dependencies are resolved
/// against the properties so merged.
pub open spec fn inherited(pom: PomView, parent: PomView) -> PomView {
    let props = inherited_properties(pom.properties, parent.properties);
    PomView {
        properties: props,
        dependencies: resolved_dependencies(pom.dependencies, props),
        dependency_management: resolved_dependencies(
            pom.dependency_management + parent.dependency_management,
            props,
        ),
        ..pom
    }
}

/// A fetched manifest or the error in its place, as plain values.
pub open spec fn manifest_view(r: Result<Pom, MavenError>) -> Result<PomView, MavenErrorView> {
    match r {
        Ok(p) => Ok(p@),
        Err(e) => Err(e@),
    }
}

/// A manifest after its parent was looked for: one whose parent could not
/// be resolved inherits nothing.
pub open spec fn with_parent(pom: PomView, parent: Result<PomView, MavenErrorView>) -> PomView {
    match parent {
        Ok(p) => inherited(pom, p),
        Err(_) => pom,
    }
}

/// The parent that is asked for after a manifest was fetched at `depth`
/// hops from the manifest that the walk began with: the manifest's parent,
/// unless `MAX_PARENT_DEPTH` hops have been made.
pub open spec fn parent_followed(pom: PomView, depth: nat) -> Option<CoordinateView> {
    if depth >= MAX_PARENT_DEPTH {
        None
    } else {
        pom.parent
    }
}

/// The effective manifest of `c`, given the responses that the transport
/// gave, in the order of the requests: first for the manifest of `c`, then
/// for its parent, and so on up the chain. Only a failure of the first
/// request is a failure of the whole.
pub open spec fn effective_manifest(
    base: Seq<char>,
    c: CoordinateView,
    depth: nat,
    responses: Seq<Result<HttpResponse, MavenError>>,
) -> Result<PomView, MavenErrorView>
    decreases responses.len(),
{
    if responses.len() == 0 {
        Err(MavenErrorView::Http(Seq::empty()))
    } else {
        match manifest_in(file_url(base, c, c.pom_filename()), responses[0]) {
            Err(e) => Err(e),
            Ok(pom) => match parent_followed(pom, depth) {
                None => Ok(pom),
                Some(p) => Ok(
                    with_parent(pom, effective_manifest(base, p, depth + 1, responses.skip(1))),
                ),
            },
        }
    }
}

/// Whether `responses` are the responses of one walk up the parents of
/// `c`: one for the manifest of `c`, and, where that manifest was read and
/// a parent is asked for, those of the walk up from the parent; none
/// besides.
pub open spec fn walked(
    base: Seq<char>,
    c: CoordinateView,
    depth: nat,
    responses: Seq<Result<HttpResponse, MavenError>>,
) -> bool
    decreases responses.len(),
{
    responses.len() > 0 && (match manifest_in(file_url(base, c, c.pom_filename()), responses[0]) {
        Err(_) => responses.len() == 1,
        Ok(pom) => match parent_followed(pom, depth) {
            None => responses.len() == 1,
            Some(p) => walked(base, p, depth + 1, responses.skip(1)),
        },
    })
}

/// A walk makes one request for the manifest itself and at most one for
/// each of `MAX_PARENT_DEPTH` ancestors; begun `depth` hops up, so many
/// fewer.
pub proof fn lemma_walk_bound(
    base: Seq<char>,
    c: CoordinateView,
    depth: nat,
    responses: Seq<Result<HttpResponse, MavenError>>,
)
    requires
        walked(base, c, depth, responses),
    ensures
        responses.len() >= 1,
        depth >= MAX_PARENT_DEPTH ==> responses.len() == 1,
        depth < MAX_PARENT_DEPTH ==> responses.len() <= 1 + MAX_PARENT_DEPTH - depth,
    decreases responses.len(),
{
    match manifest_in(file_url(base, c, c.pom_filename()), responses[0]) {
        Err(_) => {},
        Ok(pom) => match parent_followed(pom, depth) {
            None => {},
            Some(p) => {
                lemma_walk_bound(base, p, depth + 1, responses.skip(1));
            },
        },
    }
}

/// Whether a walk gives a manifest is decided by the response for the
/// manifest itself: where that one is read, the walk gives a manifest,
/// whatever became of the parents; where it is not, the walk fails as that
/// request did.
pub proof fn lemma_own_manifest_decides(
    base: Seq<char>,
    c: CoordinateView,
    depth: nat,
    responses: Seq<Result<HttpResponse, MavenError>>,
)
    requires
        responses.len() > 0,
    ensures
        match manifest_in(file_url(base, c, c.pom_filename()), responses[0]) {
            Ok(_) => effective_manifest(base, c, depth, responses) is Ok,
            Err(e) => effective_manifest(base, c, depth, responses) == Err::<
                PomView,
                MavenErrorView,
            >(e),
        },
{
}

/// What a resolution may do to the visited keys and the graph: both only
/// grow, and a node is added or replaced only under a key that was not
/// visited before.
pub open spec fn progressed(
    v0: Set<Seq<char>>,
    g0: Map<Seq<char>, NodeView>,
    v1: Set<Seq<char>>,
    g1: Map<Seq<char>, NodeView>,
) -> bool {
    &&& v0.subset_of(v1)
    &&& g0.dom().subset_of(g1.dom())
    &&& forall|k: Seq<char>| #[trigger]
        g1.contains_key(k) && (!g0.contains_key(k) || g1[k] != g0[k]) ==> v1.contains(k)
            && !v0.contains(k)
}

/// Whether the node under `k` is new or another than it was.
pub open spec fn changed(
    g0: Map<Seq<char>, NodeView>,
    g1: Map<Seq<char>, NodeView>,
    k: Seq<char>,
) -> bool {
    g1.contains_key(k) && (!g0.contains_key(k) || g1[k] != g0[k])
}

/// Whether what was asked for before is as it was: the keys are still
/// there, and each says as before whether its node was recorded.
pub open spec fn flags_kept(m0: Map<Seq<char>, bool>, m1: Map<Seq<char>, bool>) -> bool {
    forall|k: Seq<char>| #[trigger] m0.contains_key(k) ==> m1.contains_key(k) && m1[k] == m0[k]
}

/// Whether the key `k` was asked for in this resolution, and its node
/// recorded.
pub open spec fn recorded_here(
    m0: Map<Seq<char>, bool>,
    m1: Map<Seq<char>, bool>,
    k: Seq<char>,
) -> bool {
    m1.contains_key(k) && m1[k] && !m0.contains_key(k)
}

/// What holds of a node that a resolution has recorded and gone on from:
/// its coordinate has the version that the roots decide, and each of its
/// transitive candidates, as the roots decide it, has been asked for,
/// unless the node is as deep as depths can be counted.
pub open spec fn node_descended(
    k: Seq<char>,
    m1: Map<Seq<char>, bool>,
    g1: Map<Seq<char>, NodeView>,
    overrides: Map<Seq<char>, Seq<char>>,
) -> bool {
    &&& g1.contains_key(k)
    &&& overridden(g1[k].coordinate, overrides) == g1[k].coordinate
    &&& g1[k].depth < usize::MAX ==> forall|j: int|
        0 <= j < g1[k].dependencies.len() ==> m1.contains_key(
            overridden(#[trigger] g1[k].dependencies[j], overrides).key(),
        )
}

/// How far a resolution has gone. `m0` and `m1` say which keys were asked
/// for before and after, and of each whether its node was recorded; `g0`
/// and `g1` are the graph before and after. What was asked for before is as
/// it was; the graph keeps its keys; every node that was recorded here, but for those under
/// `open`, has been gone on from; and a node is new or another than it was
/// only where it was recorded here.
pub open spec fn descended_but(
    m0: Map<Seq<char>, bool>,
    m1: Map<Seq<char>, bool>,
    g0: Map<Seq<char>, NodeView>,
    g1: Map<Seq<char>, NodeView>,
    overrides: Map<Seq<char>, Seq<char>>,
    open: Set<Seq<char>>,
) -> bool {
    &&& flags_kept(m0, m1)
    &&& g0.dom().subset_of(g1.dom())
    &&& forall|k: Seq<char>| #[trigger]
        recorded_here(m0, m1, k) && !open.contains(k) ==> node_descended(k, m1, g1, overrides)
    &&& forall|k: Seq<char>| #[trigger] changed(g0, g1, k) ==> recorded_here(m0, m1, k)
}

/// How far a resolution has gone when none of its nodes is left open.
pub open spec fn descended(
    m0: Map<Seq<char>, bool>,
    m1: Map<Seq<char>, bool>,
    g0: Map<Seq<char>, NodeView>,
    g1: Map<Seq<char>, NodeView>,
    overrides: Map<Seq<char>, Seq<char>>,
) -> bool {
    descended_but(m0, m1, g0, g1, overrides, Set::empty())
}

/// Whether each of `out` was asked for, and its node recorded.
pub open spec fn all_recorded(out: Seq<CoordinateView>, m: Map<Seq<char>, bool>) -> bool {
    forall|i: int| 0 <= i < out.len() ==> m.contains_key((#[trigger] out[i]).key()) && m[out[i].key()]
}

/// What a successful resolution of `roots` comes to, whatever the
/// transport answered. `called` says which keys were asked for, and of
/// each whether its node was recorded. Every root, as the roots decide it,
/// was asked for; every node that was recorded has been gone on from; a
/// node of the graph is new or another than it was only where it was
/// recorded; every artifact listed was recorded; every node that was
/// recorded is what an effective manifest of its coordinate says, and is
/// listed unless that manifest is packaged as `pom`; and every such node
/// is what a root asks for, at depth 0, or what a transitive candidate of
/// another asks for, one level below it; and what was asked for without a
/// node being recorded is the candidate of a node, never a root by itself.
pub open spec fn resolved_with(
    called: Map<Seq<char>, bool>,
    base: Seq<char>,
    roots: Seq<CoordinateView>,
    overrides: Map<Seq<char>, Seq<char>>,
    g0: Map<Seq<char>, NodeView>,
    g1: Map<Seq<char>, NodeView>,
    all: Seq<CoordinateView>,
) -> bool {
    &&& forall|i: int|
        0 <= i < roots.len() ==> called.contains_key(overridden(#[trigger] roots[i], overrides).key())
    &&& descended(Map::empty(), called, g0, g1, overrides)
    &&& all_recorded(all, called)
    &&& listed(base, Map::empty(), called, g1, all)
    &&& all_reached(0, roots.to_set(), Map::empty(), called, g1, overrides)
    &&& failures_below(Map::empty(), called, g1, overrides)
}

/// A node that was gone on from stays so while the resolution goes on.
pub proof fn lemma_node_descended_kept(
    k: Seq<char>,
    m1: Map<Seq<char>, bool>,
    g1: Map<Seq<char>, NodeView>,
    m2: Map<Seq<char>, bool>,
    g2: Map<Seq<char>, NodeView>,
    overrides: Map<Seq<char>, Seq<char>>,
)
    requires
        node_descended(k, m1, g1, overrides),
        flags_kept(m1, m2),
        g2.contains_key(k),
        g2[k] == g1[k],
    ensures
        node_descended(k, m2, g2, overrides),
{
    if g1[k].depth < usize::MAX {
        assert forall|j: int| 0 <= j < g2[k].dependencies.len() implies m2.contains_key(
            overridden(#[trigger] g2[k].dependencies[j], overrides).key(),
        ) by {
            assert(m1.contains_key(overridden(g1[k].dependencies[j], overrides).key()));
        }
    }
}

/// Two stretches of a resolution in a row are one. What the first left
/// open stays open.
pub proof fn lemma_descended_transitive(
    m0: Map<Seq<char>, bool>,
    m1: Map<Seq<char>, bool>,
    m2: Map<Seq<char>, bool>,
    g0: Map<Seq<char>, NodeView>,
    g1: Map<Seq<char>, NodeView>,
    g2: Map<Seq<char>, NodeView>,
    overrides: Map<Seq<char>, Seq<char>>,
    open: Set<Seq<char>>,
)
    requires
        descended_but(m0, m1, g0, g1, overrides, open),
        descended(m1, m2, g1, g2, overrides),
    ensures
        descended_but(m0, m2, g0, g2, overrides, open),
{
    assert forall|k: Seq<char>| #[trigger] m0.contains_key(k) implies m2.contains_key(k) && m2[k]
        == m0[k] by {
        assert(m1.contains_key(k));
    }
    assert forall|k: Seq<char>| #[trigger]
        recorded_here(m0, m2, k) && !open.contains(k) implies node_descended(
        k,
        m2,
        g2,
        overrides,
    ) by {
        if m1.contains_key(k) {
            assert(recorded_here(m0, m1, k));
            assert(node_descended(k, m1, g1, overrides));
            assert(g1.dom().contains(k));
            assert(!changed(g1, g2, k));
            lemma_node_descended_kept(k, m1, g1, m2, g2, overrides);
        } else {
            assert(recorded_here(m1, m2, k));
        }
    }
    assert forall|k: Seq<char>| #[trigger] changed(g0, g2, k) implies recorded_here(m0, m2, k) by {
        if changed(g1, g2, k) {
            assert(recorded_here(m1, m2, k));
            if m0.contains_key(k) {
                assert(m1.contains_key(k));
            }
        } else {
            assert(changed(g0, g1, k));
            assert(recorded_here(m0, m1, k));
        }
    }
}

/// A node that was recorded for a coordinate stays recorded while the
/// graph keeps the node and the list keeps its first entry.
pub proof fn lemma_recorded_kept(
    base: Seq<char>,
    c: CoordinateView,
    depth: usize,
    g1: Map<Seq<char>, NodeView>,
    out1: Seq<CoordinateView>,
    g2: Map<Seq<char>, NodeView>,
    out2: Seq<CoordinateView>,
)
    requires
        recorded(base, c, depth, g1, out1),
        g2.contains_key(c.key()),
        g2[c.key()] == g1[c.key()],
        out1.len() > 0 ==> out2.len() > 0 && out2[0] == out1[0],
    ensures
        recorded(base, c, depth, g2, out2),
{
    let responses = choose|responses: Seq<Result<HttpResponse, MavenError>>|
        walked(base, c, 0, responses) && (match #[trigger] effective_manifest(
            base,
            c,
            0,
            responses,
        ) {
            Ok(pom) => g1.contains_key(c.key()) && g1[c.key()] == (NodeView {
                coordinate: c,
                dependencies: candidates_of(pom),
                depth,
            }) && own_contribution(c, pom.packaging).is_prefix_of(out1),
            Err(_) => false,
        });
    let pom = effective_manifest(base, c, 0, responses)->Ok_0;
    let own = own_contribution(c, pom.packaging);
    assert(own.is_prefix_of(out2)) by {
        if own.len() > 0 {
            assert(own[0] == out1[0]);
        }
        assert(own =~= out2.subrange(0, own.len() as int));
    }
    assert(walked(base, c, 0, responses) && (match effective_manifest(base, c, 0, responses) {
        Ok(pom) => g2.contains_key(c.key()) && g2[c.key()] == (NodeView {
            coordinate: c,
            dependencies: candidates_of(pom),
            depth,
        }) && own_contribution(c, pom.packaging).is_prefix_of(out2),
        Err(_) => false,
    }));
}

/// A node that was recorded for a coordinate stands in the graph under
/// the coordinate's key, with the coordinate and the depth.
pub proof fn lemma_recorded_has_node(
    base: Seq<char>,
    c: CoordinateView,
    depth: usize,
    g: Map<Seq<char>, NodeView>,
    out: Seq<CoordinateView>,
)
    requires
        recorded(base, c, depth, g, out),
    ensures
        g.contains_key(c.key()),
        g[c.key()].coordinate == c,
        g[c.key()].depth == depth,
{
    let responses = choose|responses: Seq<Result<HttpResponse, MavenError>>|
        walked(base, c, 0, responses) && (match #[trigger] effective_manifest(
            base,
            c,
            0,
            responses,
        ) {
            Ok(pom) => g.contains_key(c.key()) && g[c.key()] == (NodeView {
                coordinate: c,
                dependencies: candidates_of(pom),
                depth,
            }) && own_contribution(c, pom.packaging).is_prefix_of(out),
            Err(_) => false,
        });
}

/// What was recorded stays recorded while the resolution goes on.
pub proof fn lemma_all_recorded_kept(
    out: Seq<CoordinateView>,
    m1: Map<Seq<char>, bool>,
    m2: Map<Seq<char>, bool>,
)
    requires
        all_recorded(out, m1),
        flags_kept(m1, m2),
    ensures
        all_recorded(out, m2),
{
    assert forall|i: int| 0 <= i < out.len() implies m2.contains_key((#[trigger] out[i]).key())
        && m2[out[i].key()] by {
        assert(m1.contains_key(out[i].key()));
    }
}

/// Whether `c` is what the `j`-th transitive candidate of the node under
/// `k` asks for, once the roots have had their say.
pub open spec fn follows(
    g: Map<Seq<char>, NodeView>,
    k: Seq<char>,
    j: int,
    c: CoordinateView,
    overrides: Map<Seq<char>, Seq<char>>,
) -> bool {
    g.contains_key(k) && 0 <= j < g[k].dependencies.len() && overridden(
        g[k].dependencies[j],
        overrides,
    ) == c
}

/// Where a contributed coordinate comes from: it is what one of the
/// requests asks for, or what a transitive candidate of a node asks for
/// that was recorded in this resolution.
pub open spec fn came_from(
    c: CoordinateView,
    requests: Set<CoordinateView>,
    v0: Set<Seq<char>>,
    v1: Set<Seq<char>>,
    g1: Map<Seq<char>, NodeView>,
    overrides: Map<Seq<char>, Seq<char>>,
) -> bool {
    (exists|r: CoordinateView| #[trigger] requests.contains(r) && overridden(r, overrides) == c)
        || (exists|k: Seq<char>, j: int| #[trigger]
        follows(g1, k, j, c, overrides) && v1.contains(k) && !v0.contains(k))
}

/// Whether `c` is what one of the roots asks for, or what a transitive
/// candidate of a node of the graph asks for, once the roots have had
/// their say.
pub open spec fn asked_for(
    c: CoordinateView,
    roots: Seq<CoordinateView>,
    g: Map<Seq<char>, NodeView>,
    overrides: Map<Seq<char>, Seq<char>>,
) -> bool {
    (exists|r: int| 0 <= r < roots.len() && overridden(#[trigger] roots[r], overrides) == c) || (
    exists|k: Seq<char>, j: int| #[trigger] follows(g, k, j, c, overrides))
}

/// What holds of one contributed coordinate: it was visited in this
/// resolution and not before, stands in the graph under its key, has the
/// version that the roots decide, and was asked for by a request or by a
/// node of this resolution.
pub open spec fn contributed_one(
    c: CoordinateView,
    requests: Set<CoordinateView>,
    v0: Set<Seq<char>>,
    v1: Set<Seq<char>>,
    g1: Map<Seq<char>, NodeView>,
    overrides: Map<Seq<char>, Seq<char>>,
) -> bool {
    &&& v1.contains(c.key())
    &&& !v0.contains(c.key())
    &&& g1.contains_key(c.key())
    &&& g1[c.key()].coordinate == c
    &&& overridden(c, overrides) == c
    &&& came_from(c, requests, v0, v1, g1, overrides)
}

/// What holds of the coordinates that a resolution contributes: of each
/// what `contributed_one` says, and no two have the same key.
pub open spec fn contributed(
    out: Seq<CoordinateView>,
    requests: Set<CoordinateView>,
    v0: Set<Seq<char>>,
    v1: Set<Seq<char>>,
    g1: Map<Seq<char>, NodeView>,
    overrides: Map<Seq<char>, Seq<char>>,
) -> bool {
    &&& forall|i: int|
        0 <= i < out.len() ==> contributed_one(#[trigger] out[i], requests, v0, v1, g1, overrides)
    &&& forall|i: int, j: int|
        0 <= i < out.len() && 0 <= j < out.len() && i != j ==> (#[trigger] out[i]).key() != (
        #[trigger] out[j]).key()
}

/// A request that the roots have decided stays as it is when they are asked
/// again.
pub proof fn lemma_overridden_idempotent(c: CoordinateView, overrides: Map<Seq<char>, Seq<char>>)
    ensures
        overridden(overridden(c, overrides), overrides) == overridden(c, overrides),
{
}

/// Two resolutions in a row are one.
pub proof fn lemma_progressed_transitive(
    v0: Set<Seq<char>>,
    g0: Map<Seq<char>, NodeView>,
    v1: Set<Seq<char>>,
    g1: Map<Seq<char>, NodeView>,
    v2: Set<Seq<char>>,
    g2: Map<Seq<char>, NodeView>,
)
    requires
        progressed(v0, g0, v1, g1),
        progressed(v1, g1, v2, g2),
    ensures
        progressed(v0, g0, v2, g2),
{
    assert forall|k: Seq<char>| #[trigger]
        g2.contains_key(k) && (!g0.contains_key(k) || g2[k] != g0[k]) implies v2.contains(k)
        && !v0.contains(k) by {
        if g1.contains_key(k) && (!g0.contains_key(k) || g1[k] != g0[k]) {
        } else {
            assert(g2.contains_key(k) && (!g1.contains_key(k) || g2[k] != g1[k]));
        }
    }
}

/// A node under a visited key stays as it is while the resolution goes on.
pub proof fn lemma_visited_node_kept(
    v1: Set<Seq<char>>,
    g1: Map<Seq<char>, NodeView>,
    v2: Set<Seq<char>>,
    g2: Map<Seq<char>, NodeView>,
    k: Seq<char>,
)
    requires
        progressed(v1, g1, v2, g2),
        v1.contains(k),
        g1.contains_key(k),
    ensures
        g2.contains_key(k),
        g2[k] == g1[k],
        v2.contains(k),
{
    assert(g1.dom().contains(k));
    assert(g2.contains_key(k));
}

/// One contributed coordinate stays contributed while the resolution goes
/// on, and where more requests are counted in.
pub proof fn lemma_contributed_one_kept(
    c: CoordinateView,
    requests: Set<CoordinateView>,
    more: Set<CoordinateView>,
    v0: Set<Seq<char>>,
    v1: Set<Seq<char>>,
    g1: Map<Seq<char>, NodeView>,
    v2: Set<Seq<char>>,
    g2: Map<Seq<char>, NodeView>,
    overrides: Map<Seq<char>, Seq<char>>,
)
    requires
        contributed_one(c, requests, v0, v1, g1, overrides),
        progressed(v1, g1, v2, g2),
        requests.subset_of(more),
    ensures
        contributed_one(c, more, v0, v2, g2, overrides),
{
    lemma_visited_node_kept(v1, g1, v2, g2, c.key());
    if exists|r: CoordinateView| #[trigger] requests.contains(r) && overridden(r, overrides) == c {
        let r = choose|r: CoordinateView| #[trigger]
            requests.contains(r) && overridden(r, overrides) == c;
        assert(more.contains(r));
    } else {
        let (k, j) = choose|k: Seq<char>, j: int| #[trigger]
            follows(g1, k, j, c, overrides) && v1.contains(k) && !v0.contains(k);
        lemma_visited_node_kept(v1, g1, v2, g2, k);
        assert(follows(g2, k, j, c, overrides));
    }
}

/// What was contributed stays contributed while the resolution goes on.
pub proof fn lemma_contributed_kept(
    out: Seq<CoordinateView>,
    requests: Set<CoordinateView>,
    more: Set<CoordinateView>,
    v0: Set<Seq<char>>,
    v1: Set<Seq<char>>,
    g1: Map<Seq<char>, NodeView>,
    v2: Set<Seq<char>>,
    g2: Map<Seq<char>, NodeView>,
    overrides: Map<Seq<char>, Seq<char>>,
)
    requires
        contributed(out, requests, v0, v1, g1, overrides),
        progressed(v1, g1, v2, g2),
        requests.subset_of(more),
    ensures
        contributed(out, more, v0, v2, g2, overrides),
{
    assert forall|i: int| 0 <= i < out.len() implies contributed_one(
        #[trigger] out[i],
        more,
        v0,
        v2,
        g2,
        overrides,
    ) by {
        lemma_contributed_one_kept(out[i], requests, more, v0, v1, g1, v2, g2, overrides);
    }
}

/// What a later resolution contributes is contributed to the earlier one
/// too, where each of its requests is a request of the earlier one or a
/// transitive candidate of a node that the earlier one recorded.
pub proof fn lemma_contributed_one_later(
    c: CoordinateView,
    requests: Set<CoordinateView>,
    later: Set<CoordinateView>,
    v0: Set<Seq<char>>,
    v1: Set<Seq<char>>,
    v2: Set<Seq<char>>,
    g2: Map<Seq<char>, NodeView>,
    overrides: Map<Seq<char>, Seq<char>>,
)
    requires
        v0.subset_of(v1),
        v1.subset_of(v2),
        contributed_one(c, later, v1, v2, g2, overrides),
        forall|r: CoordinateView| #[trigger]
            later.contains(r) ==> requests.contains(r) || exists|k: Seq<char>, j: int| #[trigger]
                follows(g2, k, j, overridden(r, overrides), overrides) && v2.contains(k)
                    && !v0.contains(k),
    ensures
        contributed_one(c, requests, v0, v2, g2, overrides),
{
    if exists|r: CoordinateView| #[trigger] later.contains(r) && overridden(r, overrides) == c {
        let r = choose|r: CoordinateView| #[trigger]
            later.contains(r) && overridden(r, overrides) == c;
        if requests.contains(r) {
        } else {
            let (k, j) = choose|k: Seq<char>, j: int| #[trigger]
                follows(g2, k, j, overridden(r, overrides), overrides) && v2.contains(k)
                    && !v0.contains(k);
            assert(follows(g2, k, j, c, overrides));
        }
    } else {
        let (k, j) = choose|k: Seq<char>, j: int| #[trigger]
            follows(g2, k, j, c, overrides) && v2.contains(k) && !v1.contains(k);
        assert(follows(g2, k, j, c, overrides) && v2.contains(k) && !v0.contains(k));
    }
}

/// The contributions of two resolutions in a row have no key in common,
/// and together they are the contribution of both.
pub proof fn lemma_contributed_append(
    a: Seq<CoordinateView>,
    b: Seq<CoordinateView>,
    requests: Set<CoordinateView>,
    later: Set<CoordinateView>,
    v0: Set<Seq<char>>,
    v1: Set<Seq<char>>,
    g1: Map<Seq<char>, NodeView>,
    v2: Set<Seq<char>>,
    g2: Map<Seq<char>, NodeView>,
    overrides: Map<Seq<char>, Seq<char>>,
)
    requires
        v0.subset_of(v1),
        contributed(a, requests, v0, v1, g1, overrides),
        progressed(v1, g1, v2, g2),
        contributed(b, later, v1, v2, g2, overrides),
        forall|r: CoordinateView| #[trigger]
            later.contains(r) ==> requests.contains(r) || exists|k: Seq<char>, j: int| #[trigger]
                follows(g2, k, j, overridden(r, overrides), overrides) && v2.contains(k)
                    && !v0.contains(k),
    ensures
        contributed(a + b, requests, v0, v2, g2, overrides),
{
    lemma_contributed_kept(a, requests, requests, v0, v1, g1, v2, g2, overrides);
    let out = a + b;
    assert forall|i: int| 0 <= i < out.len() implies contributed_one(
        #[trigger] out[i],
        requests,
        v0,
        v2,
        g2,
        overrides,
    ) by {
        if i < a.len() {
            assert(out[i] == a[i]);
        } else {
            assert(out[i] == b[i - a.len()]);
            lemma_contributed_one_later(b[i - a.len()], requests, later, v0, v1, v2, g2, overrides);
        }
    }
    assert forall|i: int, j: int|
        0 <= i < out.len() && 0 <= j < out.len() && i != j implies (#[trigger] out[i]).key() != (
    #[trigger] out[j]).key() by {
        if i < a.len() {
            assert(out[i] == a[i]);
        } else {
            assert(out[i] == b[i - a.len()]);
        }
        if j < a.len() {
            assert(out[j] == a[j]);
        } else {
            assert(out[j] == b[j - a.len()]);
        }
    }
}

/// What a coordinate contributes itself: nothing where its manifest is
/// packaged as `pom`, itself where it is not.
pub open spec fn own_contribution(c: CoordinateView, packaging: Seq<char>) -> Seq<CoordinateView> {
    if packaging == "pom"@ {
        Seq::empty()
    } else {
        seq![c]
    }
}

/// Whether the node of `c` in `g` is what the effective manifest of `c`
/// says, for the responses of one walk up its parents: its transitive
/// candidates are those of the manifest, its depth is `depth`, and `out`
/// begins with what `c` contributes itself.
pub open spec fn recorded(
    base: Seq<char>,
    c: CoordinateView,
    depth: usize,
    g: Map<Seq<char>, NodeView>,
    out: Seq<CoordinateView>,
) -> bool {
    exists|responses: Seq<Result<HttpResponse, MavenError>>|
        walked(base, c, 0, responses) && (match #[trigger] effective_manifest(
            base,
            c,
            0,
            responses,
        ) {
            Ok(pom) => g.contains_key(c.key()) && g[c.key()] == (NodeView {
                coordinate: c,
                dependencies: candidates_of(pom),
                depth,
            }) && own_contribution(c, pom.packaging).is_prefix_of(out),
            Err(_) => false,
        })
}

/// Whether the node under `k` is what an effective manifest of its
/// coordinate says, for the responses of one walk up its parents, and
/// whether `out` holds the coordinate as that manifest's packaging asks: not
/// at all where the manifest is packaged as `pom`, and itself where it is
/// not.
pub open spec fn sourced(
    base: Seq<char>,
    k: Seq<char>,
    g: Map<Seq<char>, NodeView>,
    out: Seq<CoordinateView>,
) -> bool {
    &&& g.contains_key(k)
    &&& exists|responses: Seq<Result<HttpResponse, MavenError>>|
        walked(base, g[k].coordinate, 0, responses) && (match #[trigger] effective_manifest(
            base,
            g[k].coordinate,
            0,
            responses,
        ) {
            Ok(pom) => g[k].dependencies == candidates_of(pom) && (if pom.packaging == "pom"@ {
                !keys_of(out).contains(k)
            } else {
                out.contains(g[k].coordinate)
            }),
            Err(_) => false,
        })
}

/// Whether every node that a resolution recorded is what an effective
/// manifest of its coordinate says, and `out` holds its coordinate unless
/// that manifest is packaged as `pom`.
pub open spec fn listed(
    base: Seq<char>,
    m0: Map<Seq<char>, bool>,
    m1: Map<Seq<char>, bool>,
    g1: Map<Seq<char>, NodeView>,
    out: Seq<CoordinateView>,
) -> bool {
    forall|k: Seq<char>| #[trigger] recorded_here(m0, m1, k) ==> sourced(base, k, g1, out)
}

/// How the node under `k` was come to: it is what one of the requests asks
/// for and stands at `depth`, or it is what a transitive candidate of a
/// node asks for that was recorded in this resolution, and stands one
/// deeper than that node.
pub open spec fn reached(
    k: Seq<char>,
    depth: usize,
    requests: Set<CoordinateView>,
    m0: Map<Seq<char>, bool>,
    m1: Map<Seq<char>, bool>,
    g1: Map<Seq<char>, NodeView>,
    overrides: Map<Seq<char>, Seq<char>>,
) -> bool {
    &&& g1.contains_key(k)
    &&& {
        ||| g1[k].depth == depth && exists|r: CoordinateView| #[trigger]
            requests.contains(r) && overridden(r, overrides) == g1[k].coordinate
        ||| exists|p: Seq<char>, j: int| #[trigger]
            follows(g1, p, j, g1[k].coordinate, overrides) && recorded_here(m0, m1, p)
                && g1[k].depth == g1[p].depth + 1
    }
}

/// Whether every node that a resolution recorded was come to from a
/// request at `depth` or from a node of this resolution.
pub open spec fn all_reached(
    depth: usize,
    requests: Set<CoordinateView>,
    m0: Map<Seq<char>, bool>,
    m1: Map<Seq<char>, bool>,
    g1: Map<Seq<char>, NodeView>,
    overrides: Map<Seq<char>, Seq<char>>,
) -> bool {
    forall|k: Seq<char>| #[trigger]
        recorded_here(m0, m1, k) ==> reached(k, depth, requests, m0, m1, g1, overrides)
}

/// Whether the key `k` was asked for in this resolution, and no node
/// recorded for it.
pub open spec fn failed_here(
    m0: Map<Seq<char>, bool>,
    m1: Map<Seq<char>, bool>,
    k: Seq<char>,
) -> bool {
    m1.contains_key(k) && !m1[k] && !m0.contains_key(k)
}

/// Whether `k` is the key of what a transitive candidate of a node asks
/// for that was recorded in this resolution.
pub open spec fn asked_below(
    k: Seq<char>,
    m0: Map<Seq<char>, bool>,
    m1: Map<Seq<char>, bool>,
    g1: Map<Seq<char>, NodeView>,
    overrides: Map<Seq<char>, Seq<char>>,
) -> bool {
    exists|p: Seq<char>, j: int|
        recorded_here(m0, m1, p) && g1.contains_key(p) && 0 <= j < g1[p].dependencies.len()
            && overridden(#[trigger] g1[p].dependencies[j], overrides).key() == k
}

/// Whether every key that a resolution asked for without recording a node
/// is that of a transitive candidate of a node that it did record: no
/// request of the resolution itself is among them.
pub open spec fn failures_below(
    m0: Map<Seq<char>, bool>,
    m1: Map<Seq<char>, bool>,
    g1: Map<Seq<char>, NodeView>,
    overrides: Map<Seq<char>, Seq<char>>,
) -> bool {
    forall|k: Seq<char>| #[trigger] failed_here(m0, m1, k) ==> asked_below(k, m0, m1, g1, overrides)
}

/// A key that a node's candidate asked for stays so while the resolution
/// goes on.
pub proof fn lemma_asked_below_kept(
    k: Seq<char>,
    m0: Map<Seq<char>, bool>,
    m1: Map<Seq<char>, bool>,
    m2: Map<Seq<char>, bool>,
    g1: Map<Seq<char>, NodeView>,
    g2: Map<Seq<char>, NodeView>,
    overrides: Map<Seq<char>, Seq<char>>,
)
    requires
        asked_below(k, m0, m1, g1, overrides),
        flags_kept(m1, m2),
        descended(m1, m2, g1, g2, overrides),
    ensures
        asked_below(k, m0, m2, g2, overrides),
{
    let (p, j) = choose|p: Seq<char>, j: int|
        recorded_here(m0, m1, p) && g1.contains_key(p) && 0 <= j < g1[p].dependencies.len()
            && overridden(#[trigger] g1[p].dependencies[j], overrides).key() == k;
    assert(g1.dom().contains(p));
    assert(!recorded_here(m1, m2, p));
    assert(!changed(g1, g2, p));
    assert(recorded_here(m0, m2, p) && g2.contains_key(p) && 0 <= j < g2[p].dependencies.len()
        && overridden(g2[p].dependencies[j], overrides).key() == k);
}

/// Where neither of two stretches of a resolution failed on a request of
/// its own, the whole did not either.
pub proof fn lemma_failures_below_append(
    m0: Map<Seq<char>, bool>,
    m1: Map<Seq<char>, bool>,
    m2: Map<Seq<char>, bool>,
    g1: Map<Seq<char>, NodeView>,
    g2: Map<Seq<char>, NodeView>,
    overrides: Map<Seq<char>, Seq<char>>,
)
    requires
        failures_below(m0, m1, g1, overrides),
        failures_below(m1, m2, g2, overrides),
        flags_kept(m0, m1),
        descended(m1, m2, g1, g2, overrides),
    ensures
        failures_below(m0, m2, g2, overrides),
{
    assert forall|k: Seq<char>| #[trigger] failed_here(m0, m2, k) implies asked_below(
        k,
        m0,
        m2,
        g2,
        overrides,
    ) by {
        if m1.contains_key(k) {
            assert(failed_here(m0, m1, k));
            lemma_asked_below_kept(k, m0, m1, m2, g1, g2, overrides);
        } else {
            assert(failed_here(m1, m2, k));
            let (p, j) = choose|p: Seq<char>, j: int|
                recorded_here(m1, m2, p) && g2.contains_key(p) && 0 <= j
                    < g2[p].dependencies.len() && overridden(
                    #[trigger] g2[p].dependencies[j],
                    overrides,
                ).key() == k;
            assert(recorded_here(m0, m2, p)) by {
                if m0.contains_key(p) {
                    assert(m1.contains_key(p));
                }
            }
            assert(recorded_here(m0, m2, p) && g2.contains_key(p) && 0 <= j
                < g2[p].dependencies.len() && overridden(g2[p].dependencies[j], overrides).key()
                == k);
        }
    }
}

/// A node stays sourced while the graph keeps it, and the list keeps its
/// coordinate and takes up nothing under its key.
pub proof fn lemma_sourced_kept(
    base: Seq<char>,
    k: Seq<char>,
    g1: Map<Seq<char>, NodeView>,
    out1: Seq<CoordinateView>,
    g2: Map<Seq<char>, NodeView>,
    out2: Seq<CoordinateView>,
)
    requires
        sourced(base, k, g1, out1),
        g2.contains_key(k),
        g2[k] == g1[k],
        out1.contains(g1[k].coordinate) ==> out2.contains(g1[k].coordinate),
        !keys_of(out1).contains(k) ==> !keys_of(out2).contains(k),
    ensures
        sourced(base, k, g2, out2),
{
    let c = g1[k].coordinate;
    let responses = choose|responses: Seq<Result<HttpResponse, MavenError>>|
        walked(base, c, 0, responses) && (match #[trigger] effective_manifest(
            base,
            c,
            0,
            responses,
        ) {
            Ok(pom) => g1[k].dependencies == candidates_of(pom) && (if pom.packaging == "pom"@ {
                !keys_of(out1).contains(k)
            } else {
                out1.contains(c)
            }),
            Err(_) => false,
        });
    assert(walked(base, g2[k].coordinate, 0, responses) && (match effective_manifest(
        base,
        g2[k].coordinate,
        0,
        responses,
    ) {
        Ok(pom) => g2[k].dependencies == candidates_of(pom) && (if pom.packaging == "pom"@ {
            !keys_of(out2).contains(k)
        } else {
            out2.contains(g2[k].coordinate)
        }),
        Err(_) => false,
    }));
}

/// What two stretches of a resolution list, one after the other, is what
/// the whole lists: the second lists nothing that was asked for before it
/// began, and the first nothing that was not.
pub proof fn lemma_listed_append(
    base: Seq<char>,
    m0: Map<Seq<char>, bool>,
    m1: Map<Seq<char>, bool>,
    m2: Map<Seq<char>, bool>,
    g1: Map<Seq<char>, NodeView>,
    g2: Map<Seq<char>, NodeView>,
    a: Seq<CoordinateView>,
    b: Seq<CoordinateView>,
    overrides: Map<Seq<char>, Seq<char>>,
)
    requires
        listed(base, m0, m1, g1, a),
        listed(base, m1, m2, g2, b),
        flags_kept(m0, m1),
        descended(m1, m2, g1, g2, overrides),
        all_recorded(a, m1),
        forall|i: int| 0 <= i < b.len() ==> !m1.contains_key((#[trigger] b[i]).key()),
    ensures
        listed(base, m0, m2, g2, a + b),
{
    let out = a + b;
    assert forall|k: Seq<char>| #[trigger] recorded_here(m0, m2, k) implies sourced(
        base,
        k,
        g2,
        out,
    ) by {
        if m1.contains_key(k) {
            assert(recorded_here(m0, m1, k));
            assert(sourced(base, k, g1, a));
            assert(g1.dom().contains(k));
            assert(!recorded_here(m1, m2, k));
            assert(!changed(g1, g2, k));
            if a.contains(g1[k].coordinate) {
                let at = a.index_of(g1[k].coordinate);
                assert(out[at] == g1[k].coordinate);
            }
            if keys_of(out).contains(k) {
                let at = keys_of(out).index_of(k);
                if at < a.len() {
                    assert(keys_of(a)[at] == k);
                } else {
                    assert(out[at] == b[at - a.len()]);
                    assert(b[at - a.len()].key() == k);
                }
            }
            lemma_sourced_kept(base, k, g1, a, g2, out);
        } else {
            assert(recorded_here(m1, m2, k));
            assert(sourced(base, k, g2, b));
            if b.contains(g2[k].coordinate) {
                let at = b.index_of(g2[k].coordinate);
                assert(out[a.len() + at] == g2[k].coordinate);
            }
            if keys_of(out).contains(k) {
                let at = keys_of(out).index_of(k);
                if at < a.len() {
                    assert(out[at] == a[at]);
                    assert(m1.contains_key(a[at].key()));
                } else {
                    assert(out[at] == b[at - a.len()]);
                    assert(keys_of(b)[at - a.len()] == k);
                }
            }
            lemma_sourced_kept(base, k, g2, b, g2, out);
        }
    }
}

/// How the nodes of two stretches of a resolution were come to, one after
/// the other, is how those of the whole were: a request of the second is a
/// request of the first at the same depth, or what a transitive candidate
/// of a node of the whole asks for, one level above.
pub proof fn lemma_all_reached_append(
    depth: usize,
    requests: Set<CoordinateView>,
    below: usize,
    later: Set<CoordinateView>,
    m0: Map<Seq<char>, bool>,
    m1: Map<Seq<char>, bool>,
    m2: Map<Seq<char>, bool>,
    g1: Map<Seq<char>, NodeView>,
    g2: Map<Seq<char>, NodeView>,
    overrides: Map<Seq<char>, Seq<char>>,
)
    requires
        all_reached(depth, requests, m0, m1, g1, overrides),
        all_reached(below, later, m1, m2, g2, overrides),
        flags_kept(m0, m1),
        descended(m1, m2, g1, g2, overrides),
        forall|r: CoordinateView| #[trigger]
            later.contains(r) ==> (below == depth && requests.contains(r)) || exists|
                p: Seq<char>,
                j: int,
            | #[trigger]
                follows(g2, p, j, overridden(r, overrides), overrides) && recorded_here(m0, m2, p)
                    && below == g2[p].depth + 1,
    ensures
        all_reached(depth, requests, m0, m2, g2, overrides),
{
    assert forall|k: Seq<char>| #[trigger] recorded_here(m0, m2, k) implies reached(
        k,
        depth,
        requests,
        m0,
        m2,
        g2,
        overrides,
    ) by {
        if m1.contains_key(k) {
            assert(recorded_here(m0, m1, k));
            assert(reached(k, depth, requests, m0, m1, g1, overrides));
            assert(g1.dom().contains(k));
            assert(!recorded_here(m1, m2, k));
            assert(!changed(g1, g2, k));
            let c = g1[k].coordinate;
            if g1[k].depth == depth && exists|r: CoordinateView| #[trigger]
                requests.contains(r) && overridden(r, overrides) == c {
            } else {
                let (p, j) = choose|p: Seq<char>, j: int| #[trigger]
                    follows(g1, p, j, c, overrides) && recorded_here(m0, m1, p) && g1[k].depth
                        == g1[p].depth + 1;
                assert(g1.dom().contains(p));
                assert(!recorded_here(m1, m2, p));
                assert(!changed(g1, g2, p));
                assert(follows(g2, p, j, c, overrides));
                assert(recorded_here(m0, m2, p));
            }
        } else {
            assert(recorded_here(m1, m2, k));
            assert(reached(k, below, later, m1, m2, g2, overrides));
            let c = g2[k].coordinate;
            if g2[k].depth == below && exists|r: CoordinateView| #[trigger]
                later.contains(r) && overridden(r, overrides) == c {
                let r = choose|r: CoordinateView| #[trigger]
                    later.contains(r) && overridden(r, overrides) == c;
                if below == depth && requests.contains(r) {
                } else {
                    let (p, j) = choose|p: Seq<char>, j: int| #[trigger]
                        follows(g2, p, j, overridden(r, overrides), overrides) && recorded_here(
                            m0,
                            m2,
                            p,
                        ) && below == g2[p].depth + 1;
                    assert(follows(g2, p, j, c, overrides));
                }
            } else {
                let (p, j) = choose|p: Seq<char>, j: int| #[trigger]
                    follows(g2, p, j, c, overrides) && recorded_here(m1, m2, p) && g2[k].depth
                        == g2[p].depth + 1;
                assert(recorded_here(m0, m2, p)) by {
                    if m0.contains_key(p) {
                        assert(m1.contains_key(p));
                    }
                }
            }
        }
    }
}

/// The transitive candidates of an effective manifest: those of its
/// dependencies after version fill-in.
pub open spec fn candidates_of(pom: PomView) -> Seq<CoordinateView> {
    transitive_candidates(filled_dependencies(pom.dependencies, pom.dependency_management))
}

/// Every transitive candidate is the coordinate of a dependency that
/// propagates: one of scope `Compile` or `Provided` that is not optional
/// and has a version. A dependency of another scope, an optional one, and
/// one without a version give no candidate.
pub proof fn lemma_candidates_propagate(deps: Seq<DependencyView>)
    ensures
        forall|i: int|
            0 <= i < transitive_candidates(deps).len() ==> exists|j: int|
                0 <= j < deps.len() && propagates(#[trigger] deps[j]) && candidate(deps[j])
                    == #[trigger] transitive_candidates(deps)[i],
        (forall|j: int| 0 <= j < deps.len() ==> !propagates(#[trigger] deps[j]))
            ==> transitive_candidates(deps).len() == 0,
    decreases deps.len(),
{
    if deps.len() > 0 {
        let front = deps.drop_last();
        lemma_candidates_propagate(front);
        let before = transitive_candidates(front);
        assert forall|i: int| 0 <= i < transitive_candidates(deps).len() implies exists|j: int|
            0 <= j < deps.len() && propagates(#[trigger] deps[j]) && candidate(deps[j])
                == #[trigger] transitive_candidates(deps)[i] by {
            if i < before.len() {
                let j = choose|j: int|
                    0 <= j < front.len() && propagates(#[trigger] front[j]) && candidate(front[j])
                        == before[i];
                assert(deps[j] == front[j]);
            } else {
                assert(propagates(deps[deps.len() - 1]));
            }
        }
        if forall|j: int| 0 <= j < deps.len() ==> !propagates(#[trigger] deps[j]) {
            assert forall|j: int| 0 <= j < front.len() implies !propagates(#[trigger] front[j]) by {
                assert(front[j] == deps[j]);
            }
            assert(!propagates(deps[deps.len() - 1]));
        }
    }
}

/// The version that the roots decide for a group and artifact is the
/// version of the last root that names them.
pub proof fn lemma_last_root_decides(roots: Seq<CoordinateView>, i: int)
    requires
        0 <= i < roots.len(),
        forall|j: int| i < j < roots.len() ==> (#[trigger] roots[j]).ga() != roots[i].ga(),
    ensures
        override_map(roots).contains_key(roots[i].ga()),
        override_map(roots)[roots[i].ga()] == roots[i].version,
        overridden(roots[i], override_map(roots)) == roots[i],
    decreases roots.len(),
{
    if i < roots.len() - 1 {
        let front = roots.drop_last();
        assert(front[i] == roots[i]);
        assert forall|j: int| i < j < front.len() implies (#[trigger] front[j]).ga() != front[i].ga() by {
            assert(front[j] == roots[j]);
        }
        lemma_last_root_decides(front, i);
        assert(roots[roots.len() - 1].ga() != roots[i].ga());
    }
}

/// Every root is turned into a request for the version that the roots
/// decide for its group and artifact, so that two roots of one group and
/// artifact are one request.
pub proof fn lemma_roots_agree(roots: Seq<CoordinateView>, i: int, j: int)
    requires
        0 <= i < roots.len(),
        0 <= j < roots.len(),
        roots[i].ga() == roots[j].ga(),
    ensures
        overridden(roots[i], override_map(roots)).version == overridden(
            roots[j],
            override_map(roots),
        ).version,
        override_map(roots).contains_key(roots[i].ga()),
{
    lemma_override_map_has(roots, i);
}

/// The roots decide for the group and artifact of every root.
pub proof fn lemma_override_map_has(roots: Seq<CoordinateView>, i: int)
    requires
        0 <= i < roots.len(),
    ensures
        override_map(roots).contains_key(roots[i].ga()),
    decreases roots.len(),
{
    if i < roots.len() - 1 {
        let front = roots.drop_last();
        assert(front[i] == roots[i]);
        lemma_override_map_has(front, i);
    }
}

/// The versions that the roots decide.
pub fn build_overrides(deps: &Vec<Coordinate>) -> (overrides: StringHashMap<String>)
    ensures
        text_map(overrides@) == override_map(coordinate_views(deps@)),
{
    let mut overrides: StringHashMap<String> = StringHashMap::new();
    let mut i: usize = 0;
    proof {
        assert(text_map(overrides@) =~= override_map(coordinate_views(deps@).take(0)));
    }
    while i < deps.len()
        invariant
            i <= deps.len(),
            text_map(overrides@) == override_map(coordinate_views(deps@).take(i as int)),
        decreases deps.len() - i,
    {
        let ghost before = text_map(overrides@);
        proof {
            let views = coordinate_views(deps@);
            assert(views.take(i + 1).drop_last() == views.take(i as int));
            assert(views.take(i + 1).last() == deps@[i as int]@);
        }
        overrides.insert(deps[i].ga(), deps[i].version.clone());
        proof {
            assert(text_map(overrides@) =~= before.insert(deps@[i as int]@.ga(), deps@[i as int]@.version));
        }
        i += 1;
    }
    proof {
        assert(coordinate_views(deps@).take(deps.len() as int) == coordinate_views(deps@));
    }
    overrides
}

/// A list without the coordinates whose key occurred before in it.
pub fn dedup_by_key(all: &Vec<Coordinate>) -> (unique: Vec<Coordinate>)
    ensures
        coordinate_views(unique@) == distinct_by_key(coordinate_views(all@)),
        keys_of(coordinate_views(unique@)).no_duplicates(),
{
    let ghost views = coordinate_views(all@);
    let mut unique: Vec<Coordinate> = Vec::new();
    let mut seen: StringHashMap<bool> = StringHashMap::new();
    let mut i: usize = 0;
    proof {
        assert(coordinate_views(unique@) =~= distinct_by_key(views.take(0)));
    }
    while i < all.len()
        invariant
            i <= all.len(),
            views == coordinate_views(all@),
            coordinate_views(unique@) == distinct_by_key(views.take(i as int)),
            keys_of(coordinate_views(unique@)).no_duplicates(),
            forall|k: Seq<char>| seen@.contains_key(k) <==> keys_of(coordinate_views(unique@)).contains(k),
        decreases all.len() - i,
    {
        let ghost before = coordinate_views(unique@);
        proof {
            assert(views.take(i + 1).drop_last() == views.take(i as int));
            assert(views.take(i + 1).last() == all@[i as int]@);
        }
        let key = all[i].to_string();
        if !seen.contains_key(key.as_str()) {
            let c = all[i].clone();
            seen.insert(key, true);
            unique.push(c);
            proof {
                let after = coordinate_views(unique@);
                assert(after =~= before.push(c@));
                assert(keys_of(after) =~= keys_of(before).push(c@.key()));
                assert forall|k: Seq<char>| seen@.contains_key(k) <==> keys_of(after).contains(
                    k,
                ) by {
                    if keys_of(before).contains(k) {
                        let j = keys_of(before).index_of(k);
                        assert(keys_of(after)[j] == k);
                    }
                    if k == c@.key() {
                        assert(keys_of(after)[before.len() as int] == k);
                    }
                }
                assert forall|a: int, b: int|
                    0 <= a < keys_of(after).len() && 0 <= b < keys_of(after).len() && a
                        != b implies keys_of(after)[a] != keys_of(after)[b] by {
                    if a < before.len() {
                        assert(keys_of(before).contains(keys_of(before)[a]));
                    }
                    if b < before.len() {
                        assert(keys_of(before).contains(keys_of(before)[b]));
                    }
                }
            }
        }
        i += 1;
    }
    proof {
        assert(views.take(all.len() as int) == views);
    }
    unique
}

/// Takes in what the search for a manifest's parent gave.
pub fn merge_parent(pom: &mut Pom, parent: Result<Pom, MavenError>)
    ensures
        final(pom)@ == with_parent(old(pom)@, manifest_view(parent)),
{
    match parent {
        Ok(parent_pom) => {
            let Pom { dependency_management, properties, .. } = parent_pom;
            pom.merge_dependency_management(dependency_management);
            pom.merge_properties(&properties);
        },
        Err(_) => {},
    }
}

/// The parent that is asked for after `pom` was fetched at `depth` hops from
/// the manifest that the walk began with.
pub fn parent_to_follow(pom: &Pom, depth: usize) -> (r: Option<Coordinate>)
    ensures
        match r {
            Some(p) => parent_followed(pom@, depth as nat) == Some(p@),
            None => parent_followed(pom@, depth as nat) is None,
        },
        r is Some ==> depth < MAX_PARENT_DEPTH,
{
    if depth >= MAX_PARENT_DEPTH {
        return None;
    }
    match &pom.parent {
        Some(p) => Some(p.clone()),
        None => None,
    }
}

/// The request that is made for `coord` once the roots have had their say.
pub fn override_version(coord: &Coordinate, overrides: &StringHashMap<String>) -> (r: Coordinate)
    ensures
        r@ == overridden(coord@, text_map(overrides@)),
{
    let ga = coord.ga();
    let mut new_coord = coord.clone();
    match overrides.get(ga.as_str()) {
        Some(version) => {
            if coord.version != *version {
                new_coord.version = version.clone();
            }
        },
        None => {},
    }
    new_coord
}

/// The transitive candidates of a manifest.
pub fn transitive_dependencies(pom: &Pom) -> (r: Vec<Coordinate>)
    ensures
        coordinate_views(r@) == transitive_candidates(pom@.dependencies),
{
    let ghost deps = dependency_views(pom.dependencies@);
    let mut r: Vec<Coordinate> = Vec::new();
    let mut i: usize = 0;
    proof {
        assert(coordinate_views(r@) =~= transitive_candidates(deps.take(0)));
    }
    while i < pom.dependencies.len()
        invariant
            i <= pom.dependencies.len(),
            deps == dependency_views(pom.dependencies@),
            coordinate_views(r@) == transitive_candidates(deps.take(i as int)),
        decreases pom.dependencies.len() - i,
    {
        let d = &pom.dependencies[i];
        proof {
            assert(deps.take(i + 1).drop_last() == deps.take(i as int));
            assert(deps.take(i + 1).last() == d@);
        }
        let followed = match d.scope {
            DependencyScope::Compile => true,
            DependencyScope::Provided => true,
            _ => false,
        };
        if followed && !d.optional {
            match &d.version {
                Some(v) => {
                    let c = Coordinate::new(d.group_id.as_str(), d.artifact_id.as_str(), v.as_str());
                    let ghost before = coordinate_views(r@);
                    r.push(c);
                    proof {
                        assert(coordinate_views(r@) =~= before.push(candidate(d@)));
                    }
                },
                None => {},
            }
        }
        i += 1;
    }
    proof {
        assert(deps.take(pom.dependencies.len() as int) == deps);
    }
    r
}

/// Records the node of a coordinate whose effective manifest was
/// fetched: the versions are filled in, the transitive candidates are
/// worked out, and the node goes into the graph with them. A node is
/// recorded whatever the packaging; what the coordinate contributes to
/// the flat result is itself, unless its manifest is packaged as `pom`.
pub fn visit_node(graph: &mut DependencyGraph, coord: &Coordinate, pom: Pom, depth: usize) -> (r: (
    Vec<Coordinate>,
    Vec<Coordinate>,
))
    ensures
        coordinate_views(r.0@) == candidates_of(pom@),
        coordinate_views(r.1@) == own_contribution(coord@, pom@.packaging),
        final(graph)@ == old(graph)@.insert(
            coord@.key(),
            NodeView { coordinate: coord@, dependencies: candidates_of(pom@), depth },
        ),
{
    let mut pom = pom;
    pom.fill_missing_versions();
    let transitive = transitive_dependencies(&pom);
    graph.add_node(coord.clone(), clone_coordinates(&transitive), depth);
    let mut own: Vec<Coordinate> = Vec::new();
    if !equals(pom.packaging.as_str(), "pom") {
        own.push(coord.clone());
    }
    proof {
        assert(coordinate_views(own@) =~= own_contribution(coord@, pom@.packaging));
    }
    (transitive, own)
}

impl<T: MavenTransport> Resolver<T> {
    /// A resolver that fetches through `client` and starts with an empty
    /// graph.
    pub fn with_client(client: MavenClient<T>) -> (r: Self)
        ensures
            r.client == client,
            r.graph@ == Map::<Seq<char>, NodeView>::empty(),
    {
        Resolver { client, graph: DependencyGraph::new() }
    }

    /// The request that is made for `coord` once the roots have had their
    /// say.
    pub fn apply_override(coord: &Coordinate, overrides: &StringHashMap<String>) -> (r: Coordinate)
        ensures
            r@ == overridden(coord@, text_map(overrides@)),
    {
        override_version(coord, overrides)
    }

    /// The transitive candidates of a manifest.
    pub fn determine_transitive_deps(pom: &Pom) -> (r: Vec<Coordinate>)
        ensures
            coordinate_views(r@) == transitive_candidates(pom@.dependencies),
    {
        transitive_dependencies(pom)
    }

    /// Fetches the manifest of `coord` and lets it inherit from its parents,
    /// one after the other, up to `MAX_PARENT_DEPTH` ancestors of the
    /// manifest at depth 0. A parent that cannot be resolved is passed over.
    /// What is given back is the effective manifest for the responses of
    /// one walk.
    pub fn fetch_effective_pom(client: &MavenClient<T>, coord: &Coordinate, depth: usize) -> (r:
        Result<Pom, MavenError>)
        ensures
            exists|responses: Seq<Result<HttpResponse, MavenError>>|
                walked(client.base(), coord@, depth as nat, responses) && manifest_matches(
                    r,
                    #[trigger] effective_manifest(client.base(), coord@, depth as nat, responses),
                ),
        decreases usize::MAX - depth,
    {
        let ghost url = file_url(client.base(), coord@, coord@.pom_filename());
        let fetched = client.fetch_pom(coord);
        let ghost own = choose|response: Result<HttpResponse, MavenError>|
            manifest_matches(fetched, #[trigger] manifest_in(url, response));
        let mut pom = match fetched {
            Ok(pom) => pom,
            Err(e) => {
                proof {
                    let responses = seq![own];
                    assert(walked(client.base(), coord@, depth as nat, responses));
                    assert(manifest_matches(
                        Err(e),
                        effective_manifest(client.base(), coord@, depth as nat, responses),
                    ));
                }
                return Err(e);
            },
        };
        let parent_coord = match parent_to_follow(&pom, depth) {
            Some(p) => p,
            None => {
                proof {
                    let responses = seq![own];
                    assert(walked(client.base(), coord@, depth as nat, responses));
                    assert(manifest_matches(
                        Ok(pom),
                        effective_manifest(client.base(), coord@, depth as nat, responses),
                    ));
                }
                return Ok(pom);
            },
        };
        let parent = Self::fetch_effective_pom(client, &parent_coord, depth + 1);
        let ghost above = choose|responses: Seq<Result<HttpResponse, MavenError>>|
            walked(client.base(), parent_coord@, (depth + 1) as nat, responses) && manifest_matches(
                parent,
                #[trigger] effective_manifest(
                    client.base(),
                    parent_coord@,
                    (depth + 1) as nat,
                    responses,
                ),
            );
        let ghost parent_view = manifest_view(parent);
        merge_parent(&mut pom, parent);
        proof {
            let responses = seq![own] + above;
            assert(responses[0] == own);
            assert(responses.skip(1) == above);
            assert(parent_view == effective_manifest(
                client.base(),
                parent_coord@,
                (depth + 1) as nat,
                above,
            ));
            assert(walked(client.base(), coord@, depth as nat, responses));
            assert(manifest_matches(
                Ok(pom),
                effective_manifest(client.base(), coord@, depth as nat, responses),
            ));
        }
        Ok(pom)
    }

    /// Records the node of a coordinate whose effective manifest was
    /// fetched, and says what the coordinate leads to and what it
    /// contributes itself.
    pub fn visit(graph: &mut DependencyGraph, coord: &Coordinate, pom: Pom, depth: usize) -> (r: (
        Vec<Coordinate>,
        Vec<Coordinate>,
    ))
        ensures
            coordinate_views(r.0@) == candidates_of(pom@),
            coordinate_views(r.1@) == own_contribution(coord@, pom@.packaging),
            final(graph)@ == old(graph)@.insert(
                coord@.key(),
                NodeView { coordinate: coord@, dependencies: candidates_of(pom@), depth },
            ),
    {
        visit_node(graph, coord, pom, depth)
    }

    /// Resolves `requested` and all that it leads to. What it gives back is
    /// the artifacts that this resolution contributes: the coordinate itself,
    /// unless it is packaged as `pom`, and the contributions of its
    /// transitive candidates. A coordinate that was visited before
    /// contributes nothing. A candidate that fails contributes nothing, and
    /// the others go on; only a failure to fetch the coordinate's own
    /// manifest is an error.
    ///
    /// `visited` holds the keys that were asked for, and says of each
    /// whether its node was recorded: the key of a request is entered with
    /// `false` before its manifest is fetched, and set to `true` once its
    /// node stands in the graph. When the call is over, every transitive
    /// candidate of every node that it recorded has been asked for, unless
    /// the node is as deep as depths can be counted; a node is new or
    /// replaced only where the call recorded it; every node that it
    /// recorded is what an effective manifest of its coordinate says, is
    /// given back unless that manifest is packaged as `pom`, and stands at
    /// `depth` for the request itself, or one level below the node whose
    /// candidate asked for it.
    pub fn resolve_recursive(
        client: &MavenClient<T>,
        requested: &Coordinate,
        depth: usize,
        overrides: &StringHashMap<String>,
        visited: &mut StringHashMap<bool>,
        graph: &mut DependencyGraph,
    ) -> (r: Result<Vec<Coordinate>, ResolverError>)
        ensures
            progressed(old(visited)@.dom(), old(graph)@, final(visited)@.dom(), final(graph)@),
            match r {
                Ok(out) => contributed(
                    coordinate_views(out@),
                    set![requested@],
                    old(visited)@.dom(),
                    final(visited)@.dom(),
                    final(graph)@,
                    text_map(overrides@),
                ),
                Err(e) => e is Maven && final(graph)@ == old(graph)@,
            },
            ({
                let c = overridden(requested@, text_map(overrides@));
                if old(visited)@.contains_key(c.key()) {
                    &&& r matches Ok(out)
                    &&& out@.len() == 0
                    &&& final(graph)@ == old(graph)@
                    &&& final(visited)@ == old(visited)@
                } else {
                    &&& final(visited)@.contains_key(c.key())
                    &&& final(visited)@[c.key()] == (r is Ok)
                    &&& r is Err ==> final(visited)@ == old(visited)@.insert(c.key(), false)
                    &&& r matches Ok(out) ==> recorded(
                        client.base(),
                        c,
                        depth,
                        final(graph)@,
                        coordinate_views(out@),
                    )
                }
            }),
            final(visited)@.contains_key(overridden(requested@, text_map(overrides@)).key()),
            descended(
                old(visited)@,
                final(visited)@,
                old(graph)@,
                final(graph)@,
                text_map(overrides@),
            ),
            r matches Ok(out) ==> all_recorded(coordinate_views(out@), final(visited)@),
            r matches Ok(out) ==> listed(
                client.base(),
                old(visited)@,
                final(visited)@,
                final(graph)@,
                coordinate_views(out@),
            ),
            all_reached(
                depth,
                set![requested@],
                old(visited)@,
                final(visited)@,
                final(graph)@,
                text_map(overrides@),
            ),
            r is Ok ==> failures_below(
                old(visited)@,
                final(visited)@,
                final(graph)@,
                text_map(overrides@),
            ),
        decreases usize::MAX - depth,
    {
        let ghost v0 = visited@.dom();
        let ghost m0 = visited@;
        let ghost g0 = graph@;
        let ghost rules = text_map(overrides@);
        let ghost asked = set![requested@];
        let coord = Self::apply_override(requested, overrides);
        let key = coord.to_string();
        if visited.contains_key(key.as_str()) {
            let out: Vec<Coordinate> = Vec::new();
            proof {
                assert(coordinate_views(out@) =~= Seq::<CoordinateView>::empty());
            }
            return Ok(out);
        }
        visited.insert(coord.to_string(), false);
        proof {
            assert(visited@.dom() =~= v0.insert(coord@.key()));
        }
        let fetched = Self::fetch_effective_pom(client, &coord, 0);
        let ghost responses = choose|responses: Seq<Result<HttpResponse, MavenError>>|
            walked(client.base(), coord@, 0, responses) && manifest_matches(
                fetched,
                #[trigger] effective_manifest(client.base(), coord@, 0, responses),
            );
        let pom = match fetched {
            Ok(pom) => pom,
            Err(e) => {
                proof {
                    assert(effective_manifest(client.base(), coord@, 0, responses) == Err::<
                        PomView,
                        MavenErrorView,
                    >(e@));
                }
                return Err(ResolverError::Maven(e));
            },
        };
        let ghost manifest = pom@;
        let (transitive, own) = Self::visit(graph, &coord, pom, depth);
        visited.insert(key, true);
        let ghost own_views = coordinate_views(own@);
        let ghost node = NodeView {
            coordinate: coord@,
            dependencies: candidates_of(manifest),
            depth,
        };
        let mut my_deps = own;
        let ghost v1 = visited@.dom();
        let ghost g1 = graph@;
        let ghost node_key = coord@.key();
        let ghost open = set![node_key];
        proof {
            lemma_overridden_idempotent(requested@, rules);
            assert(v1 =~= v0.insert(node_key));
            assert(progressed(v0, g0, v1, g1));
            assert(visited@ =~= m0.insert(node_key, true));
            assert forall|k: Seq<char>| #[trigger] changed(g0, g1, k) implies recorded_here(
                m0,
                visited@,
                k,
            ) by {
                assert(k == node_key);
            }
            assert(descended_but(m0, visited@, g0, g1, rules, open));
            assert(effective_manifest(client.base(), coord@, 0, responses) == Ok::<
                PomView,
                MavenErrorView,
            >(manifest));
            assert(sourced(client.base(), node_key, g1, own_views)) by {
                if manifest.packaging == "pom"@ {
                    assert(keys_of(own_views) =~= Seq::<Seq<char>>::empty());
                } else {
                    assert(own_views[0] == coord@);
                }
            }
            assert forall|k: Seq<char>| #[trigger] recorded_here(m0, visited@, k) implies sourced(
                client.base(),
                k,
                g1,
                own_views,
            ) by {
                assert(k == node_key);
            }
            assert(asked.contains(requested@));
            assert(reached(node_key, depth, asked, m0, visited@, g1, rules));
            assert forall|k: Seq<char>| #[trigger] recorded_here(m0, visited@, k) implies reached(
                k,
                depth,
                asked,
                m0,
                visited@,
                g1,
                rules,
            ) by {
                assert(k == node_key);
            }
            let out = coordinate_views(my_deps@);
            if out.len() > 0 {
                assert(out[0] == coord@);
                assert(asked.contains(requested@));
                assert(contributed_one(out[0], asked, v0, v1, g1, rules));
            }
            assert(contributed(out, asked, v0, v1, g1, rules));
        }
        if depth < usize::MAX {
            let mut i: usize = 0;
            while i < transitive.len()
                invariant
                    i <= transitive.len(),
                    depth < usize::MAX,
                    rules == text_map(overrides@),
                    asked == set![requested@],
                    v0.subset_of(visited@.dom()),
                    visited@.dom().contains(node_key),
                    !v0.contains(node_key),
                    graph@.contains_key(node_key),
                    graph@[node_key] == node,
                    node.dependencies == coordinate_views(transitive@),
                    own_views.is_prefix_of(coordinate_views(my_deps@)),
                    progressed(v0, g0, visited@.dom(), graph@),
                    contributed(coordinate_views(my_deps@), asked, v0, visited@.dom(), graph@, rules),
                    open == set![node_key],
                    visited@[node_key],
                    descended_but(m0, visited@, g0, graph@, rules, open),
                    all_recorded(coordinate_views(my_deps@), visited@),
                    listed(client.base(), m0, visited@, graph@, coordinate_views(my_deps@)),
                    all_reached(depth, asked, m0, visited@, graph@, rules),
                    failures_below(m0, visited@, graph@, rules),
                    !m0.contains_key(node_key),
                    node.depth == depth,
                    forall|j: int|
                        0 <= j < i ==> visited@.contains_key(
                            overridden(#[trigger] node.dependencies[j], rules).key(),
                        ),
                decreases transitive.len() - i,
            {
                let ghost va = visited@.dom();
                let ghost ma = visited@;
                let ghost ga = graph@;
                let ghost mine = coordinate_views(my_deps@);
                let ghost next = transitive@[i as int]@;
                let child = Self::resolve_recursive(
                    client,
                    &transitive[i],
                    depth + 1,
                    overrides,
                    visited,
                    graph,
                );
                proof {
                    lemma_progressed_transitive(v0, g0, va, ga, visited@.dom(), graph@);
                    lemma_visited_node_kept(va, ga, visited@.dom(), graph@, node_key);
                    lemma_descended_transitive(m0, ma, visited@, g0, ga, graph@, rules, open);
                    lemma_all_recorded_kept(mine, ma, visited@);
                    assert(ma.contains_key(node_key));
                    assert(coordinate_views(transitive@)[i as int] == next);
                    let later = set![next];
                    assert forall|r: CoordinateView| #[trigger] later.contains(r) implies (depth + 1
                        == depth && asked.contains(r)) || exists|p: Seq<char>, j: int| #[trigger]
                        follows(graph@, p, j, overridden(r, rules), rules) && recorded_here(
                            m0,
                            visited@,
                            p,
                        ) && depth + 1 == graph@[p].depth + 1 by {
                        assert(r == next);
                        assert(graph@[node_key].dependencies[i as int] == next);
                        assert(follows(graph@, node_key, i as int, overridden(r, rules), rules));
                        assert(recorded_here(m0, visited@, node_key));
                    }
                    lemma_all_reached_append(
                        depth,
                        asked,
                        (depth + 1) as usize,
                        later,
                        m0,
                        ma,
                        visited@,
                        ga,
                        graph@,
                        rules,
                    );
                    assert forall|j: int| 0 <= j < i + 1 implies visited@.contains_key(
                        overridden(#[trigger] node.dependencies[j], rules).key(),
                    ) by {
                        if j < i {
                            assert(ma.contains_key(overridden(node.dependencies[j], rules).key()));
                        }
                    }
                }
                match child {
                    Ok(deps) => {
                        let mut deps = deps;
                        let ghost theirs = coordinate_views(deps@);
                        proof {
                            let later = set![next];
                            assert forall|r: CoordinateView| #[trigger]
                                later.contains(r) implies asked.contains(r) || exists|
                                k: Seq<char>,
                                j: int,
                            | #[trigger]
                                follows(graph@, k, j, overridden(r, rules), rules)
                                    && visited@.dom().contains(k) && !v0.contains(k) by {
                                assert(r == next);
                                assert(coordinate_views(transitive@)[i as int] == next);
                                assert(graph@[node_key].dependencies[i as int] == next);
                                assert(follows(
                                    graph@,
                                    node_key,
                                    i as int,
                                    overridden(r, rules),
                                    rules,
                                ));
                            }
                            lemma_contributed_append(
                                mine,
                                theirs,
                                asked,
                                later,
                                v0,
                                va,
                                ga,
                                visited@.dom(),
                                graph@,
                                rules,
                            );
                        }
                        my_deps.append(&mut deps);
                        proof {
                            assert(coordinate_views(my_deps@) =~= mine + theirs);
                            assert forall|n: int| 0 <= n < theirs.len() implies !ma.contains_key(
                                (#[trigger] theirs[n]).key(),
                            ) by {
                                assert(contributed_one(
                                    theirs[n],
                                    set![next],
                                    va,
                                    visited@.dom(),
                                    graph@,
                                    rules,
                                ));
                            }
                            lemma_listed_append(
                                client.base(),
                                m0,
                                ma,
                                visited@,
                                ga,
                                graph@,
                                mine,
                                theirs,
                                rules,
                            );
                            lemma_failures_below_append(m0, ma, visited@, ga, graph@, rules);
                        }
                    },
                    Err(_) => {
                        proof {
                            assert forall|k: Seq<char>| #[trigger]
                                failed_here(m0, visited@, k) implies asked_below(
                                k,
                                m0,
                                visited@,
                                graph@,
                                rules,
                            ) by {
                                if ma.contains_key(k) {
                                    assert(failed_here(m0, ma, k));
                                    lemma_asked_below_kept(k, m0, ma, visited@, ga, graph@, rules);
                                } else {
                                    assert(k == overridden(next, rules).key());
                                    assert(recorded_here(m0, visited@, node_key));
                                    assert(graph@[node_key].dependencies[i as int] == next);
                                }
                            }
                            assert forall|k: Seq<char>| #[trigger]
                                recorded_here(m0, visited@, k) implies sourced(
                                client.base(),
                                k,
                                graph@,
                                mine,
                            ) by {
                                assert(recorded_here(m0, ma, k));
                            }
                            lemma_contributed_kept(
                                mine,
                                asked,
                                asked,
                                v0,
                                va,
                                ga,
                                visited@.dom(),
                                graph@,
                                rules,
                            );
                        }
                    },
                }
                i += 1;
            }
        }
        proof {
            assert(effective_manifest(client.base(), coord@, 0, responses) == Ok::<
                PomView,
                MavenErrorView,
            >(manifest));
            assert(node_descended(node_key, visited@, graph@, rules));
            assert(descended(m0, visited@, g0, graph@, rules));
        }
        Ok(my_deps)
    }

    /// Resolves the roots and all that they lead to.
    ///
    /// The roots decide versions, the later root winning where two name the
    /// same group and artifact. The result lists every artifact once; each
    /// of them stands in the graph under its key, has the version that the
    /// roots decide, and is what a root asks for or what a transitive
    /// candidate of a node in the graph asks for. The node of the first root
    /// is recorded from its effective manifest at depth 0, and the root
    /// itself heads the list unless it is packaged as `pom`. Every root was
    /// asked for, and so was every transitive candidate of every node that
    /// was recorded; each artifact listed was recorded. Every node that was
    /// recorded is what an effective manifest of its coordinate says; it is
    /// listed unless that manifest is packaged as `pom`; and it stands at
    /// depth 0 where a root asks for it, or one level below a node whose
    /// transitive candidate asks for it. The graph that was
    /// there before is kept and grows: a node is new or replaced only where
    /// it was recorded here, and then it has the version that the roots
    /// decide. Without roots nothing is listed and the graph stays as it is.
    /// Where the manifest of a root cannot be fetched the resolution fails,
    /// and the graph is left empty.
    pub fn resolve(&mut self, deps: &Vec<Coordinate>) -> (r: Result<ResolvedTree, ResolverError>)
        ensures
            final(self).client == old(self).client,
            match r {
                Ok(tree) => {
                    let all = coordinate_views(tree.all_dependencies@);
                    let rules = override_map(coordinate_views(deps@));
                    &&& tree.root_dependencies@ == deps@
                    &&& keys_of(all).no_duplicates()
                    &&& old(self).graph@.dom().subset_of(final(self).graph@.dom())
                    &&& keyed(final(self).graph@)
                    &&& deps@.len() == 0 ==> all.len() == 0 && final(self).graph@ == old(
                        self,
                    ).graph@
                    &&& deps@.len() > 0 ==> recorded(
                        old(self).client.base(),
                        overridden(deps@[0]@, rules),
                        0,
                        final(self).graph@,
                        all,
                    )
                    &&& forall|k: Seq<char>| #[trigger]
                        changed(old(self).graph@, final(self).graph@, k) ==> overridden(
                            final(self).graph@[k].coordinate,
                            rules,
                        ) == final(self).graph@[k].coordinate
                    &&& exists|called: Map<Seq<char>, bool>| #[trigger]
                        resolved_with(
                            called,
                            old(self).client.base(),
                            coordinate_views(deps@),
                            rules,
                            old(self).graph@,
                            final(self).graph@,
                            all,
                        )
                    &&& forall|i: int|
                        0 <= i < all.len() ==> {
                            let c = #[trigger] all[i];
                            &&& final(self).graph@.contains_key(c.key())
                            &&& final(self).graph@[c.key()].coordinate == c
                            &&& overridden(c, rules) == c
                            &&& asked_for(c, coordinate_views(deps@), final(self).graph@, rules)
                        }
                },
                Err(e) => e is Maven && deps@.len() > 0 && final(self).graph@ == Map::<
                    Seq<char>,
                    NodeView,
                >::empty(),
            },
    {
        let overrides = build_overrides(deps);
        let ghost rules = text_map(overrides@);
        let ghost roots = coordinate_views(deps@).to_set();
        let mut visited: StringHashMap<bool> = StringHashMap::new();
        let mut graph = DependencyGraph::new();
        std::mem::swap(&mut self.graph, &mut graph);
        let ghost v0 = visited@.dom();
        let ghost m0 = visited@;
        let ghost g0 = graph@;
        let ghost base = self.client.base();
        let ghost first = if deps@.len() > 0 {
            overridden(deps@[0]@, rules)
        } else {
            arbitrary()
        };
        let mut all_deps: Vec<Coordinate> = Vec::new();
        let mut i: usize = 0;
        proof {
            assert(coordinate_views(all_deps@) =~= Seq::<CoordinateView>::empty());
            assert(m0 =~= Map::<Seq<char>, bool>::empty());
        }
        while i < deps.len()
            invariant
                i <= deps.len(),
                m0 == Map::<Seq<char>, bool>::empty(),
                g0 == old(self).graph@,
                base == old(self).client.base(),
                deps@.len() > 0 ==> first == overridden(deps@[0]@, rules),
                i == 0 ==> graph@ == g0 && all_deps@.len() == 0 && visited@ == m0,
                i > 0 ==> recorded(base, first, 0, graph@, coordinate_views(all_deps@))
                    && visited@.contains_key(first.key()),
                descended(m0, visited@, g0, graph@, rules),
                all_recorded(coordinate_views(all_deps@), visited@),
                listed(base, m0, visited@, graph@, coordinate_views(all_deps@)),
                all_reached(0, roots, m0, visited@, graph@, rules),
                failures_below(m0, visited@, graph@, rules),
                forall|j: int|
                    0 <= j < i ==> visited@.contains_key(
                        overridden(#[trigger] coordinate_views(deps@)[j], rules).key(),
                    ),
                rules == text_map(overrides@),
                rules == override_map(coordinate_views(deps@)),
                roots == coordinate_views(deps@).to_set(),
                self.client == old(self).client,
                self.graph@ == Map::<Seq<char>, NodeView>::empty(),
                v0.subset_of(visited@.dom()),
                progressed(v0, g0, visited@.dom(), graph@),
                contributed(coordinate_views(all_deps@), roots, v0, visited@.dom(), graph@, rules),
            decreases deps.len() - i,
        {
            let ghost va = visited@.dom();
            let ghost ma = visited@;
            let ghost ga = graph@;
            let ghost mine = coordinate_views(all_deps@);
            let ghost next = deps@[i as int]@;
            let found = Self::resolve_recursive(
                &self.client,
                &deps[i],
                0,
                &overrides,
                &mut visited,
                &mut graph,
            );
            proof {
                lemma_progressed_transitive(v0, g0, va, ga, visited@.dom(), graph@);
                lemma_descended_transitive(
                    m0,
                    ma,
                    visited@,
                    g0,
                    ga,
                    graph@,
                    rules,
                    Set::<Seq<char>>::empty(),
                );
                lemma_all_recorded_kept(mine, ma, visited@);
                assert(coordinate_views(deps@)[i as int] == next);
                assert(roots.contains(next));
                lemma_all_reached_append(
                    0,
                    roots,
                    0,
                    set![next],
                    m0,
                    ma,
                    visited@,
                    ga,
                    graph@,
                    rules,
                );
                assert forall|j: int| 0 <= j < i + 1 implies visited@.contains_key(
                    overridden(#[trigger] coordinate_views(deps@)[j], rules).key(),
                ) by {
                    if j < i {
                        assert(ma.contains_key(
                            overridden(coordinate_views(deps@)[j], rules).key(),
                        ));
                    }
                }
            }
            match found {
                Ok(found) => {
                    let mut found = found;
                    let ghost theirs = coordinate_views(found@);
                    proof {
                        let later = set![next];
                        assert(coordinate_views(deps@)[i as int] == next);
                        assert(roots.contains(next));
                        lemma_contributed_append(
                            mine,
                            theirs,
                            roots,
                            later,
                            v0,
                            va,
                            ga,
                            visited@.dom(),
                            graph@,
                            rules,
                        );
                    }
                    all_deps.append(&mut found);
                    proof {
                        assert(coordinate_views(all_deps@) =~= mine + theirs);
                        assert forall|n: int| 0 <= n < theirs.len() implies !ma.contains_key(
                            (#[trigger] theirs[n]).key(),
                        ) by {
                            assert(contributed_one(
                                theirs[n],
                                set![next],
                                va,
                                visited@.dom(),
                                graph@,
                                rules,
                            ));
                        }
                        lemma_listed_append(
                            base,
                            m0,
                            ma,
                            visited@,
                            ga,
                            graph@,
                            mine,
                            theirs,
                            rules,
                        );
                        lemma_failures_below_append(m0, ma, visited@, ga, graph@, rules);
                        if i > 0 {
                            lemma_recorded_has_node(base, first, 0, ga, mine);
                            assert(va.contains(first.key()));
                            lemma_visited_node_kept(va, ga, visited@.dom(), graph@, first.key());
                            lemma_recorded_kept(base, first, 0, ga, mine, graph@, mine + theirs);
                        } else {
                            assert(mine + theirs =~= theirs);
                        }
                    }
                },
                Err(e) => {
                    return Err(e);
                },
            }
            i += 1;
        }
        let unique = dedup_by_key(&all_deps);
        proof {
            let all = coordinate_views(all_deps@);
            lemma_distinct_is_sublist(all);
            use_type_invariant(&graph);
            graph.lemma_keyed();
            assert forall|k: Seq<char>| #[trigger] changed(g0, graph@, k) implies overridden(
                graph@[k].coordinate,
                rules,
            ) == graph@[k].coordinate by {
                assert(recorded_here(m0, visited@, k));
                assert(node_descended(k, visited@, graph@, rules));
            }
            assert(keys_of(all).no_duplicates()) by {
                assert forall|a: int, b: int|
                    0 <= a < keys_of(all).len() && 0 <= b < keys_of(all).len() && a
                        != b implies keys_of(all)[a] != keys_of(all)[b] by {
                    assert(all[a].key() != all[b].key());
                }
            }
            assert(distinct_by_key(all) == all);
            assert(resolved_with(visited@, base, coordinate_views(deps@), rules, g0, graph@, all));
            assert forall|n: int| 0 <= n < all.len() implies #[trigger] asked_for(
                all[n],
                coordinate_views(deps@),
                graph@,
                rules,
            ) by {
                let c = all[n];
                assert(contributed_one(c, roots, v0, visited@.dom(), graph@, rules));
                if exists|r: CoordinateView| #[trigger]
                    roots.contains(r) && overridden(r, rules) == c {
                    let r = choose|r: CoordinateView| #[trigger]
                        roots.contains(r) && overridden(r, rules) == c;
                    let views = coordinate_views(deps@);
                    assert(views.contains(r));
                    let at = views.index_of(r);
                    assert(views[at] == r);
                } else {
                    let (k, j) = choose|k: Seq<char>, j: int| #[trigger]
                        follows(graph@, k, j, c, rules) && visited@.dom().contains(k)
                            && !v0.contains(k);
                    assert(follows(graph@, k, j, c, rules));
                }
            }
        }
        self.graph = graph;
        Ok(ResolvedTree { root_dependencies: clone_coordinates(deps), all_dependencies: unique })
    }
}

/// Every coordinate that is left after duplicates are dropped was in the
/// list, and a list without duplicates is left as it is.
pub proof fn lemma_distinct_is_sublist(list: Seq<CoordinateView>)
    ensures
        forall|i: int|
            0 <= i < distinct_by_key(list).len() ==> list.contains(
                #[trigger] distinct_by_key(list)[i],
            ),
        keys_of(list).no_duplicates() ==> distinct_by_key(list) == list,
    decreases list.len(),
{
    if list.len() > 0 {
        let front = list.drop_last();
        lemma_distinct_is_sublist(front);
        let before = distinct_by_key(front);
        assert forall|i: int| 0 <= i < distinct_by_key(list).len() implies list.contains(
            #[trigger] distinct_by_key(list)[i],
        ) by {
            if i < before.len() {
                assert(front.contains(before[i]));
                let j = front.index_of(before[i]);
                assert(list[j] == before[i]);
            } else {
                assert(list[list.len() - 1] == distinct_by_key(list)[i]);
            }
        }
        if keys_of(list).no_duplicates() {
            assert forall|a: int, b: int|
                0 <= a < keys_of(front).len() && 0 <= b < keys_of(front).len() && a
                    != b implies keys_of(front)[a] != keys_of(front)[b] by {
                assert(keys_of(list)[a] == keys_of(front)[a]);
                assert(keys_of(list)[b] == keys_of(front)[b]);
            }
            assert(before == front);
            if keys_of(before).contains(list.last().key()) {
                let j = keys_of(before).index_of(list.last().key());
                assert(keys_of(list)[j] == keys_of(list)[list.len() - 1]);
            }
            assert(distinct_by_key(list) =~= list);
        }
    }
}

impl<T: MavenTransport + Default> Resolver<T> {
    /// A resolver for the central repository with the default transport.
    pub fn new() -> (r: Self)
        ensures
            r.graph@ == Map::<Seq<char>, NodeView>::empty(),
            r.client.base() == crate::client::central_url(),
            r.client.search_base() == crate::client::central_search_url(),
    {
        Resolver { client: MavenClient::new(), graph: DependencyGraph::new() }
    }
}


impl Clone for ResolvedTree {
    fn clone(&self) -> (r: Self)
        ensures
            r.root_dependencies@ == self.root_dependencies@,
            r.all_dependencies@ == self.all_dependencies@,
    {
        ResolvedTree {
            root_dependencies: clone_coordinates(&self.root_dependencies),
            all_dependencies: clone_coordinates(&self.all_dependencies),
        }
    }
}


/// A dependency of scope `Test`, `Runtime`, `System` or `Import`, an
/// optional one, and one without a version are not followed.
pub proof fn lemma_not_followed(d: DependencyView)
    requires
        d.optional || d.version is None || d.scope == DependencyScope::Test || d.scope
            == DependencyScope::Runtime || d.scope == DependencyScope::System || d.scope
            == DependencyScope::Import,
    ensures
        !propagates(d),
{
}

/// A coordinate whose manifest is packaged as `pom` contributes nothing
/// itself; any other contributes itself and nothing else.
pub proof fn lemma_pom_contributes_nothing(c: CoordinateView, packaging: Seq<char>)
    ensures
        packaging == "pom"@ ==> own_contribution(c, packaging).len() == 0,
        packaging != "pom"@ ==> own_contribution(c, packaging) == seq![c],
{
}

} // verus!
