//! The dependency tree as it is shown: the project, below it the roots,
//! below each root what it leads to, every coordinate in full only where
//! it is met first.

use crate::config::{Dependency, ProjectConfig};
use crate::coordinate::{coordinate_views, Coordinate, CoordinateView};
use crate::classpath::{root_coordinate, ClasspathBuilder};
use crate::graph::{DependencyGraph, NodeView};
use crate::string_map::StringMap;
use crate::text::{decimal, to_chars, views};
use vstd::prelude::*;
use vstd::string::*;

verus! {

/// Whether `a` comes before `b`, or is `b`, in the order of strings:
/// character by character, a text before its longer continuations.
pub open spec fn in_order(a: Seq<char>, b: Seq<char>) -> bool
    decreases a.len(),
{
    if a.len() == 0 {
        true
    } else if b.len() == 0 {
        false
    } else if a[0] != b[0] {
        a[0] < b[0]
    } else {
        in_order(a.skip(1), b.skip(1))
    }
}

/// `sorted` with `c` put in behind the last coordinate whose key does not
/// come after the key of `c`.
pub open spec fn inserted(sorted: Seq<CoordinateView>, c: CoordinateView) -> Seq<CoordinateView>
    decreases sorted.len(),
{
    if sorted.len() == 0 {
        seq![c]
    } else if in_order(sorted.last().key(), c.key()) {
        sorted.push(c)
    } else {
        inserted(sorted.drop_last(), c).push(sorted.last())
    }
}

/// `list` in the order of its keys; coordinates of one key stay in the
/// order in which they stood.
pub open spec fn sorted_by_key(list: Seq<CoordinateView>) -> Seq<CoordinateView>
    decreases list.len(),
{
    if list.len() == 0 {
        Seq::empty()
    } else {
        inserted(sorted_by_key(list.drop_last()), list.last())
    }
}

/// The mark before a coordinate: one for the last of its siblings, another
/// for the others.
pub open spec fn connector(last: bool) -> Seq<char> {
    if last {
        "└── "@
    } else {
        "├── "@
    }
}

/// What is put before the lines below a coordinate.
pub open spec fn indent(last: bool) -> Seq<char> {
    if last {
        "    "@
    } else {
        "│   "@
    }
}

/// Lines, and the keys that have been shown in full up to their end.
pub ghost struct Rendering {
    pub lines: Seq<Seq<char>>,
    pub printed: Set<Seq<char>>,
}

/// The lines below `c`: those of the transitive candidates of its node, in
/// the order of their keys. Without a node there are none. `depth` is how
/// many levels may still be shown.
pub open spec fn below(
    g: Map<Seq<char>, NodeView>,
    c: CoordinateView,
    prefix: Seq<char>,
    printed: Set<Seq<char>>,
    depth: nat,
) -> Rendering
    decreases depth, 0nat,
{
    if depth == 0 || !g.contains_key(c.key()) {
        Rendering { lines: Seq::empty(), printed }
    } else {
        siblings(
            g,
            sorted_by_key(g[c.key()].dependencies),
            0,
            prefix,
            printed,
            (depth - 1) as nat,
        )
    }
}

/// The lines of the siblings from the `i`-th on. A coordinate that has been
/// shown before gets one line, marked `(*)`; any other gets its line and
/// below it the lines of what it leads to.
pub open spec fn siblings(
    g: Map<Seq<char>, NodeView>,
    children: Seq<CoordinateView>,
    i: int,
    prefix: Seq<char>,
    printed: Set<Seq<char>>,
    depth: nat,
) -> Rendering
    decreases depth, 1nat + (if 0 <= i < children.len() { children.len() - i } else { 0 }),
{
    if i < 0 || i >= children.len() {
        Rendering { lines: Seq::empty(), printed }
    } else {
        let child = children[i];
        let last = i == children.len() - 1;
        let line = prefix + connector(last) + child.key();
        if printed.contains(child.key()) {
            let rest = siblings(g, children, i + 1, prefix, printed, depth);
            Rendering { lines: seq![line + " (*)"@] + rest.lines, printed: rest.printed }
        } else {
            let under = below(g, child, prefix + indent(last), printed.insert(child.key()), depth);
            let rest = siblings(g, children, i + 1, prefix, under.printed, depth);
            Rendering { lines: seq![line] + under.lines + rest.lines, printed: rest.printed }
        }
    }
}

/// The lines of the roots from the `i`-th on. Every root is shown in full.
pub open spec fn roots_from(
    g: Map<Seq<char>, NodeView>,
    roots: Seq<CoordinateView>,
    i: int,
    printed: Set<Seq<char>>,
    depth: nat,
) -> Rendering
    decreases (if 0 <= i < roots.len() { roots.len() - i } else { 0 }),
{
    if i < 0 || i >= roots.len() {
        Rendering { lines: Seq::empty(), printed }
    } else {
        let root = roots[i];
        let last = i == roots.len() - 1;
        let under = below(g, root, indent(last), printed.insert(root.key()), depth);
        let rest = roots_from(g, roots, i + 1, under.printed, depth);
        Rendering {
            lines: seq![connector(last) + root.key()] + under.lines + rest.lines,
            printed: rest.printed,
        }
    }
}

/// The first line of a tree: the project and its version.
pub open spec fn title(project_name: Seq<char>) -> Seq<char> {
    project_name + " v0.1.0"@
}

/// The whole tree of a project. No branch goes deeper than the graph has
/// nodes, and one more; since a branch shows a node in full only once, none
/// can.
pub open spec fn tree_lines(
    project_name: Seq<char>,
    roots: Seq<CoordinateView>,
    g: Map<Seq<char>, NodeView>,
    nodes: nat,
) -> Seq<Seq<char>> {
    seq![title(project_name)] + roots_from(g, roots, 0, Set::empty(), levels(nodes)).lines
}

/// How many levels a tree over a graph of `nodes` nodes can have: one more
/// than it has nodes, as far as the machine's word reaches.
pub open spec fn levels(nodes: nat) -> nat {
    if nodes < usize::MAX {
        nodes + 1
    } else {
        nodes
    }
}

/// How long something took: in seconds where it took a second or more, in
/// milliseconds where it took less.
pub open spec fn duration_text(secs: u64, millis: u64) -> Seq<char> {
    if secs > 0 {
        decimal(secs as nat) + "s"@
    } else {
        decimal(millis as nat) + "ms"@
    }
}

/// The roots that the keys and values of a configuration stand for, in
/// their order; an entry whose key stands for no coordinate is passed over.
pub open spec fn roots_of(keys: Seq<Seq<char>>, deps: Seq<Dependency>) -> Seq<CoordinateView>
    decreases keys.len(),
{
    if keys.len() == 0 || deps.len() == 0 {
        Seq::empty()
    } else {
        let before = roots_of(keys.drop_last(), deps.drop_last());
        match root_coordinate(keys.last(), deps.last()) {
            Some(c) => before.push(c),
            None => before,
        }
    }
}

/// Whether `a` comes before `b`, or is `b`, in the order of strings.
pub fn precedes(a: &str, b: &str) -> (r: bool)
    ensures
        r == in_order(a@, b@),
{
    let x = to_chars(a);
    let y = to_chars(b);
    let mut i: usize = 0;
    proof {
        assert(x@.skip(0) == x@);
        assert(y@.skip(0) == y@);
    }
    while i < x.len()
        invariant
            i <= x.len(),
            i <= y.len(),
            x@ == a@,
            y@ == b@,
            in_order(x@.skip(i as int), y@.skip(i as int)) == in_order(a@, b@),
        decreases x.len() - i,
    {
        if i == y.len() {
            return false;
        }
        proof {
            assert(x@.skip(i as int)[0] == x@[i as int]);
            assert(y@.skip(i as int)[0] == y@[i as int]);
            assert(x@.skip(i as int).skip(1) == x@.skip(i + 1));
            assert(y@.skip(i as int).skip(1) == y@.skip(i + 1));
        }
        if x[i] != y[i] {
            return x[i] < y[i];
        }
        i += 1;
    }
    true
}

/// Putting `c` in at `j` is `inserted`, where the coordinates from `j` on
/// come after `c` and the one before `j` does not.
pub proof fn lemma_inserted_at(sorted: Seq<CoordinateView>, c: CoordinateView, j: int)
    requires
        0 <= j <= sorted.len(),
        forall|k: int| j <= k < sorted.len() ==> !in_order((#[trigger] sorted[k]).key(), c.key()),
        j > 0 ==> in_order(sorted[j - 1].key(), c.key()),
    ensures
        inserted(sorted, c) == sorted.insert(j, c),
    decreases sorted.len() - j,
{
    if sorted.len() == 0 {
        assert(sorted.insert(0, c) =~= seq![c]);
    } else if j == sorted.len() {
        assert(sorted.insert(j, c) =~= sorted.push(c));
    } else {
        let front = sorted.drop_last();
        assert(!in_order(sorted[sorted.len() - 1].key(), c.key()));
        assert forall|k: int| j <= k < front.len() implies !in_order(
            (#[trigger] front[k]).key(),
            c.key(),
        ) by {
            assert(front[k] == sorted[k]);
        }
        if j > 0 {
            assert(front[j - 1] == sorted[j - 1]);
        }
        lemma_inserted_at(front, c, j);
        assert(front.insert(j, c).push(sorted.last()) =~= sorted.insert(j, c));
    }
}

/// The coordinates in the order of their keys.
pub fn sort_by_key(list: &Vec<Coordinate>) -> (r: Vec<Coordinate>)
    ensures
        coordinate_views(r@) == sorted_by_key(coordinate_views(list@)),
{
    let ghost all = coordinate_views(list@);
    let mut r: Vec<Coordinate> = Vec::new();
    let mut keys: Vec<String> = Vec::new();
    let mut i: usize = 0;
    proof {
        assert(coordinate_views(r@) =~= sorted_by_key(all.take(0)));
    }
    while i < list.len()
        invariant
            i <= list.len(),
            all == coordinate_views(list@),
            coordinate_views(r@) == sorted_by_key(all.take(i as int)),
            keys.len() == r.len(),
            forall|k: int| 0 <= k < keys.len() ==> (#[trigger] keys@[k])@ == r@[k]@.key(),
        decreases list.len() - i,
    {
        let c = list[i].clone();
        let key = c.to_string();
        let ghost sorted = coordinate_views(r@);
        proof {
            assert(all.take(i + 1).drop_last() == all.take(i as int));
            assert(all.take(i + 1).last() == c@);
        }
        let mut j: usize = r.len();
        while j > 0 && !precedes(keys[j - 1].as_str(), key.as_str())
            invariant
                j <= r.len(),
                keys.len() == r.len(),
                key@ == c@.key(),
                sorted == coordinate_views(r@),
                forall|k: int| 0 <= k < keys.len() ==> (#[trigger] keys@[k])@ == r@[k]@.key(),
                forall|k: int| j <= k < sorted.len() ==> !in_order((#[trigger] sorted[k]).key(), c@.key()),
            decreases j,
        {
            proof {
                assert(sorted[j - 1] == r@[j - 1]@);
            }
            j -= 1;
        }
        proof {
            if j > 0 {
                assert(sorted[j - 1] == r@[j - 1]@);
            }
            lemma_inserted_at(sorted, c@, j as int);
        }
        r.insert(j, c);
        keys.insert(j, key);
        proof {
            assert(coordinate_views(r@) =~= sorted.insert(j as int, c@));
        }
        i += 1;
    }
    proof {
        assert(all.take(list.len() as int) == all);
    }
    r
}

/// How long something took, as it is shown.
pub fn format_duration(secs: u64, millis: u64) -> (r: String)
    ensures
        r@ == duration_text(secs, millis),
{
    if secs > 0 {
        let mut r = crate::text::decimal_string(secs);
        r.append("s");
        r
    } else {
        let mut r = crate::text::decimal_string(millis);
        r.append("ms");
        r
    }
}

/// The roots of a project in the order of their keys: one for each
/// dependency of the configuration whose key stands for a coordinate.
pub fn parse_root_coords(config: &ProjectConfig) -> (r: Vec<Coordinate>)
    ensures
        coordinate_views(r@) == sorted_by_key(
            roots_of(config.dependencies.keys(), config.dependencies.values()),
        ),
{
    let deps = &config.dependencies;
    let ghost keys = deps.keys();
    let ghost values = deps.values();
    let n = deps.len();
    let mut coords: Vec<Coordinate> = Vec::new();
    let mut i: usize = 0;
    proof {
        assert(keys.take(0) =~= Seq::<Seq<char>>::empty());
        assert(coordinate_views(coords@) =~= roots_of(keys.take(0), values.take(0)));
    }
    while i < n
        invariant
            i <= n,
            n == keys.len(),
            n == values.len(),
            keys == deps.keys(),
            values == deps.values(),
            coordinate_views(coords@) == roots_of(keys.take(i as int), values.take(i as int)),
        decreases n - i,
    {
        proof {
            assert(keys.take(i + 1).drop_last() == keys.take(i as int));
            assert(values.take(i + 1).drop_last() == values.take(i as int));
            assert(keys.take(i + 1).last() == keys[i as int]);
            assert(values.take(i + 1).last() == values[i as int]);
        }
        match ClasspathBuilder::parse_coordinate(deps.key_at(i).as_str()) {
            Ok(c) => {
                let ghost before = coordinate_views(coords@);
                let root = Coordinate::new(
                    c.group_id.as_str(),
                    c.artifact_id.as_str(),
                    deps.value_at(i).version(),
                );
                coords.push(root);
                proof {
                    assert(coordinate_views(coords@) =~= before.push(root@));
                }
            },
            Err(_) => {},
        }
        i += 1;
    }
    proof {
        assert(keys.take(n as int) == keys);
        assert(values.take(n as int) == values);
    }
    sort_by_key(&coords)
}

/// One line of the tree.
fn tree_line(prefix: &str, last: bool, key: &str, seen_before: bool) -> (r: String)
    ensures
        r@ == prefix@ + connector(last) + key@ + (if seen_before {
            " (*)"@
        } else {
            Seq::<char>::empty()
        }),
{
    let mut r = prefix.to_owned();
    if last {
        r.append("└── ");
    } else {
        r.append("├── ");
    }
    r.append(key);
    if seen_before {
        r.append(" (*)");
    }
    proof {
        assert(r@ =~= prefix@ + connector(last) + key@ + (if seen_before {
            " (*)"@
        } else {
            Seq::<char>::empty()
        }));
    }
    r
}

/// `prefix` with what is put before the lines below a coordinate.
fn deeper(prefix: &str, last: bool) -> (r: String)
    ensures
        r@ == prefix@ + indent(last),
{
    let mut r = prefix.to_owned();
    if last {
        r.append("    ");
    } else {
        r.append("│   ");
    }
    r
}

/// Appends the lines below `coord` to `lines`, and takes note in `printed`
/// of what they show in full.
pub fn collect_children(
    graph: &DependencyGraph,
    coord: &Coordinate,
    prefix: &str,
    printed: &mut StringMap<bool>,
    lines: &mut Vec<String>,
    depth: usize,
)
    ensures
        views(final(lines)@) == views(old(lines)@) + below(
            graph@,
            coord@,
            prefix@,
            old(printed)@.dom(),
            depth as nat,
        ).lines,
        final(printed)@.dom() == below(
            graph@,
            coord@,
            prefix@,
            old(printed)@.dom(),
            depth as nat,
        ).printed,
    decreases depth,
{
    let ghost start = views(lines@);
    let ghost printed0 = printed@.dom();
    if depth == 0 {
        proof {
            assert(views(lines@) =~= start + Seq::<Seq<char>>::empty());
        }
        return ;
    }
    let key = coord.to_string();
    let node = match graph.get(key.as_str()) {
        Some(node) => node,
        None => {
            proof {
                assert(views(lines@) =~= start + Seq::<Seq<char>>::empty());
            }
            return ;
        },
    };
    let children = sort_by_key(&node.dependencies);
    let ghost kids = coordinate_views(children@);
    let ghost g = graph@;
    let ghost level = (depth - 1) as nat;
    let ghost whole = siblings(g, kids, 0, prefix@, printed0, level);
    let n = children.len();
    let mut i: usize = 0;
    proof {
        assert(views(lines@) + whole.lines =~= start + whole.lines);
    }
    while i < n
        invariant
            i <= n,
            n == children.len(),
            depth > 0,
            level == (depth - 1) as nat,
            g == graph@,
            kids == coordinate_views(children@),
            views(lines@) + siblings(g, kids, i as int, prefix@, printed@.dom(), level).lines
                == start + whole.lines,
            siblings(g, kids, i as int, prefix@, printed@.dom(), level).printed == whole.printed,
        decreases n - i,
    {
        let child = &children[i];
        let last = i == n - 1;
        let child_key = child.to_string();
        let ghost before = views(lines@);
        let ghost seen = printed@.dom();
        let ghost here = siblings(g, kids, i as int, prefix@, seen, level);
        proof {
            assert(kids[i as int] == child@);
        }
        if printed.contains_key(child_key.as_str()) {
            let line = tree_line(prefix, last, child_key.as_str(), true);
            proof {
                crate::text::lemma_views_push(lines@, line);
                let rest = siblings(g, kids, i + 1, prefix@, seen, level);
                assert(here.lines == seq![line@] + rest.lines);
                assert(before.push(line@) + rest.lines =~= before + (seq![line@] + rest.lines));
            }
            lines.push(line);
        } else {
            let line = tree_line(prefix, last, child_key.as_str(), false);
            proof {
                crate::text::lemma_views_push(lines@, line);
                assert(line@ =~= prefix@ + connector(last) + child@.key());
            }
            lines.push(line);
            printed.insert(child_key, true);
            proof {
                assert(printed@.dom() =~= seen.insert(child@.key()));
            }
            let new_prefix = deeper(prefix, last);
            collect_children(graph, child, new_prefix.as_str(), printed, lines, depth - 1);
            proof {
                let under = below(g, child@, prefix@ + indent(last), seen.insert(child@.key()), level);
                let rest = siblings(g, kids, i + 1, prefix@, under.printed, level);
                assert(here.lines == seq![line@] + under.lines + rest.lines);
                assert(views(lines@) == before.push(line@) + under.lines);
                assert(before.push(line@) + under.lines + rest.lines =~= before + (seq![line@]
                    + under.lines + rest.lines));
            }
        }
        i += 1;
    }
    proof {
        assert(siblings(g, kids, n as int, prefix@, printed@.dom(), level).lines
            =~= Seq::<Seq<char>>::empty());
        assert(views(lines@) + Seq::<Seq<char>>::empty() =~= views(lines@));
    }
}

/// The tree of a project as lines: the project, the roots in their order,
/// and below each what it leads to.
pub fn render_tree(
    project_name: &str,
    root_coords: &Vec<Coordinate>,
    graph: &DependencyGraph,
    verbose: bool,
) -> (lines: Vec<String>)
    ensures
        views(lines@) == tree_lines(
            project_name@,
            coordinate_views(root_coords@),
            graph@,
            graph.keys().len(),
        ),
{
    let mut lines: Vec<String> = Vec::new();
    let mut first = project_name.to_owned();
    first.append(" v0.1.0");
    lines.push(first);
    let nodes = graph.len();
    let depth: usize = if nodes < usize::MAX {
        nodes + 1
    } else {
        nodes
    };
    let mut printed: StringMap<bool> = StringMap::new();
    let ghost roots = coordinate_views(root_coords@);
    let ghost g = graph@;
    let ghost level = levels(graph.keys().len());
    let ghost whole = roots_from(g, roots, 0, Set::empty(), level);
    let ghost start = views(lines@);
    let n = root_coords.len();
    let mut i: usize = 0;
    proof {
        assert(start =~= seq![title(project_name@)]);
        assert(printed@.dom() =~= Set::<Seq<char>>::empty());
    }
    while i < n
        invariant
            i <= n,
            n == root_coords.len(),
            g == graph@,
            roots == coordinate_views(root_coords@),
            level == levels(graph.keys().len()),
            depth as nat == level,
            views(lines@) + roots_from(g, roots, i as int, printed@.dom(), level).lines == start
                + whole.lines,
        decreases n - i,
    {
        let coord = &root_coords[i];
        let last = i == n - 1;
        let key = coord.to_string();
        let ghost before = views(lines@);
        let ghost seen = printed@.dom();
        let ghost here = roots_from(g, roots, i as int, seen, level);
        proof {
            assert(roots[i as int] == coord@);
        }
        let line = tree_line("", last, key.as_str(), false);
        proof {
            reveal_strlit("");
            assert(""@ =~= Seq::<char>::empty());
            assert(line@ =~= connector(last) + coord@.key());
            crate::text::lemma_views_push(lines@, line);
        }
        lines.push(line);
        printed.insert(key, true);
        proof {
            assert(printed@.dom() =~= seen.insert(coord@.key()));
        }
        let child_prefix = deeper("", last);
        proof {
            assert(child_prefix@ =~= indent(last));
        }
        collect_children(graph, coord, child_prefix.as_str(), &mut printed, &mut lines, depth);
        proof {
            let under = below(g, coord@, indent(last), seen.insert(coord@.key()), level);
            let rest = roots_from(g, roots, i + 1, under.printed, level);
            assert(here.lines == seq![line@] + under.lines + rest.lines);
            assert(before.push(line@) + under.lines + rest.lines =~= before + (seq![line@]
                + under.lines + rest.lines));
        }
        i += 1;
    }
    proof {
        assert(roots_from(g, roots, n as int, printed@.dom(), level).lines
            =~= Seq::<Seq<char>>::empty());
        assert(views(lines@) + Seq::<Seq<char>>::empty() =~= views(lines@));
    }
    let _ = verbose;
    lines
}


/// Of two strings one comes before the other, or they are the same.
pub proof fn lemma_in_order_total(a: Seq<char>, b: Seq<char>)
    ensures
        in_order(a, b) || in_order(b, a),
    decreases a.len(),
{
    if a.len() > 0 && b.len() > 0 && a[0] == b[0] {
        lemma_in_order_total(a.skip(1), b.skip(1));
    }
}

/// What comes before something that comes before a third comes before the
/// third.
pub proof fn lemma_in_order_transitive(a: Seq<char>, b: Seq<char>, c: Seq<char>)
    requires
        in_order(a, b),
        in_order(b, c),
    ensures
        in_order(a, c),
    decreases a.len(),
{
    if a.len() > 0 && b.len() > 0 && c.len() > 0 && a[0] == b[0] && b[0] == c[0] {
        lemma_in_order_transitive(a.skip(1), b.skip(1), c.skip(1));
    }
}

/// Whether the keys of a list stand in order.
pub open spec fn ordered(list: Seq<CoordinateView>) -> bool {
    forall|i: int, j: int|
        0 <= i <= j < list.len() ==> in_order((#[trigger] list[i]).key(), (#[trigger] list[j]).key())
}

/// Putting a coordinate into a list adds it and takes nothing away, and a
/// list in order stays in order.
pub proof fn lemma_inserted(sorted: Seq<CoordinateView>, c: CoordinateView)
    ensures
        inserted(sorted, c).to_multiset() == sorted.to_multiset().insert(c),
        inserted(sorted, c).len() == sorted.len() + 1,
        ordered(sorted) ==> ordered(inserted(sorted, c)),
    decreases sorted.len(),
{
    broadcast use vstd::seq_lib::group_to_multiset_ensures;

    let out = inserted(sorted, c);
    if sorted.len() == 0 {
        assert(sorted =~= Seq::<CoordinateView>::empty());
        assert(seq![c] =~= Seq::<CoordinateView>::empty().push(c));
        lemma_in_order_total(c.key(), c.key());
        assert(ordered(out)) by {
            assert forall|i: int, j: int| 0 <= i <= j < out.len() implies in_order(
                (#[trigger] out[i]).key(),
                (#[trigger] out[j]).key(),
            ) by {
                assert(out[i] == c && out[j] == c);
            }
        }
    } else if in_order(sorted.last().key(), c.key()) {
        if ordered(sorted) {
            assert forall|i: int, j: int| 0 <= i <= j < out.len() implies in_order(
                (#[trigger] out[i]).key(),
                (#[trigger] out[j]).key(),
            ) by {
                if j < sorted.len() {
                    assert(out[i] == sorted[i] && out[j] == sorted[j]);
                } else if i < sorted.len() {
                    assert(out[i] == sorted[i]);
                    assert(in_order(sorted[i].key(), sorted[sorted.len() - 1].key()));
                    lemma_in_order_transitive(sorted[i].key(), sorted.last().key(), c.key());
                } else {
                    lemma_in_order_total(c.key(), c.key());
                }
            }
        }
    } else {
        let front = sorted.drop_last();
        let last = sorted.last();
        lemma_inserted(front, c);
        let inner = inserted(front, c);
        assert(front.push(last) =~= sorted);
        assert(out == inner.push(last));
        assert(out.to_multiset() =~= sorted.to_multiset().insert(c));
        if ordered(sorted) {
            assert(ordered(front)) by {
                assert forall|i: int, j: int| 0 <= i <= j < front.len() implies in_order(
                    (#[trigger] front[i]).key(),
                    (#[trigger] front[j]).key(),
                ) by {
                    assert(front[i] == sorted[i] && front[j] == sorted[j]);
                }
            }
            lemma_in_order_total(last.key(), c.key());
            assert forall|i: int, j: int| 0 <= i <= j < out.len() implies in_order(
                (#[trigger] out[i]).key(),
                (#[trigger] out[j]).key(),
            ) by {
                if j < inner.len() {
                    assert(out[i] == inner[i] && out[j] == inner[j]);
                } else {
                    assert(out[j] == last);
                    if i < inner.len() {
                        assert(out[i] == inner[i]);
                        assert(inner.to_multiset().count(inner[i]) > 0);
                        if inner[i] == c {
                        } else {
                            assert(front.to_multiset().count(inner[i]) > 0);
                            assert(front.contains(inner[i]));
                            let k = front.index_of(inner[i]);
                            assert(sorted[k] == inner[i]);
                            assert(in_order(sorted[k].key(), sorted[sorted.len() - 1].key()));
                        }
                    } else {
                        lemma_in_order_total(last.key(), last.key());
                    }
                }
            }
        }
    }
}

/// A sorted list holds what the list held, each coordinate as often, with
/// the keys in order.
pub proof fn lemma_sorted_by_key(list: Seq<CoordinateView>)
    ensures
        sorted_by_key(list).to_multiset() == list.to_multiset(),
        sorted_by_key(list).len() == list.len(),
        ordered(sorted_by_key(list)),
    decreases list.len(),
{
    broadcast use vstd::seq_lib::group_to_multiset_ensures;

    if list.len() == 0 {
        assert(list =~= Seq::<CoordinateView>::empty());
    } else {
        let front = list.drop_last();
        lemma_sorted_by_key(front);
        lemma_inserted(sorted_by_key(front), list.last());
        assert(front.push(list.last()) =~= list);
    }
}

} // verus!
