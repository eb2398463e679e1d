//! The manifest model: a manifest's own coordinate, its parent, its
//! dependencies and managed dependencies, and its properties, with property
//! substitution, inheritance from a parent and version fill-in.

use crate::coordinate::{Coordinate, CoordinateView};
use crate::string_map::StringMap;
use crate::text::{contains, occurs_in, substring, to_chars};
use vstd::prelude::*;
use vstd::string::*;

verus! {

/// Where a dependency applies.
#[derive(Debug, Clone, Copy, PartialEq, Eq, Structural, Hash)]
pub enum DependencyScope {
    Compile,
    Runtime,
    Test,
    Provided,
    System,
    Import,
}

impl Default for DependencyScope {
    fn default() -> (r: Self)
        ensures
            r == DependencyScope::Compile,
    {
        DependencyScope::Compile
    }
}

/// An artifact that a dependency leaves out.
#[derive(Debug)]
pub struct Exclusion {
    pub group_id: String,
    pub artifact_id: String,
}

/// A dependency as a manifest declares it. The version may be missing until
/// it is filled in from the managed dependencies.
#[derive(Debug)]
pub struct PomDependency {
    pub group_id: String,
    pub artifact_id: String,
    pub version: Option<String>,
    pub scope: DependencyScope,
    pub optional: bool,
    pub exclusions: Vec<Exclusion>,
}

/// A parsed manifest.
#[derive(Debug)]
pub struct Pom {
    pub coordinate: Coordinate,
    pub packaging: String,
    pub parent: Option<Coordinate>,
    pub dependencies: Vec<PomDependency>,
    pub dependency_management: Vec<PomDependency>,
    pub properties: StringMap<String>,
}

/// An `Exclusion`, as plain text.
pub ghost struct ExclusionView {
    pub group_id: Seq<char>,
    pub artifact_id: Seq<char>,
}

/// A `PomDependency`, as plain text.
pub ghost struct DependencyView {
    pub group_id: Seq<char>,
    pub artifact_id: Seq<char>,
    pub version: Option<Seq<char>>,
    pub scope: DependencyScope,
    pub optional: bool,
    pub exclusions: Seq<ExclusionView>,
}

/// A `Pom`, as plain text.
pub ghost struct PomView {
    pub coordinate: CoordinateView,
    pub packaging: Seq<char>,
    pub parent: Option<CoordinateView>,
    pub dependencies: Seq<DependencyView>,
    pub dependency_management: Seq<DependencyView>,
    pub properties: Map<Seq<char>, Seq<char>>,
}

/// A map of strings, seen as a map of texts.
pub open spec fn text_map(m: Map<Seq<char>, String>) -> Map<Seq<char>, Seq<char>> {
    m.map_values(|s: String| s@)
}

/// The view of an optional string.
pub open spec fn option_text(o: Option<String>) -> Option<Seq<char>> {
    match o {
        Some(s) => Some(s@),
        None => None,
    }
}

/// The views of a sequence of exclusions.
pub open spec fn exclusion_views(v: Seq<Exclusion>) -> Seq<ExclusionView> {
    v.map_values(|e: Exclusion| e@)
}

/// The views of a sequence of dependencies.
pub open spec fn dependency_views(v: Seq<PomDependency>) -> Seq<DependencyView> {
    v.map_values(|d: PomDependency| d@)
}

impl View for Exclusion {
    type V = ExclusionView;

    open spec fn view(&self) -> ExclusionView {
        ExclusionView { group_id: self.group_id@, artifact_id: self.artifact_id@ }
    }
}

impl View for PomDependency {
    type V = DependencyView;

    open spec fn view(&self) -> DependencyView {
        DependencyView {
            group_id: self.group_id@,
            artifact_id: self.artifact_id@,
            version: option_text(self.version),
            scope: self.scope,
            optional: self.optional,
            exclusions: exclusion_views(self.exclusions@),
        }
    }
}

impl View for Pom {
    type V = PomView;

    open spec fn view(&self) -> PomView {
        PomView {
            coordinate: self.coordinate@,
            packaging: self.packaging@,
            parent: match self.parent {
                Some(p) => Some(p@),
                None => None,
            },
            dependencies: dependency_views(self.dependencies@),
            dependency_management: dependency_views(self.dependency_management@),
            properties: text_map(self.properties@),
        }
    }
}

/// The text `${`, which opens a placeholder.
pub open spec fn placeholder_open() -> Seq<char> {
    seq!['$', '{']
}

/// Position of the first `c` in `s`, or `s.len()` where there is none.
pub open spec fn first_index(s: Seq<char>, c: char) -> int
    decreases s.len(),
{
    if s.len() == 0 {
        0
    } else if s[0] == c {
        0
    } else {
        1 + first_index(s.skip(1), c)
    }
}

/// One pass of substitution. Every closed placeholder `${key}` whose key has
/// a property becomes that property's value; one whose key has none stays as
/// it is; a `${` that is never closed stays as it is, with all that follows.
pub open spec fn substitute(s: Seq<char>, props: Map<Seq<char>, Seq<char>>) -> Seq<char>
    decreases s.len(),
{
    if s.len() == 0 {
        s
    } else if s.len() >= 2 && s[0] == '$' && s[1] == '{' {
        let body = s.skip(2);
        let close = first_index(body, '}');
        if 0 <= close < body.len() {
            let key = body.take(close);
            let value = if props.contains_key(key) {
                props[key]
            } else {
                placeholder_open() + key + seq!['}']
            };
            value + substitute(body.skip(close + 1), props)
        } else {
            s
        }
    } else {
        seq![s[0]] + substitute(s.skip(1), props)
    }
}

/// Up to `passes` passes of substitution, stopping at the first pass that
/// changes nothing.
pub open spec fn resolve(s: Seq<char>, props: Map<Seq<char>, Seq<char>>, passes: nat) -> Seq<
    char,
>
    decreases passes,
{
    if passes == 0 {
        s
    } else {
        let next = substitute(s, props);
        if next == s {
            s
        } else {
            resolve(next, props, (passes - 1) as nat)
        }
    }
}

/// The most passes that property resolution makes over one text.
pub const MAX_PROPERTY_PASSES: usize = 10;

/// A text with its placeholders resolved, nested ones included, as far as
/// ten passes reach.
pub open spec fn resolved(s: Seq<char>, props: Map<Seq<char>, Seq<char>>) -> Seq<char> {
    resolve(s, props, MAX_PROPERTY_PASSES as nat)
}

/// A text that still holds a `${` is resolved; any other is left alone.
pub open spec fn resolved_if_placeholder(s: Seq<char>, props: Map<Seq<char>, Seq<char>>) -> Seq<
    char,
> {
    if occurs_in(placeholder_open(), s) {
        resolved(s, props)
    } else {
        s
    }
}

/// Where no character before `j` is `c` and the one at `j` is, or `j` is
/// the end, the first `c` is at `j`.
pub proof fn lemma_first_index(s: Seq<char>, c: char, j: int)
    requires
        0 <= j <= s.len(),
        forall|k: int| 0 <= k < j ==> s[k] != c,
        j < s.len() ==> s[j] == c,
    ensures
        first_index(s, c) == j,
    decreases j,
{
    if j > 0 {
        assert forall|k: int| 0 <= k < j - 1 implies s.skip(1)[k] != c by {
            assert(s.skip(1)[k] == s[k + 1]);
        }
        if j < s.len() {
            assert(s.skip(1)[j - 1] == s[j]);
        }
        lemma_first_index(s.skip(1), c, j - 1);
    }
}

/// A text on which one pass changes nothing is its own resolution.
pub proof fn lemma_resolve_fixed_point(s: Seq<char>, props: Map<Seq<char>, Seq<char>>, passes: nat)
    requires
        substitute(s, props) == s,
    ensures
        resolve(s, props, passes) == s,
{
}

/// Resolution that ended before its last pass ended on a text that one more
/// pass leaves alone, so resolving it again gives the same text.
pub proof fn lemma_resolve_idempotent(s: Seq<char>, props: Map<Seq<char>, Seq<char>>, passes: nat)
    requires
        passes > 0,
        resolve(s, props, (passes - 1) as nat) == resolve(s, props, passes),
    ensures
        substitute(resolve(s, props, passes), props) == resolve(s, props, passes),
        resolve(resolve(s, props, passes), props, passes) == resolve(s, props, passes),
    decreases passes,
{
    let next = substitute(s, props);
    if next == s {
    } else if passes == 1 {
        assert(resolve(s, props, 0) == s);
        assert(resolve(next, props, 0) == next);
    } else {
        lemma_resolve_idempotent(next, props, (passes - 1) as nat);
    }
}

/// One pass of substitution over `value`.
#[verifier::rlimit(40)]
pub fn resolve_single_pass(value: &str, properties: &StringMap<String>) -> (r: String)
    ensures
        r@ == substitute(value@, text_map(properties@)),
{
    let chars = to_chars(value);
    let n = chars.len();
    let ghost props = text_map(properties@);
    let mut out = String::new();
    let mut i: usize = 0;
    proof {
        assert(chars@.skip(0) == chars@);
        assert(out@ + substitute(chars@, props) == substitute(chars@, props));
    }
    while i < n
        invariant
            n == chars.len(),
            i <= n,
            chars@ == value@,
            props == text_map(properties@),
            out@ + substitute(chars@.skip(i as int), props) == substitute(chars@, props),
        decreases n - i,
    {
        let ghost rest = chars@.skip(i as int);
        proof {
            assert(rest[0] == chars@[i as int]);
        }
        if chars[i] == '$' && n - i >= 2 && chars[i + 1] == '{' {
            proof {
                assert(rest[1] == chars@[i + 1]);
            }
            let ghost body = rest.skip(2);
            let start = i + 2;
            let mut j: usize = start;
            while j < n && chars[j] != '}'
                invariant
                    n == chars.len(),
                    start <= j <= n,
                    start == i + 2,
                    body == chars@.skip(start as int),
                    forall|k: int| 0 <= k < j - start ==> body[k] != '}',
                decreases n - j,
            {
                j += 1;
            }
            proof {
                if j < n {
                    assert(body[j - start] == chars@[j as int]);
                }
                lemma_first_index(body, '}', j - start);
            }
            if j < n {
                let key = substring(&chars, start, j);
                proof {
                    assert(key@ == body.take(j - start));
                    assert(body.skip(j - start + 1) == chars@.skip(j + 1));
                }
                match properties.get(key.as_str()) {
                    Some(v) => {
                        let ghost before = out@;
                        out.append(v.as_str());
                        proof {
                            assert(props[key@] == v@);
                            assert(out@ + substitute(chars@.skip(j + 1), props) == before + (v@
                                + substitute(chars@.skip(j + 1), props)));
                        }
                    },
                    None => {
                        let ghost before = out@;
                        out.push('$');
                        out.push('{');
                        out.append(key.as_str());
                        out.push('}');
                        proof {
                            assert(!props.contains_key(key@));
                            assert(out@ == before + (placeholder_open() + key@ + seq!['}']));
                            assert(out@ + substitute(chars@.skip(j + 1), props) == before + ((
                            placeholder_open() + key@ + seq!['}']) + substitute(
                                chars@.skip(j + 1),
                                props,
                            )));
                        }
                    },
                }
                i = j + 1;
            } else {
                let tail = substring(&chars, i, n);
                let ghost before = out@;
                out.append(tail.as_str());
                proof {
                    assert(tail@ == rest);
                    assert(substitute(rest, props) == rest);
                    assert(chars@.skip(n as int) == Seq::<char>::empty());
                    assert(out@ + substitute(chars@.skip(n as int), props) == before + rest);
                }
                i = n;
            }
        } else {
            let ghost before = out@;
            out.push(chars[i]);
            proof {
                assert(rest.skip(1) == chars@.skip(i + 1));
                assert(substitute(rest, props) == seq![rest[0]] + substitute(rest.skip(1), props));
                assert(out@ + substitute(chars@.skip(i + 1), props) == before + (seq![rest[0]]
                    + substitute(rest.skip(1), props)));
            }
            i += 1;
        }
    }
    proof {
        assert(chars@.skip(n as int) == Seq::<char>::empty());
        assert(out@ + Seq::<char>::empty() == out@);
    }
    out
}

/// `value` with its placeholders resolved against `properties`, nested ones
/// included, in at most ten passes.
pub fn resolve_value(value: &str, properties: &StringMap<String>) -> (r: String)
    ensures
        r@ == resolved(value@, text_map(properties@)),
{
    let ghost props = text_map(properties@);
    let mut current = value.to_owned();
    let mut pass: usize = 0;
    while pass < MAX_PROPERTY_PASSES
        invariant
            pass <= MAX_PROPERTY_PASSES,
            props == text_map(properties@),
            resolve(current@, props, (MAX_PROPERTY_PASSES - pass) as nat) == resolved(
                value@,
                props,
            ),
        decreases MAX_PROPERTY_PASSES - pass,
    {
        let next = resolve_single_pass(current.as_str(), properties);
        if next == current {
            return next;
        }
        current = next;
        pass += 1;
    }
    current
}

/// Resolves `value` where it holds a `${`, and copies it where it does not.
pub fn resolve_if_placeholder(value: &str, properties: &StringMap<String>) -> (r: String)
    ensures
        r@ == resolved_if_placeholder(value@, text_map(properties@)),
{
    proof {
        reveal_strlit("${");
        assert("${"@ =~= placeholder_open());
    }
    if contains(value, "${") {
        resolve_value(value, properties)
    } else {
        value.to_owned()
    }
}


/// A text without `${` has nothing to substitute.
pub proof fn lemma_substitute_without_placeholder(s: Seq<char>, props: Map<Seq<char>, Seq<char>>)
    requires
        !occurs_in(placeholder_open(), s),
    ensures
        substitute(s, props) == s,
    decreases s.len(),
{
    if s.len() == 0 {
    } else if s.len() >= 2 && s[0] == '$' && s[1] == '{' {
        assert(s.subrange(0int, 0int + placeholder_open().len()) =~= placeholder_open());
    } else {
        let rest = s.skip(1);
        if occurs_in(placeholder_open(), rest) {
            let i = choose|i: int|
                0 <= i && i + placeholder_open().len() <= rest.len() && #[trigger] rest.subrange(
                    i,
                    i + placeholder_open().len(),
                ) == placeholder_open();
            assert(s.subrange(i + 1, i + 1 + placeholder_open().len()) =~= rest.subrange(
                i,
                i + placeholder_open().len(),
            ));
        }
        lemma_substitute_without_placeholder(rest, props);
        assert(seq![s[0]] + rest =~= s);
    }
}

/// Resolving only where a `${` occurs is resolving everywhere.
pub proof fn lemma_resolved_if_placeholder(s: Seq<char>, props: Map<Seq<char>, Seq<char>>)
    ensures
        resolved_if_placeholder(s, props) == resolved(s, props),
{
    if !occurs_in(placeholder_open(), s) {
        lemma_substitute_without_placeholder(s, props);
    }
}

/// The properties of a child that inherits `extra`: what the child sets
/// itself stays, what only the ancestor sets is added.
pub open spec fn inherited_properties(
    own: Map<Seq<char>, Seq<char>>,
    extra: Map<Seq<char>, Seq<char>>,
) -> Map<Seq<char>, Seq<char>> {
    extra.union_prefer_right(own)
}

/// A dependency with group, artifact and version resolved against `props`.
pub open spec fn resolved_dependency(
    d: DependencyView,
    props: Map<Seq<char>, Seq<char>>,
) -> DependencyView {
    DependencyView {
        group_id: resolved(d.group_id, props),
        artifact_id: resolved(d.artifact_id, props),
        version: match d.version {
            Some(v) => Some(resolved(v, props)),
            None => None,
        },
        ..d
    }
}

/// Every dependency of a list resolved against `props`.
pub open spec fn resolved_dependencies(
    deps: Seq<DependencyView>,
    props: Map<Seq<char>, Seq<char>>,
) -> Seq<DependencyView> {
    deps.map_values(|d: DependencyView| resolved_dependency(d, props))
}

/// The version that the managed dependencies give to `group:artifact`: that
/// of the first entry for it that has one.
pub open spec fn managed_version(
    management: Seq<DependencyView>,
    group_id: Seq<char>,
    artifact_id: Seq<char>,
) -> Option<Seq<char>>
    decreases management.len(),
{
    if management.len() == 0 {
        None
    } else if management[0].group_id == group_id && management[0].artifact_id == artifact_id
        && management[0].version is Some {
        management[0].version
    } else {
        managed_version(management.skip(1), group_id, artifact_id)
    }
}

/// A dependency after version fill-in: one that declares a version keeps
/// it, one that declares none gets the managed version, if there is one.
pub open spec fn filled(d: DependencyView, management: Seq<DependencyView>) -> DependencyView {
    if d.version is None {
        DependencyView { version: managed_version(management, d.group_id, d.artifact_id), ..d }
    } else {
        d
    }
}

/// Every dependency of a list after version fill-in.
pub open spec fn filled_dependencies(
    deps: Seq<DependencyView>,
    management: Seq<DependencyView>,
) -> Seq<DependencyView> {
    deps.map_values(|d: DependencyView| filled(d, management))
}

/// `props` with the three names of one coordinate field set to `value`,
/// unless the value is empty.
pub open spec fn with_field_properties(
    props: Map<Seq<char>, Seq<char>>,
    project_name: Seq<char>,
    pom_name: Seq<char>,
    short_name: Seq<char>,
    value: Seq<char>,
) -> Map<Seq<char>, Seq<char>> {
    if value.len() == 0 {
        props
    } else {
        props.insert(project_name, value).insert(pom_name, value).insert(short_name, value)
    }
}

/// `props` with the implicit properties of a manifest whose coordinate is
/// `c`: `project.version`, `pom.version`, `version`, and the same for
/// `groupId` and `artifactId`.
pub open spec fn with_project_properties(
    props: Map<Seq<char>, Seq<char>>,
    c: CoordinateView,
) -> Map<Seq<char>, Seq<char>> {
    let with_version = with_field_properties(
        props,
        "project.version"@,
        "pom.version"@,
        "version"@,
        c.version,
    );
    let with_group = with_field_properties(
        with_version,
        "project.groupId"@,
        "pom.groupId"@,
        "groupId"@,
        c.group_id,
    );
    with_field_properties(
        with_group,
        "project.artifactId"@,
        "pom.artifactId"@,
        "artifactId"@,
        c.artifact_id,
    )
}

impl Clone for Exclusion {
    fn clone(&self) -> (r: Self)
        ensures
            r == *self,
    {
        Exclusion { group_id: self.group_id.clone(), artifact_id: self.artifact_id.clone() }
    }
}

/// A copy of a list of exclusions.
pub fn clone_exclusions(v: &Vec<Exclusion>) -> (r: Vec<Exclusion>)
    ensures
        r@ == v@,
{
    let mut r: Vec<Exclusion> = Vec::new();
    let mut i: usize = 0;
    while i < v.len()
        invariant
            i <= v.len(),
            r@ == v@.take(i as int),
        decreases v.len() - i,
    {
        r.push(v[i].clone());
        proof {
            assert(v@.take(i + 1) == v@.take(i as int).push(v@[i as int]));
        }
        i += 1;
    }
    proof {
        assert(v@.take(v.len() as int) == v@);
    }
    r
}

/// A copy of an optional string.
pub fn clone_option(o: &Option<String>) -> (r: Option<String>)
    ensures
        r == *o,
{
    match o {
        Some(s) => Some(s.clone()),
        None => None,
    }
}

impl Clone for PomDependency {
    fn clone(&self) -> (r: Self)
        ensures
            r@ == self@,
    {
        PomDependency {
            group_id: self.group_id.clone(),
            artifact_id: self.artifact_id.clone(),
            version: clone_option(&self.version),
            scope: self.scope,
            optional: self.optional,
            exclusions: clone_exclusions(&self.exclusions),
        }
    }
}

/// The dependencies of `deps`, each resolved against `properties`.
pub fn resolve_dependencies(deps: &Vec<PomDependency>, properties: &StringMap<String>) -> (r: Vec<
    PomDependency,
>)
    ensures
        dependency_views(r@) == resolved_dependencies(
            dependency_views(deps@),
            text_map(properties@),
        ),
{
    let ghost props = text_map(properties@);
    let mut r: Vec<PomDependency> = Vec::new();
    let mut i: usize = 0;
    while i < deps.len()
        invariant
            i <= deps.len(),
            props == text_map(properties@),
            dependency_views(r@) == resolved_dependencies(
                dependency_views(deps@).take(i as int),
                props,
            ),
        decreases deps.len() - i,
    {
        let d = &deps[i];
        proof {
            lemma_resolved_if_placeholder(d.group_id@, props);
            lemma_resolved_if_placeholder(d.artifact_id@, props);
            if d.version is Some {
                lemma_resolved_if_placeholder(d.version->0@, props);
            }
        }
        let version = match &d.version {
            Some(v) => Some(resolve_if_placeholder(v.as_str(), properties)),
            None => None,
        };
        let next = PomDependency {
            group_id: resolve_if_placeholder(d.group_id.as_str(), properties),
            artifact_id: resolve_if_placeholder(d.artifact_id.as_str(), properties),
            version,
            scope: d.scope,
            optional: d.optional,
            exclusions: clone_exclusions(&d.exclusions),
        };
        proof {
            let views = dependency_views(deps@);
            assert(views.take(i + 1) == views.take(i as int).push(d@));
            assert(next@ == resolved_dependency(d@, props));
            assert(dependency_views(r@.push(next)) =~= dependency_views(r@).push(next@));
            assert(resolved_dependencies(views.take(i as int).push(d@), props)
                =~= resolved_dependencies(views.take(i as int), props).push(
                resolved_dependency(d@, props),
            ));
        }
        r.push(next);
        i += 1;
    }
    proof {
        assert(dependency_views(deps@).take(deps.len() as int) == dependency_views(deps@));
    }
    r
}

/// The version that `management` gives to `group_id:artifact_id`.
pub fn find_managed_version(
    management: &Vec<PomDependency>,
    group_id: &String,
    artifact_id: &String,
) -> (r: Option<String>)
    ensures
        option_text(r) == managed_version(dependency_views(management@), group_id@, artifact_id@),
{
    let ghost all = dependency_views(management@);
    let mut i: usize = 0;
    proof {
        assert(all.skip(0) == all);
    }
    while i < management.len()
        invariant
            i <= management.len(),
            all == dependency_views(management@),
            managed_version(all.skip(i as int), group_id@, artifact_id@) == managed_version(
                all,
                group_id@,
                artifact_id@,
            ),
        decreases management.len() - i,
    {
        let m = &management[i];
        proof {
            assert(all.skip(i as int)[0] == m@);
            assert(all.skip(i as int).skip(1) == all.skip(i + 1));
        }
        if m.group_id == *group_id && m.artifact_id == *artifact_id {
            match &m.version {
                Some(v) => {
                    return Some(v.clone());
                },
                None => {},
            }
        }
        i += 1;
    }
    None
}

/// The manifest's implicit properties, set in `properties`.
pub fn inject_project_properties(pom: &mut Pom)
    ensures
        final(pom)@ == (PomView {
            properties: with_project_properties(old(pom)@.properties, old(pom)@.coordinate),
            ..old(pom)@
        }),
{
    let ghost start = text_map(pom.properties@);
    if pom.coordinate.version.as_str().is_empty() == false {
        let v = pom.coordinate.version.clone();
        pom.properties.insert("project.version".to_owned(), v.clone());
        pom.properties.insert("pom.version".to_owned(), v.clone());
        pom.properties.insert("version".to_owned(), v);
    }
    let ghost with_version = text_map(pom.properties@);
    proof {
        assert(with_version =~= with_field_properties(
            start,
            "project.version"@,
            "pom.version"@,
            "version"@,
            pom.coordinate.version@,
        ));
    }
    if pom.coordinate.group_id.as_str().is_empty() == false {
        let v = pom.coordinate.group_id.clone();
        pom.properties.insert("project.groupId".to_owned(), v.clone());
        pom.properties.insert("pom.groupId".to_owned(), v.clone());
        pom.properties.insert("groupId".to_owned(), v);
    }
    let ghost with_group = text_map(pom.properties@);
    proof {
        assert(with_group =~= with_field_properties(
            with_version,
            "project.groupId"@,
            "pom.groupId"@,
            "groupId"@,
            pom.coordinate.group_id@,
        ));
    }
    if pom.coordinate.artifact_id.as_str().is_empty() == false {
        let v = pom.coordinate.artifact_id.clone();
        pom.properties.insert("project.artifactId".to_owned(), v.clone());
        pom.properties.insert("pom.artifactId".to_owned(), v.clone());
        pom.properties.insert("artifactId".to_owned(), v);
    }
    proof {
        assert(text_map(pom.properties@) =~= with_field_properties(
            with_group,
            "project.artifactId"@,
            "pom.artifactId"@,
            "artifactId"@,
            pom.coordinate.artifact_id@,
        ));
    }
}

impl Pom {
    /// `value` with its placeholders resolved against this manifest's
    /// properties.
    pub fn resolve_property(&self, value: &str) -> (r: String)
        ensures
            r@ == resolved(value@, self@.properties),
    {
        resolve_value(value, &self.properties)
    }

    /// Takes over the properties of an ancestor, where this manifest sets
    /// none of that name itself, and resolves the dependencies and managed
    /// dependencies again.
    pub fn merge_properties(&mut self, extra_props: &StringMap<String>)
        ensures
            final(self)@ == (PomView {
                properties: inherited_properties(old(self)@.properties, text_map(extra_props@)),
                dependencies: resolved_dependencies(
                    old(self)@.dependencies,
                    inherited_properties(old(self)@.properties, text_map(extra_props@)),
                ),
                dependency_management: resolved_dependencies(
                    old(self)@.dependency_management,
                    inherited_properties(old(self)@.properties, text_map(extra_props@)),
                ),
                ..old(self)@
            }),
    {
        self.properties.insert_missing(extra_props);
        proof {
            assert(text_map(self.properties@) =~= inherited_properties(
                text_map(old(self).properties@),
                text_map(extra_props@),
            ));
        }
        self.dependencies = resolve_dependencies(&self.dependencies, &self.properties);
        self.dependency_management = resolve_dependencies(
            &self.dependency_management,
            &self.properties,
        );
    }

    /// Puts the managed dependencies of an ancestor behind this manifest's
    /// own, so that its own come first in a lookup.
    pub fn merge_dependency_management(&mut self, parent_dm: Vec<PomDependency>)
        ensures
            final(self)@ == (PomView {
                dependency_management: old(self)@.dependency_management + dependency_views(
                    parent_dm@,
                ),
                ..old(self)@
            }),
    {
        let mut parent_dm = parent_dm;
        let ghost appended = parent_dm@;
        self.dependency_management.append(&mut parent_dm);
        proof {
            assert(dependency_views(old(self).dependency_management@ + appended)
                =~= dependency_views(old(self).dependency_management@) + dependency_views(
                appended,
            ));
        }
    }

    /// Gives each dependency that declares no version the version that the
    /// managed dependencies have for its group and artifact. A dependency
    /// for which they have none stays without a version.
    pub fn fill_missing_versions(&mut self)
        ensures
            final(self)@ == (PomView {
                dependencies: filled_dependencies(
                    old(self)@.dependencies,
                    old(self)@.dependency_management,
                ),
                ..old(self)@
            }),
    {
        let ghost management = dependency_views(self.dependency_management@);
        let ghost before = dependency_views(self.dependencies@);
        let mut result: Vec<PomDependency> = Vec::new();
        let mut i: usize = 0;
        while i < self.dependencies.len()
            invariant
                i <= self.dependencies.len(),
                *self == *old(self),
                management == dependency_views(self.dependency_management@),
                before == dependency_views(self.dependencies@),
                dependency_views(result@) == filled_dependencies(before.take(i as int), management),
            decreases self.dependencies.len() - i,
        {
            let d = &self.dependencies[i];
            let mut next = d.clone();
            if d.version.is_none() {
                next.version = find_managed_version(
                    &self.dependency_management,
                    &d.group_id,
                    &d.artifact_id,
                );
            }
            proof {
                assert(before.take(i + 1) == before.take(i as int).push(d@));
                assert(next@ == filled(d@, management));
                assert(dependency_views(result@.push(next)) =~= dependency_views(result@).push(
                    next@,
                ));
                assert(filled_dependencies(before.take(i as int).push(d@), management)
                    =~= filled_dependencies(before.take(i as int), management).push(
                    filled(d@, management),
                ));
            }
            result.push(next);
            i += 1;
        }
        proof {
            assert(before.take(self.dependencies.len() as int) == before);
        }
        self.dependencies = result;
    }
}


/// A copy of a list of dependencies.
pub fn clone_dependencies(v: &Vec<PomDependency>) -> (r: Vec<PomDependency>)
    ensures
        dependency_views(r@) == dependency_views(v@),
{
    let mut r: Vec<PomDependency> = Vec::new();
    let mut i: usize = 0;
    proof {
        assert(dependency_views(r@) =~= dependency_views(v@).take(0));
    }
    while i < v.len()
        invariant
            i <= v.len(),
            dependency_views(r@) == dependency_views(v@).take(i as int),
        decreases v.len() - i,
    {
        let ghost before = dependency_views(r@);
        let d = v[i].clone();
        r.push(d);
        proof {
            assert(dependency_views(r@) =~= before.push(d@));
            assert(dependency_views(v@).take(i + 1) =~= dependency_views(v@).take(i as int).push(
                v@[i as int]@,
            ));
        }
        i += 1;
    }
    proof {
        assert(dependency_views(v@).take(v.len() as int) == dependency_views(v@));
    }
    r
}

impl Clone for Pom {
    fn clone(&self) -> (r: Self)
        ensures
            r@ == self@,
    {
        Pom {
            coordinate: self.coordinate.clone(),
            packaging: self.packaging.clone(),
            parent: match &self.parent {
                Some(p) => Some(p.clone()),
                None => None,
            },
            dependencies: clone_dependencies(&self.dependencies),
            dependency_management: clone_dependencies(&self.dependency_management),
            properties: self.properties.copy(),
        }
    }
}


/// Version fill-in leaves a dependency that declares a version as it is.
pub proof fn lemma_fill_keeps_declared(d: DependencyView, management: Seq<DependencyView>)
    requires
        d.version is Some,
    ensures
        filled(d, management) == d,
{
}

/// Version fill-in gives a dependency without a version the version of the
/// managed entry at `i`, where that entry is for its group and artifact and
/// no entry before it is and has a version.
pub proof fn lemma_fill_takes_managed(d: DependencyView, management: Seq<DependencyView>, i: int)
    requires
        d.version is None,
        0 <= i < management.len(),
        management[i].group_id == d.group_id,
        management[i].artifact_id == d.artifact_id,
        management[i].version is Some,
        forall|j: int|
            0 <= j < i ==> !((#[trigger] management[j]).group_id == d.group_id
                && management[j].artifact_id == d.artifact_id && management[j].version is Some),
    ensures
        filled(d, management).version == management[i].version,
        filled(d, management) == (DependencyView { version: management[i].version, ..d }),
    decreases i,
{
    if i > 0 {
        let rest = management.skip(1);
        assert(rest[i - 1] == management[i]);
        assert forall|j: int| 0 <= j < i - 1 implies !((#[trigger] rest[j]).group_id == d.group_id
            && rest[j].artifact_id == d.artifact_id && rest[j].version is Some) by {
            assert(rest[j] == management[j + 1]);
        }
        lemma_fill_takes_managed(d, rest, i - 1);
        assert(!(management[0].group_id == d.group_id && management[0].artifact_id
            == d.artifact_id && management[0].version is Some));
    }
}

/// Version fill-in leaves a dependency without a version, where no managed
/// entry for its group and artifact has one.
pub proof fn lemma_fill_without_match(d: DependencyView, management: Seq<DependencyView>)
    requires
        d.version is None,
        forall|j: int|
            0 <= j < management.len() ==> !((#[trigger] management[j]).group_id == d.group_id
                && management[j].artifact_id == d.artifact_id && management[j].version is Some),
    ensures
        filled(d, management).version is None,
    decreases management.len(),
{
    if management.len() > 0 {
        let rest = management.skip(1);
        assert forall|j: int| 0 <= j < rest.len() implies !((#[trigger] rest[j]).group_id
            == d.group_id && rest[j].artifact_id == d.artifact_id && rest[j].version is Some) by {
            assert(rest[j] == management[j + 1]);
        }
        lemma_fill_without_match(d, rest);
        assert(!(management[0].group_id == d.group_id && management[0].artifact_id
            == d.artifact_id && management[0].version is Some));
    }
}

} // verus!
