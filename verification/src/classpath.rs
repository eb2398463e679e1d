//! Class paths: the project's root coordinates, the scope that the project
//! declares for an artifact, and the class paths that the scopes give.

use crate::config::{copy_strings, Dependency, ProjectConfig};
use crate::coordinate::{default_packaging_text, Coordinate, CoordinateView};
use crate::error::BuildError;
use crate::pom::DependencyScope;
use crate::text::{join, joined, split, split_on, views};
use vstd::prelude::*;

verus! {

/// The class paths of a project, one list of jar paths for each use.
#[derive(Debug)]
pub struct ClasspathResult {
    /// For compiling: artifacts of scope compile and provided.
    pub compile_classpath: Vec<String>,
    /// For testing: artifacts of scope compile, provided, runtime and test.
    pub test_classpath: Vec<String>,
    /// For running: artifacts of scope compile and runtime.
    pub runtime_classpath: Vec<String>,
}

/// Builds the class paths of a project and keeps the last result.
#[derive(Debug)]
pub struct ClasspathBuilder {
    config: ProjectConfig,
    cached_result: Option<ClasspathResult>,
}

/// A resolved artifact with the path of its jar.
#[derive(Debug)]
pub struct ResolvedArtifact {
    pub coordinate: Coordinate,
    pub path: String,
}

/// The version of a root that the configuration key does not name.
pub open spec fn latest() -> Seq<char> {
    "LATEST"@
}

/// The coordinate that a configuration key stands for: `group:artifact`,
/// with the version where a third segment gives one and `LATEST` where
/// not. A key without a colon stands for none.
pub open spec fn key_coordinate(key: Seq<char>) -> Option<CoordinateView> {
    let parts = split_on(key, ':');
    if parts.len() < 2 {
        None
    } else {
        Some(
            CoordinateView {
                group_id: parts[0],
                artifact_id: parts[1],
                version: if parts.len() > 2 {
                    parts[2]
                } else {
                    latest()
                },
                classifier: None,
                packaging: default_packaging_text(),
            },
        )
    }
}

/// The root coordinate of one entry of the configuration: group and
/// artifact from the key, the version from the value.
pub open spec fn root_coordinate(key: Seq<char>, dep: Dependency) -> Option<CoordinateView> {
    match key_coordinate(key) {
        Some(c) => Some(CoordinateView { version: dep.version_text(), ..c }),
        None => None,
    }
}

/// The first of `keys` that stands for no coordinate, if there is one.
pub open spec fn first_invalid_key(keys: Seq<Seq<char>>) -> Option<Seq<char>>
    decreases keys.len(),
{
    if keys.len() == 0 {
        None
    } else if key_coordinate(keys[0]) is None {
        Some(keys[0])
    } else {
        first_invalid_key(keys.skip(1))
    }
}

/// The pom scope that a scope of the configuration stands for.
pub open spec fn pom_scope(scope: crate::config::DependencyScope) -> DependencyScope {
    match scope {
        crate::config::DependencyScope::Compile => DependencyScope::Compile,
        crate::config::DependencyScope::Test => DependencyScope::Test,
        crate::config::DependencyScope::Runtime => DependencyScope::Runtime,
        crate::config::DependencyScope::Provided => DependencyScope::Provided,
    }
}

/// The scope that the configuration declares for `group:artifact`: that of
/// the first entry whose key names them.
pub open spec fn declared_scope(
    keys: Seq<Seq<char>>,
    deps: Seq<Dependency>,
    group_id: Seq<char>,
    artifact_id: Seq<char>,
) -> Option<DependencyScope>
    decreases keys.len(),
{
    if keys.len() == 0 || deps.len() == 0 {
        None
    } else {
        match key_coordinate(keys[0]) {
            Some(c) if c.group_id == group_id && c.artifact_id == artifact_id => Some(
                pom_scope(deps[0].scope_value()),
            ),
            _ => declared_scope(keys.skip(1), deps.skip(1), group_id, artifact_id),
        }
    }
}

/// Whether artifacts of a scope are on the class path for compiling.
pub open spec fn on_compile_classpath(scope: DependencyScope) -> bool {
    scope == DependencyScope::Compile || scope == DependencyScope::Provided
}

/// Whether artifacts of a scope are on the class path for testing.
pub open spec fn on_test_classpath(scope: DependencyScope) -> bool {
    scope == DependencyScope::Compile || scope == DependencyScope::Provided || scope
        == DependencyScope::Runtime || scope == DependencyScope::Test
}

/// Whether artifacts of a scope are on the class path for running.
pub open spec fn on_runtime_classpath(scope: DependencyScope) -> bool {
    scope == DependencyScope::Compile || scope == DependencyScope::Runtime
}

/// The scope under which an artifact goes on the class paths: the scope
/// that the configuration declares for it, or `Compile`.
pub open spec fn effective_scope(
    keys: Seq<Seq<char>>,
    deps: Seq<Dependency>,
    c: CoordinateView,
) -> DependencyScope {
    match declared_scope(keys, deps, c.group_id, c.artifact_id) {
        Some(s) => s,
        None => DependencyScope::Compile,
    }
}

/// The paths of those artifacts whose scope `wanted` accepts, in their
/// order.
pub open spec fn paths_where(
    artifacts: Seq<ResolvedArtifact>,
    keys: Seq<Seq<char>>,
    deps: Seq<Dependency>,
    wanted: spec_fn(DependencyScope) -> bool,
) -> Seq<Seq<char>>
    decreases artifacts.len(),
{
    if artifacts.len() == 0 {
        Seq::empty()
    } else {
        let before = paths_where(artifacts.drop_last(), keys, deps, wanted);
        let last = artifacts.last();
        if wanted(effective_scope(keys, deps, last.coordinate@)) {
            before.push(last.path@)
        } else {
            before
        }
    }
}

/// The separator of a list of paths: `;` where the separator within a path
/// is `\`, and `:` elsewhere.
pub open spec fn list_separator(path_separator: char) -> Seq<char> {
    if path_separator == '\\' {
        seq![';']
    } else {
        seq![':']
    }
}

/// `std::path::MAIN_SEPARATOR`, the separator within a path on this
/// machine.
#[verifier::external_body]
pub(crate) fn main_separator() -> (c: char) {
    std::path::MAIN_SEPARATOR
}

/// The separator of a list of paths on a machine whose paths are
/// separated by `path_separator`.
pub fn classpath_separator(path_separator: char) -> (r: String)
    ensures
        r@ == list_separator(path_separator),
{
    let mut r = String::new();
    if path_separator == '\\' {
        r.push(';');
    } else {
        r.push(':');
    }
    r
}

/// The paths as one list for a machine whose paths are separated by
/// `path_separator`.
pub fn format_classpath_for(paths: &Vec<String>, path_separator: char) -> (r: String)
    ensures
        r@ == joined(views(paths@), list_separator(path_separator)),
{
    let sep = classpath_separator(path_separator);
    join(paths, sep.as_str())
}

/// A `ClasspathResult`, as plain text.
pub ghost struct ClasspathView {
    pub compile_classpath: Seq<Seq<char>>,
    pub test_classpath: Seq<Seq<char>>,
    pub runtime_classpath: Seq<Seq<char>>,
}

impl View for ClasspathResult {
    type V = ClasspathView;

    open spec fn view(&self) -> ClasspathView {
        ClasspathView {
            compile_classpath: views(self.compile_classpath@),
            test_classpath: views(self.test_classpath@),
            runtime_classpath: views(self.runtime_classpath@),
        }
    }
}

impl Clone for ClasspathResult {
    fn clone(&self) -> (r: Self)
        ensures
            r@ == self@,
    {
        ClasspathResult {
            compile_classpath: copy_strings(&self.compile_classpath),
            test_classpath: copy_strings(&self.test_classpath),
            runtime_classpath: copy_strings(&self.runtime_classpath),
        }
    }
}

impl ClasspathResult {
    /// Class paths with nothing on them.
    pub fn empty() -> (r: Self)
        ensures
            r.compile_classpath@.len() == 0,
            r.test_classpath@.len() == 0,
            r.runtime_classpath@.len() == 0,
    {
        ClasspathResult {
            compile_classpath: Vec::new(),
            test_classpath: Vec::new(),
            runtime_classpath: Vec::new(),
        }
    }
}

impl ClasspathBuilder {
    /// The project's configuration.
    pub closed spec fn config(&self) -> ProjectConfig {
        self.config
    }

    /// The class paths that were built last.
    pub closed spec fn cached(&self) -> Option<ClasspathResult> {
        self.cached_result
    }

    /// A builder for the project, with nothing built yet.
    pub fn new(config: ProjectConfig) -> (b: Self)
        ensures
            b.config() == config,
            b.cached() is None,
    {
        ClasspathBuilder { config, cached_result: None }
    }

    /// The class paths that were built last, or empty ones where none were
    /// built.
    pub fn get_cached_classpath(&self) -> (r: ClasspathResult)
        ensures
            match self.cached() {
                Some(c) => r@ == c@,
                None => r.compile_classpath@.len() == 0 && r.test_classpath@.len() == 0
                    && r.runtime_classpath@.len() == 0,
            },
    {
        match &self.cached_result {
            Some(c) => c.clone(),
            None => ClasspathResult::empty(),
        }
    }

    /// The coordinate that a configuration key stands for.
    pub fn parse_coordinate(key: &str) -> (r: Result<Coordinate, BuildError>)
        ensures
            match r {
                Ok(c) => key_coordinate(key@) == Some(c@),
                Err(e) => key_coordinate(key@) is None && e == (BuildError::InvalidDependency {
                    input: e->InvalidDependency_input,
                }) && e->InvalidDependency_input@ == key@,
            },
    {
        let parts = split(key, ':');
        proof {
            assert(views(parts@).len() == parts.len());
            assert forall|i: int| 0 <= i < parts.len() implies parts@[i]@ == #[trigger] split_on(
                key@,
                ':',
            )[i] by {
                assert(views(parts@)[i] == parts@[i]@);
            }
        }
        if parts.len() < 2 {
            return Err(BuildError::InvalidDependency { input: key.to_owned() });
        }
        let version = if parts.len() > 2 {
            parts[2].as_str()
        } else {
            "LATEST"
        };
        Ok(Coordinate::new(parts[0].as_str(), parts[1].as_str(), version))
    }

    /// The root coordinates of the project, one for each dependency of the
    /// configuration, in the configuration's order. The first key that
    /// stands for no coordinate makes the whole an error.
    pub fn get_root_coordinates(&self) -> (r: Result<Vec<Coordinate>, BuildError>)
        ensures
            match r {
                Ok(coords) => {
                    &&& first_invalid_key(self.config().dependencies.keys()) is None
                    &&& coords.len() == self.config().dependencies.keys().len()
                    &&& forall|i: int|
                        0 <= i < coords.len() ==> root_coordinate(
                            self.config().dependencies.keys()[i],
                            self.config().dependencies.values()[i],
                        ) == Some((#[trigger] coords[i])@)
                },
                Err(e) => e is InvalidDependency && first_invalid_key(
                    self.config().dependencies.keys(),
                ) == Some(e->InvalidDependency_input@),
            },
    {
        let deps = &self.config.dependencies;
        let ghost keys = deps.keys();
        let n = deps.len();
        let mut coords: Vec<Coordinate> = Vec::new();
        let mut i: usize = 0;
        proof {
            assert(keys.skip(0) == keys);
        }
        while i < n
            invariant
                i <= n,
                n == keys.len(),
                keys == deps.keys(),
                deps == &self.config.dependencies,
                coords.len() == i,
                first_invalid_key(keys.skip(i as int)) == first_invalid_key(keys),
                forall|j: int|
                    0 <= j < i ==> root_coordinate(keys[j], deps.values()[j]) == Some(
                        (#[trigger] coords[j])@,
                    ),
            decreases n - i,
        {
            proof {
                assert(keys.skip(i as int)[0] == keys[i as int]);
                assert(keys.skip(i as int).skip(1) == keys.skip(i + 1));
            }
            match Self::parse_coordinate(deps.key_at(i).as_str()) {
                Ok(c) => {
                    let version = deps.value_at(i).version();
                    coords.push(Coordinate::new(c.group_id.as_str(), c.artifact_id.as_str(), version));
                },
                Err(e) => {
                    return Err(e);
                },
            }
            i += 1;
        }
        Ok(coords)
    }

    /// The scope that the project declares for the group and artifact of
    /// `coord`, if it declares them.
    pub fn get_dependency_scope(&self, coord: &Coordinate) -> (r: Option<DependencyScope>)
        ensures
            r == declared_scope(
                self.config().dependencies.keys(),
                self.config().dependencies.values(),
                coord@.group_id,
                coord@.artifact_id,
            ),
    {
        let deps = &self.config.dependencies;
        let ghost keys = deps.keys();
        let ghost values = deps.values();
        let n = deps.len();
        let mut i: usize = 0;
        proof {
            assert(keys.skip(0) == keys);
            assert(values.skip(0) == values);
        }
        while i < n
            invariant
                i <= n,
                n == keys.len(),
                n == values.len(),
                keys == deps.keys(),
                values == deps.values(),
                deps == &self.config.dependencies,
                declared_scope(
                    keys.skip(i as int),
                    values.skip(i as int),
                    coord@.group_id,
                    coord@.artifact_id,
                ) == declared_scope(keys, values, coord@.group_id, coord@.artifact_id),
            decreases n - i,
        {
            proof {
                assert(keys.skip(i as int)[0] == keys[i as int]);
                assert(values.skip(i as int)[0] == values[i as int]);
                assert(keys.skip(i as int).skip(1) == keys.skip(i + 1));
                assert(values.skip(i as int).skip(1) == values.skip(i + 1));
            }
            match Self::parse_coordinate(deps.key_at(i).as_str()) {
                Ok(root) => {
                    if root.group_id == coord.group_id && root.artifact_id == coord.artifact_id {
                        let scope = match deps.value_at(i).scope() {
                            crate::config::DependencyScope::Compile => DependencyScope::Compile,
                            crate::config::DependencyScope::Test => DependencyScope::Test,
                            crate::config::DependencyScope::Runtime => DependencyScope::Runtime,
                            crate::config::DependencyScope::Provided => DependencyScope::Provided,
                        };
                        return Some(scope);
                    }
                },
                Err(_) => {},
            }
            i += 1;
        }
        None
    }

    /// The class paths for the resolved artifacts: each artifact goes where
    /// its scope puts it, and an artifact that the project does not declare
    /// counts as `Compile`. The result is kept as the last one built.
    pub fn assign_classpaths(&mut self, artifacts: &Vec<ResolvedArtifact>) -> (r: ClasspathResult)
        ensures
            final(self).config() == old(self).config(),
            final(self).cached() matches Some(kept) && kept@ == r@,
            views(r.compile_classpath@) == paths_where(
                artifacts@,
                old(self).config().dependencies.keys(),
                old(self).config().dependencies.values(),
                |s: DependencyScope| on_compile_classpath(s),
            ),
            views(r.test_classpath@) == paths_where(
                artifacts@,
                old(self).config().dependencies.keys(),
                old(self).config().dependencies.values(),
                |s: DependencyScope| on_test_classpath(s),
            ),
            views(r.runtime_classpath@) == paths_where(
                artifacts@,
                old(self).config().dependencies.keys(),
                old(self).config().dependencies.values(),
                |s: DependencyScope| on_runtime_classpath(s),
            ),
    {
        let ghost keys = self.config.dependencies.keys();
        let ghost values = self.config.dependencies.values();
        let ghost for_compile = |s: DependencyScope| on_compile_classpath(s);
        let ghost for_test = |s: DependencyScope| on_test_classpath(s);
        let ghost for_runtime = |s: DependencyScope| on_runtime_classpath(s);
        let mut compile_cp: Vec<String> = Vec::new();
        let mut test_cp: Vec<String> = Vec::new();
        let mut runtime_cp: Vec<String> = Vec::new();
        let mut i: usize = 0;
        proof {
            assert(views(compile_cp@) =~= paths_where(artifacts@.take(0), keys, values, for_compile));
            assert(views(test_cp@) =~= paths_where(artifacts@.take(0), keys, values, for_test));
            assert(views(runtime_cp@) =~= paths_where(artifacts@.take(0), keys, values, for_runtime));
        }
        while i < artifacts.len()
            invariant
                i <= artifacts.len(),
                *self == *old(self),
                keys == self.config.dependencies.keys(),
                values == self.config.dependencies.values(),
                for_compile == (|s: DependencyScope| on_compile_classpath(s)),
                for_test == (|s: DependencyScope| on_test_classpath(s)),
                for_runtime == (|s: DependencyScope| on_runtime_classpath(s)),
                views(compile_cp@) == paths_where(artifacts@.take(i as int), keys, values, for_compile),
                views(test_cp@) == paths_where(artifacts@.take(i as int), keys, values, for_test),
                views(runtime_cp@) == paths_where(artifacts@.take(i as int), keys, values, for_runtime),
            decreases artifacts.len() - i,
        {
            let artifact = &artifacts[i];
            proof {
                assert(artifacts@.take(i + 1).drop_last() == artifacts@.take(i as int));
                assert(artifacts@.take(i + 1).last() == *artifact);
            }
            let scope = match self.get_dependency_scope(&artifact.coordinate) {
                Some(s) => s,
                None => DependencyScope::Compile,
            };
            let (c, t, r) = match scope {
                DependencyScope::Compile => (true, true, true),
                DependencyScope::Provided => (true, true, false),
                DependencyScope::Runtime => (false, true, true),
                DependencyScope::Test => (false, true, false),
                _ => (false, false, false),
            };
            if c {
                proof {
                    crate::text::lemma_views_push(compile_cp@, artifact.path);
                }
                compile_cp.push(artifact.path.clone());
            }
            if t {
                proof {
                    crate::text::lemma_views_push(test_cp@, artifact.path);
                }
                test_cp.push(artifact.path.clone());
            }
            if r {
                proof {
                    crate::text::lemma_views_push(runtime_cp@, artifact.path);
                }
                runtime_cp.push(artifact.path.clone());
            }
            i += 1;
        }
        proof {
            assert(artifacts@.take(artifacts.len() as int) == artifacts@);
        }
        let result = ClasspathResult {
            compile_classpath: compile_cp,
            test_classpath: test_cp,
            runtime_classpath: runtime_cp,
        };
        self.cached_result = Some(result.clone());
        result
    }

    /// The paths as one list, separated as this machine separates them.
    pub fn format_classpath(paths: &Vec<String>) -> (r: String)
        ensures
            r@ == joined(views(paths@), seq![';']) || r@ == joined(views(paths@), seq![':']),
    {
        format_classpath_for(paths, main_separator())
    }
}


impl Clone for ClasspathBuilder {
    fn clone(&self) -> (r: Self)
        ensures
            r.config().same_as(&self.config()),
            match self.cached() {
                Some(c) => r.cached() matches Some(kept) && kept@ == c@,
                None => r.cached() is None,
            },
    {
        ClasspathBuilder {
            config: self.config.clone(),
            cached_result: match &self.cached_result {
                Some(c) => Some(c.clone()),
                None => None,
            },
        }
    }
}

impl Clone for ResolvedArtifact {
    fn clone(&self) -> (r: Self)
        ensures
            r == *self,
    {
        ResolvedArtifact { coordinate: self.coordinate.clone(), path: self.path.clone() }
    }
}

} // verus!
