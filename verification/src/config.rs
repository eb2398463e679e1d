//! The project configuration: the project's name and Java version, where
//! its sources and outputs are, and what it depends on.

use crate::string_map::StringMap;
use vstd::prelude::*;

verus! {

/// Where a dependency of the project applies.
#[derive(Debug, Clone, Copy, PartialEq, Eq, Structural, Hash)]
pub enum DependencyScope {
    Compile,
    Runtime,
    Test,
    Provided,
}

impl Default for DependencyScope {
    fn default() -> (r: Self)
        ensures
            r == DependencyScope::Compile,
    {
        DependencyScope::Compile
    }
}

/// A dependency as the configuration writes it: a version alone, or a
/// version with scope and optionality.
#[derive(Debug)]
pub enum Dependency {
    Simple(String),
    Detailed { version: String, scope: DependencyScope, optional: bool },
}

/// The project's name and the Java version it is built for.
#[derive(Debug)]
pub struct ProjectInfo {
    pub name: String,
    pub java_version: String,
}

/// A repository to fetch from.
#[derive(Debug)]
pub struct Repository {
    pub name: String,
    pub url: String,
}

/// Where sources are and where outputs go.
#[derive(Debug)]
pub struct BuildConfig {
    pub source_dirs: Vec<String>,
    pub test_source_dirs: Vec<String>,
    pub output_dir: String,
    pub test_output_dir: String,
    pub compiler_args: Vec<String>,
    pub test_compiler_args: Vec<String>,
    pub test_framework: String,
    pub cache_dir: String,
}

/// The whole configuration of a project.
#[derive(Debug)]
pub struct ProjectConfig {
    pub project: ProjectInfo,
    pub build: BuildConfig,
    pub dependencies: StringMap<Dependency>,
    pub repositories: Vec<Repository>,
}

/// The source directories of a project that names none.
pub fn default_source_dirs() -> (r: Vec<String>)
    ensures
        crate::text::views(r@) == seq!["src/main/java"@],
{
    let mut r: Vec<String> = Vec::new();
    r.push("src/main/java".to_owned());
    proof {
        assert(crate::text::views(r@) =~= seq!["src/main/java"@]);
    }
    r
}

/// The test source directories of a project that names none.
pub fn default_test_source_dirs() -> (r: Vec<String>)
    ensures
        crate::text::views(r@) == seq!["src/test/java"@],
{
    let mut r: Vec<String> = Vec::new();
    r.push("src/test/java".to_owned());
    proof {
        assert(crate::text::views(r@) =~= seq!["src/test/java"@]);
    }
    r
}

/// The output directory of a project that names none.
pub fn default_output_dir() -> (r: String)
    ensures
        r@ == "target/classes"@,
{
    "target/classes".to_owned()
}

/// The test output directory of a project that names none.
pub fn default_test_output_dir() -> (r: String)
    ensures
        r@ == "target/test-classes"@,
{
    "target/test-classes".to_owned()
}

/// The test framework of a project that names none: found out from the
/// class path.
pub fn default_test_framework() -> (r: String)
    ensures
        r@ == "auto"@,
{
    "auto".to_owned()
}

/// The cache directory of a project that names none.
pub fn default_cache_dir() -> (r: String)
    ensures
        r@ == ".polytunnel/cache"@,
{
    ".polytunnel/cache".to_owned()
}

/// The Java version of a project that names none.
pub fn default_java_version() -> (r: String)
    ensures
        r@ == "17"@,
{
    "17".to_owned()
}

impl BuildConfig {
    /// Whether this is the build configuration of a project that sets
    /// nothing: the default directories, no compiler arguments.
    pub open spec fn is_default(&self) -> bool {
        &&& crate::text::views(self.source_dirs@) == seq!["src/main/java"@]
        &&& crate::text::views(self.test_source_dirs@) == seq!["src/test/java"@]
        &&& self.output_dir@ == "target/classes"@
        &&& self.test_output_dir@ == "target/test-classes"@
        &&& self.compiler_args@.len() == 0
        &&& self.test_compiler_args@.len() == 0
        &&& self.test_framework@ == "auto"@
        &&& self.cache_dir@ == ".polytunnel/cache"@
    }
}

impl Default for BuildConfig {
    fn default() -> (r: Self)
        ensures
            r.is_default(),
    {
        BuildConfig {
            source_dirs: default_source_dirs(),
            test_source_dirs: default_test_source_dirs(),
            output_dir: default_output_dir(),
            test_output_dir: default_test_output_dir(),
            compiler_args: Vec::new(),
            test_compiler_args: Vec::new(),
            test_framework: default_test_framework(),
            cache_dir: default_cache_dir(),
        }
    }
}

impl ProjectConfig {
    /// The configuration of a new project: Java 17, the default build
    /// configuration, no dependencies, and the central repository.
    pub fn new(name: &str) -> (c: Self)
        ensures
            c.project.name@ == name@,
            c.project.java_version@ == "17"@,
            c.build.is_default(),
            c.dependencies@ == Map::<Seq<char>, Dependency>::empty(),
            c.repositories@.len() == 1,
            c.repositories@[0].name@ == "central"@,
            c.repositories@[0].url@ == "https://repo1.maven.org/maven2/"@,
    {
        let mut repositories: Vec<Repository> = Vec::new();
        repositories.push(
            Repository {
                name: "central".to_owned(),
                url: "https://repo1.maven.org/maven2/".to_owned(),
            },
        );
        ProjectConfig {
            project: ProjectInfo { name: name.to_owned(), java_version: default_java_version() },
            build: BuildConfig::default(),
            dependencies: StringMap::new(),
            repositories,
        }
    }
}

impl Dependency {
    /// The version, as plain text.
    pub open spec fn version_text(&self) -> Seq<char> {
        match *self {
            Dependency::Simple(v) => v@,
            Dependency::Detailed { version, .. } => version@,
        }
    }

    /// The scope: `Compile` where none is written.
    pub open spec fn scope_value(&self) -> DependencyScope {
        match *self {
            Dependency::Simple(_) => DependencyScope::Compile,
            Dependency::Detailed { scope, .. } => scope,
        }
    }

    /// The version.
    pub fn version(&self) -> (r: &str)
        ensures
            r@ == self.version_text(),
    {
        match self {
            Dependency::Simple(v) => v.as_str(),
            Dependency::Detailed { version, .. } => version.as_str(),
        }
    }

    /// The scope: `Compile` where none is written.
    pub fn scope(&self) -> (r: DependencyScope)
        ensures
            r == self.scope_value(),
    {
        match self {
            Dependency::Simple(_) => DependencyScope::Compile,
            Dependency::Detailed { scope, .. } => *scope,
        }
    }
}

impl Clone for Dependency {
    fn clone(&self) -> (r: Self)
        ensures
            r == *self,
    {
        match self {
            Dependency::Simple(v) => Dependency::Simple(v.clone()),
            Dependency::Detailed { version, scope, optional } => Dependency::Detailed {
                version: version.clone(),
                scope: *scope,
                optional: *optional,
            },
        }
    }
}

impl Clone for ProjectInfo {
    fn clone(&self) -> (r: Self)
        ensures
            r == *self,
    {
        ProjectInfo { name: self.name.clone(), java_version: self.java_version.clone() }
    }
}

impl Clone for Repository {
    fn clone(&self) -> (r: Self)
        ensures
            r == *self,
    {
        Repository { name: self.name.clone(), url: self.url.clone() }
    }
}


impl BuildConfig {
    /// Whether two build configurations say the same.
    pub open spec fn same_as(&self, other: &BuildConfig) -> bool {
        &&& crate::text::views(self.source_dirs@) == crate::text::views(other.source_dirs@)
        &&& crate::text::views(self.test_source_dirs@) == crate::text::views(
            other.test_source_dirs@,
        )
        &&& self.output_dir@ == other.output_dir@
        &&& self.test_output_dir@ == other.test_output_dir@
        &&& crate::text::views(self.compiler_args@) == crate::text::views(other.compiler_args@)
        &&& crate::text::views(self.test_compiler_args@) == crate::text::views(
            other.test_compiler_args@,
        )
        &&& self.test_framework@ == other.test_framework@
        &&& self.cache_dir@ == other.cache_dir@
    }
}

impl ProjectConfig {
    /// Whether two configurations say the same.
    pub open spec fn same_as(&self, other: &ProjectConfig) -> bool {
        &&& self.project == other.project
        &&& self.build.same_as(&other.build)
        &&& self.dependencies.keys() == other.dependencies.keys()
        &&& self.dependencies.values() == other.dependencies.values()
        &&& self.repositories@ == other.repositories@
    }
}

/// A copy of a list of strings.
pub fn copy_strings(v: &Vec<String>) -> (r: Vec<String>)
    ensures
        r@ == v@,
{
    let mut r: Vec<String> = Vec::new();
    let mut i: usize = 0;
    while i < v.len()
        invariant
            i <= v.len(),
            r@ == v@.take(i as int),
        decreases v.len() - i,
    {
        r.push(v[i].clone());
        proof {
            assert(v@.take(i + 1) == v@.take(i as int).push(v@[i as int]));
        }
        i += 1;
    }
    proof {
        assert(v@.take(v.len() as int) == v@);
    }
    r
}

impl Clone for BuildConfig {
    fn clone(&self) -> (r: Self)
        ensures
            r.same_as(self),
    {
        BuildConfig {
            source_dirs: copy_strings(&self.source_dirs),
            test_source_dirs: copy_strings(&self.test_source_dirs),
            output_dir: self.output_dir.clone(),
            test_output_dir: self.test_output_dir.clone(),
            compiler_args: copy_strings(&self.compiler_args),
            test_compiler_args: copy_strings(&self.test_compiler_args),
            test_framework: self.test_framework.clone(),
            cache_dir: self.cache_dir.clone(),
        }
    }
}

impl Clone for ProjectConfig {
    fn clone(&self) -> (r: Self)
        ensures
            r.same_as(self),
    {
        let mut repositories: Vec<Repository> = Vec::new();
        let mut i: usize = 0;
        while i < self.repositories.len()
            invariant
                i <= self.repositories.len(),
                repositories@ == self.repositories@.take(i as int),
            decreases self.repositories.len() - i,
        {
            repositories.push(self.repositories[i].clone());
            proof {
                assert(self.repositories@.take(i + 1) == self.repositories@.take(i as int).push(
                    self.repositories@[i as int],
                ));
            }
            i += 1;
        }
        proof {
            assert(self.repositories@.take(self.repositories.len() as int) == self.repositories@);
        }
        let dependencies = self.dependencies.clone();
        proof {
            assert(dependencies.values() =~= self.dependencies.values());
        }
        ProjectConfig {
            project: self.project.clone(),
            build: self.build.clone(),
            dependencies,
            repositories,
        }
    }
}

} // verus!
