//! The build as a whole: its options, its steps in order, and the class
//! paths that each step works with.

use crate::classpath::{ClasspathBuilder, ClasspathResult};
use crate::compiler::JavaCompiler;
use crate::config::ProjectConfig;
use crate::incremental::BuildCache;
use crate::test_runner::{TestResult, TestRunner};
use crate::text::views;
use vstd::prelude::*;

verus! {

/// What a build is asked to do.
#[derive(Debug, Clone, Copy, PartialEq, Eq, Structural)]
pub struct BuildOptions {
    /// Remove the outputs of earlier builds first.
    pub clean: bool,
    /// Neither compile nor run the tests.
    pub skip_tests: bool,
    /// Say what is being done.
    pub verbose: bool,
}

/// What a test run is asked to do.
#[derive(Debug)]
pub struct TestOptions {
    /// Run only the tests that match.
    pub pattern: Option<String>,
    /// Say what is being done.
    pub verbose: bool,
    /// Stop at the first failure.
    pub fail_fast: bool,
}

/// What a build gave.
#[derive(Debug)]
pub struct BuildResult {
    /// Number of source files that were compiled.
    pub compiled_files: usize,
    /// The outcome of the tests, if they were run.
    pub test_result: Option<TestResult>,
    /// How long the build took, in milliseconds.
    pub duration_millis: u128,
}

/// One step of a build.
#[derive(Debug, Clone, Copy, PartialEq, Eq, Structural)]
pub enum BuildStep {
    ResolveDependencies,
    Clean,
    CompileSources,
    CompileTests,
    RunTests,
}

/// Everything a build works with.
#[derive(Debug)]
pub struct BuildOrchestrator {
    pub config: ProjectConfig,
    pub classpath_builder: ClasspathBuilder,
    pub compiler: JavaCompiler,
    pub test_runner: Option<TestRunner>,
    pub incremental: BuildCache,
}

/// The steps of a build, in order: the dependencies are resolved, the
/// outputs are removed where a clean build is asked for, the sources are
/// compiled, and the tests are compiled and run unless they are skipped.
pub open spec fn build_steps(options: BuildOptions) -> Seq<BuildStep> {
    seq![BuildStep::ResolveDependencies] + (if options.clean {
        seq![BuildStep::Clean]
    } else {
        Seq::<BuildStep>::empty()
    }) + seq![BuildStep::CompileSources] + (if options.skip_tests {
        Seq::<BuildStep>::empty()
    } else {
        seq![BuildStep::CompileTests, BuildStep::RunTests]
    })
}

impl BuildOptions {
    /// The steps of a build with these options.
    pub fn steps(&self) -> (r: Vec<BuildStep>)
        ensures
            r@ == build_steps(*self),
    {
        let mut r: Vec<BuildStep> = Vec::new();
        r.push(BuildStep::ResolveDependencies);
        if self.clean {
            r.push(BuildStep::Clean);
        }
        r.push(BuildStep::CompileSources);
        if !self.skip_tests {
            r.push(BuildStep::CompileTests);
            r.push(BuildStep::RunTests);
        }
        proof {
            assert(r@ =~= build_steps(*self));
        }
        r
    }

    /// The options of the test run that is part of a build: every test,
    /// to the end.
    pub fn test_options(&self) -> (r: TestOptions)
        ensures
            r.pattern is None,
            r.verbose == self.verbose,
            !r.fail_fast,
    {
        TestOptions { pattern: None, verbose: self.verbose, fail_fast: false }
    }
}

impl BuildOrchestrator {
    /// An orchestrator for the project with the compiler and the cache
    /// that were found for it.
    pub fn assemble(config: ProjectConfig, compiler: JavaCompiler, incremental: BuildCache) -> (r:
        Self)
        ensures
            r.config == config,
            r.compiler == compiler,
            r.incremental == incremental,
            r.test_runner is None,
            r.classpath_builder.cached() is None,
            r.classpath_builder.config().same_as(&config),
    {
        let classpath_builder = ClasspathBuilder::new(config.clone());
        BuildOrchestrator { config, classpath_builder, compiler, test_runner: None, incremental }
    }

    /// The class paths that were resolved last.
    pub fn get_resolved_classpath(&self) -> (r: ClasspathResult)
        ensures
            match self.classpath_builder.cached() {
                Some(c) => r@ == c@,
                None => r.compile_classpath@.len() == 0 && r.test_classpath@.len() == 0
                    && r.runtime_classpath@.len() == 0,
            },
    {
        self.classpath_builder.get_cached_classpath()
    }

    /// The class path for compiling the tests: the test class path and the
    /// directory of the compiled sources.
    pub fn test_compile_classpath(&self) -> (r: Vec<String>)
        ensures
            views(r@) == (match self.classpath_builder.cached() {
                Some(c) => c@.test_classpath,
                None => Seq::<Seq<char>>::empty(),
            }).push(self.config.build.output_dir@),
    {
        let classpaths = self.classpath_builder.get_cached_classpath();
        let mut r = classpaths.test_classpath;
        proof {
            crate::text::lemma_views_push(r@, self.config.build.output_dir);
            if self.classpath_builder.cached() is None {
                assert(views(r@) =~= Seq::<Seq<char>>::empty());
            }
        }
        r.push(self.config.build.output_dir.clone());
        r
    }

    /// The class path for running the tests: the test class path, the
    /// directory of the compiled sources and that of the compiled tests.
    pub fn test_run_classpath(&self) -> (r: Vec<String>)
        ensures
            views(r@) == (match self.classpath_builder.cached() {
                Some(c) => c@.test_classpath,
                None => Seq::<Seq<char>>::empty(),
            }).push(self.config.build.output_dir@).push(self.config.build.test_output_dir@),
    {
        let mut r = self.test_compile_classpath();
        proof {
            crate::text::lemma_views_push(r@, self.config.build.test_output_dir);
        }
        r.push(self.config.build.test_output_dir.clone());
        r
    }
}


impl Clone for TestOptions {
    fn clone(&self) -> (r: Self)
        ensures
            r == *self,
    {
        TestOptions {
            pattern: crate::pom::clone_option(&self.pattern),
            verbose: self.verbose,
            fail_fast: self.fail_fast,
        }
    }
}

impl Clone for BuildResult {
    fn clone(&self) -> (r: Self)
        ensures
            r.compiled_files == self.compiled_files,
            r.duration_millis == self.duration_millis,
            match self.test_result {
                Some(t) => r.test_result matches Some(kept) && kept.total == t.total
                    && kept.passed == t.passed && kept.failed == t.failed && kept.skipped
                    == t.skipped && kept.failures@ == t.failures@,
                None => r.test_result is None,
            },
    {
        BuildResult {
            compiled_files: self.compiled_files,
            test_result: match &self.test_result {
                Some(t) => Some(t.clone()),
                None => None,
            },
            duration_millis: self.duration_millis,
        }
    }
}

} // verus!
