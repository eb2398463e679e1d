//! Test frameworks: which one a class path holds, which classes are tests,
//! and how the JUnit console launcher is called.

use crate::classpath::{format_classpath_for, list_separator, main_separator};
use crate::config::copy_strings;
use crate::error::BuildError;
use crate::text::{
    contains, ends_with, joined, occurs_in, parse_usize, parsed_usize, remove_all, replace_char,
    replaced, split, split_on, starts_with, views, without, words, words_of,
};
use vstd::prelude::*;

verus! {

/// A test framework that can be detected.
#[derive(Debug, Clone, Copy, PartialEq, Eq, Structural)]
pub enum TestFramework {
    JUnit5,
    JUnit4,
    TestNG,
}

/// A failed test.
#[derive(Debug)]
pub struct TestFailure {
    pub class_name: String,
    pub test_name: String,
    pub message: String,
    pub stacktrace: String,
}

/// The outcome of a test run.
#[derive(Debug)]
pub struct TestResult {
    pub total: usize,
    pub passed: usize,
    pub failed: usize,
    pub skipped: usize,
    pub failures: Vec<TestFailure>,
}

/// Runs the tests of a project.
#[derive(Debug)]
pub struct TestRunner {
    pub framework: TestFramework,
    pub classpath: Vec<String>,
    pub test_output_dir: String,
}

/// Whether one of `paths` has `pat` in it.
pub open spec fn some_path_has(paths: Seq<Seq<char>>, pat: Seq<char>) -> bool {
    exists|i: int| 0 <= i < paths.len() && occurs_in(pat, #[trigger] paths[i])
}

/// The framework that a class path holds, JUnit 5 before JUnit 4 before
/// TestNG.
pub open spec fn detected_framework(paths: Seq<Seq<char>>) -> Option<TestFramework> {
    if some_path_has(paths, "junit-jupiter"@) || some_path_has(paths, "junit-platform"@) {
        Some(TestFramework::JUnit5)
    } else if some_path_has(paths, "junit-4"@) {
        Some(TestFramework::JUnit4)
    } else if some_path_has(paths, "testng"@) {
        Some(TestFramework::TestNG)
    } else {
        None
    }
}

/// Whether a class is a test by its name: it ends in `Test`, `Tests` or
/// `TestCase`, or begins with `Test`.
pub open spec fn is_test_class(name: Seq<char>) -> bool {
    "Test"@.is_suffix_of(name) || "Tests"@.is_suffix_of(name) || "TestCase"@.is_suffix_of(name)
        || "Test"@.is_prefix_of(name)
}

/// The position of the first of `paths` that has `pat` in it, or the number
/// of paths where none has.
pub open spec fn first_path_with(paths: Seq<Seq<char>>, pat: Seq<char>) -> int
    decreases paths.len(),
{
    if paths.len() == 0 {
        0
    } else if occurs_in(pat, paths[0]) {
        0
    } else {
        1 + first_path_with(paths.skip(1), pat)
    }
}

/// The name of the console launcher's jar.
pub open spec fn launcher_name() -> Seq<char> {
    "junit-platform-console-standalone"@
}

/// What is said where the class path has no console launcher.
pub open spec fn missing_launcher_message() -> Seq<char> {
    "JUnit Platform Console Standalone JAR not found in classpath. Please add 'org.junit.platform:junit-platform-console-standalone' dependency."@
}

/// The arguments after `-cp`: `-c` and a class, for each class.
pub open spec fn class_arguments(classes: Seq<Seq<char>>) -> Seq<Seq<char>>
    decreases classes.len(),
{
    if classes.len() == 0 {
        Seq::empty()
    } else {
        class_arguments(classes.drop_last()).push("-c"@).push(classes.last())
    }
}

/// The arguments with which `java` runs the console launcher.
pub open spec fn launcher_arguments(
    launcher: Seq<char>,
    classpath: Seq<char>,
    classes: Seq<Seq<char>>,
) -> Seq<Seq<char>> {
    seq!["-jar"@, launcher, "-cp"@, classpath] + class_arguments(classes)
}

/// A count, or zero where there is none.
pub open spec fn count_or_zero(count: Option<usize>) -> usize {
    match count {
        Some(n) => n,
        None => 0,
    }
}

/// The tests that ran: those that passed and those that failed, as far as
/// the machine's word reaches.
pub open spec fn ran_of(passed: usize, failed: usize) -> usize {
    if passed + failed <= usize::MAX {
        (passed + failed) as usize
    } else {
        usize::MAX
    }
}

/// The number of tests in all: what the run says it found, or else those
/// that ran.
pub open spec fn total_of(passed: usize, failed: usize, found: Option<usize>) -> usize {
    match found {
        Some(n) => n,
        None => ran_of(passed, failed),
    }
}

/// The number of tests that were skipped: those that did not run.
pub open spec fn skipped_of(passed: usize, failed: usize, found: Option<usize>) -> usize {
    let total = total_of(passed, failed, found);
    if total >= ran_of(passed, failed) {
        (total - ran_of(passed, failed)) as usize
    } else {
        0
    }
}

/// The first of `lines` that has `marker` in it.
pub open spec fn first_line_with(lines: Seq<Seq<char>>, marker: Seq<char>) -> Option<Seq<char>>
    decreases lines.len(),
{
    if lines.len() == 0 {
        None
    } else if occurs_in(marker, lines[0]) {
        Some(lines[0])
    } else {
        first_line_with(lines.skip(1), marker)
    }
}

/// The first of `words` that writes a number, as that number.
pub open spec fn first_number(words: Seq<Seq<char>>) -> Option<usize>
    decreases words.len(),
{
    if words.len() == 0 {
        None
    } else if parsed_usize(words[0]) is Some {
        parsed_usize(words[0])
    } else {
        first_number(words.skip(1))
    }
}

/// The count that a summary gives for `marker`: the first number on the
/// first line that has `marker` in it.
pub open spec fn summary_count(stdout: Seq<char>, marker: Seq<char>) -> Option<usize> {
    match first_line_with(split_on(stdout, '\n'), marker) {
        Some(line) => first_number(words_of(line)),
        None => None,
    }
}

/// The name of the class in a class file, from the file's path below the
/// output directory: the separators become dots, and `.class` goes.
pub open spec fn class_name(relative_path: Seq<char>, path_separator: char) -> Seq<char> {
    without(replaced(relative_path, path_separator, '.'), ".class"@)
}

/// The names of those classes that are tests by their name, in the order
/// of their files.
pub open spec fn test_classes(files: Seq<Seq<char>>, path_separator: char) -> Seq<Seq<char>>
    decreases files.len(),
{
    if files.len() == 0 {
        Seq::empty()
    } else {
        let before = test_classes(files.drop_last(), path_separator);
        let name = class_name(files.last(), path_separator);
        if is_test_class(name) {
            before.push(name)
        } else {
            before
        }
    }
}

/// The first number among `words`.
pub fn find_number(words: &Vec<String>) -> (r: Option<usize>)
    ensures
        r == first_number(views(words@)),
{
    let ghost all = views(words@);
    let mut i: usize = 0;
    proof {
        assert(all.skip(0) == all);
    }
    while i < words.len()
        invariant
            i <= words.len(),
            all == views(words@),
            first_number(all.skip(i as int)) == first_number(all),
        decreases words.len() - i,
    {
        proof {
            assert(all.skip(i as int)[0] == words@[i as int]@);
            assert(all.skip(i as int).skip(1) == all.skip(i + 1));
        }
        match parse_usize(words[i].as_str()) {
            Some(n) => {
                return Some(n);
            },
            None => {},
        }
        i += 1;
    }
    None
}

/// The count that the summary in `stdout` gives for `marker`.
pub fn count_in_summary(stdout: &str, marker: &str) -> (r: Option<usize>)
    ensures
        r == summary_count(stdout@, marker@),
{
    let lines = split(stdout, '\n');
    let ghost all = views(lines@);
    let mut i: usize = 0;
    proof {
        assert(all.skip(0) == all);
    }
    while i < lines.len()
        invariant
            i <= lines.len(),
            all == views(lines@),
            all == split_on(stdout@, '\n'),
            first_line_with(all.skip(i as int), marker@) == first_line_with(all, marker@),
        decreases lines.len() - i,
    {
        proof {
            assert(all.skip(i as int)[0] == lines@[i as int]@);
            assert(all.skip(i as int).skip(1) == all.skip(i + 1));
        }
        if contains(lines[i].as_str(), marker) {
            let w = words(lines[i].as_str());
            return find_number(&w);
        }
        i += 1;
    }
    None
}

/// The name of the class in the class file at `relative_path` below the
/// output directory, on a machine whose paths are separated by
/// `path_separator`.
pub fn class_name_of(relative_path: &str, path_separator: char) -> (r: String)
    ensures
        r@ == class_name(relative_path@, path_separator),
{
    let dotted = replace_char(relative_path, path_separator, '.');
    remove_all(dotted.as_str(), ".class")
}

/// Whether one of `paths` has `pat` in it.
pub fn any_path_contains(paths: &Vec<String>, pat: &str) -> (b: bool)
    ensures
        b == some_path_has(views(paths@), pat@),
        first_path_with(views(paths@), pat@) <= paths.len(),
{
    let mut i: usize = 0;
    while i < paths.len()
        invariant
            i <= paths.len(),
            forall|j: int| 0 <= j < i ==> !occurs_in(pat@, #[trigger] views(paths@)[j]),
        decreases paths.len() - i,
    {
        if contains(paths[i].as_str(), pat) {
            proof {
                assert(occurs_in(pat@, views(paths@)[i as int]));
                lemma_first_path_with(views(paths@), pat@, i as int);
            }
            return true;
        }
        i += 1;
    }
    proof {
        lemma_first_path_with(views(paths@), pat@, paths.len() as int);
    }
    false
}

/// Where the paths before `j` do not have `pat` and the path at `j` has it,
/// or there is no path at `j`, the first path with `pat` is at `j`.
pub proof fn lemma_first_path_with(paths: Seq<Seq<char>>, pat: Seq<char>, j: int)
    requires
        0 <= j <= paths.len(),
        forall|k: int| 0 <= k < j ==> !occurs_in(pat, #[trigger] paths[k]),
        j < paths.len() ==> occurs_in(pat, paths[j]),
    ensures
        first_path_with(paths, pat) == j,
    decreases j,
{
    if j > 0 {
        assert(!occurs_in(pat, paths[0]));
        assert forall|k: int| 0 <= k < j - 1 implies !occurs_in(pat, #[trigger] paths.skip(1)[k]) by {
            assert(paths.skip(1)[k] == paths[k + 1]);
        }
        if j < paths.len() {
            assert(paths.skip(1)[j - 1] == paths[j]);
        }
        lemma_first_path_with(paths.skip(1), pat, j - 1);
    }
}

impl TestFramework {
    /// The framework's name as it is shown.
    pub fn name(&self) -> (r: &'static str)
        ensures
            r@ == (match *self {
                TestFramework::JUnit5 => "JUnit 5"@,
                TestFramework::JUnit4 => "JUnit 4"@,
                TestFramework::TestNG => "TestNG"@,
            }),
    {
        match self {
            TestFramework::JUnit5 => "JUnit 5",
            TestFramework::JUnit4 => "JUnit 4",
            TestFramework::TestNG => "TestNG",
        }
    }
}

impl TestResult {
    /// The outcome of a run in which no test was found.
    pub fn empty() -> (r: Self)
        ensures
            r.total == 0,
            r.passed == 0,
            r.failed == 0,
            r.skipped == 0,
            r.failures@.len() == 0,
    {
        TestResult { total: 0, passed: 0, failed: 0, skipped: 0, failures: Vec::new() }
    }

    /// The outcome for the counts that a run reported. Where the run did
    /// not say how many tests it found, they are those that passed or
    /// failed; what neither passed nor failed was skipped.
    pub fn from_counts(passed: usize, failed: usize, found: Option<usize>) -> (r: Self)
        ensures
            r.passed == passed,
            r.failed == failed,
            r.total == total_of(passed, failed, found),
            r.skipped == skipped_of(passed, failed, found),
            r.failures@.len() == 0,
    {
        let ran = if passed <= usize::MAX - failed {
            passed + failed
        } else {
            usize::MAX
        };
        let total = match found {
            Some(n) => n,
            None => ran,
        };
        let skipped = if total >= ran {
            total - ran
        } else {
            0
        };
        TestResult { total, passed, failed, skipped, failures: Vec::new() }
    }

    /// The outcome that the console launcher's summary reports.
    pub fn from_summary(stdout: &str) -> (r: Self)
        ensures
            r.passed == count_or_zero(summary_count(stdout@, "tests successful"@)),
            r.failed == count_or_zero(summary_count(stdout@, "tests failed"@)),
            r.total == total_of(r.passed, r.failed, summary_count(stdout@, "tests found"@)),
            r.skipped == skipped_of(r.passed, r.failed, summary_count(stdout@, "tests found"@)),
            r.failures@.len() == 0,
    {
        let passed = match count_in_summary(stdout, "tests successful") {
            Some(n) => n,
            None => 0,
        };
        let failed = match count_in_summary(stdout, "tests failed") {
            Some(n) => n,
            None => 0,
        };
        let found = count_in_summary(stdout, "tests found");
        TestResult::from_counts(passed, failed, found)
    }
}

impl TestRunner {
    /// A runner for `framework` with the given class path and directory of
    /// compiled tests.
    pub fn new(framework: TestFramework, classpath: Vec<String>, test_output_dir: String) -> (r:
        Self)
        ensures
            r.framework == framework,
            r.classpath == classpath,
            r.test_output_dir == test_output_dir,
    {
        TestRunner { framework, classpath, test_output_dir }
    }

    /// The framework that the class path holds, going by the names of its
    /// jars.
    pub fn detect_framework(classpath: &Vec<String>) -> (r: Option<TestFramework>)
        ensures
            r == detected_framework(views(classpath@)),
    {
        let has_junit5 = any_path_contains(classpath, "junit-jupiter") || any_path_contains(
            classpath,
            "junit-platform",
        );
        let has_junit4 = any_path_contains(classpath, "junit-4");
        let has_testng = any_path_contains(classpath, "testng");
        if has_junit5 {
            Some(TestFramework::JUnit5)
        } else if has_junit4 {
            Some(TestFramework::JUnit4)
        } else if has_testng {
            Some(TestFramework::TestNG)
        } else {
            None
        }
    }

    /// Whether a class is a test by its name.
    pub fn matches_test_pattern(&self, class_name: &str) -> (b: bool)
        ensures
            b == is_test_class(class_name@),
    {
        ends_with(class_name, "Test") || ends_with(class_name, "Tests") || ends_with(
            class_name,
            "TestCase",
        ) || starts_with(class_name, "Test")
    }

    /// The test classes among the class files at `files`, which are paths
    /// below the directory of compiled tests.
    pub fn select_test_classes(&self, files: &Vec<String>, path_separator: char) -> (r: Vec<String>)
        ensures
            views(r@) == test_classes(views(files@), path_separator),
    {
        let ghost all = views(files@);
        let mut r: Vec<String> = Vec::new();
        let mut i: usize = 0;
        proof {
            assert(views(r@) =~= test_classes(all.take(0), path_separator));
        }
        while i < files.len()
            invariant
                i <= files.len(),
                all == views(files@),
                views(r@) == test_classes(all.take(i as int), path_separator),
            decreases files.len() - i,
        {
            proof {
                assert(all.take(i + 1).drop_last() == all.take(i as int));
                assert(all.take(i + 1).last() == files@[i as int]@);
            }
            let name = class_name_of(files[i].as_str(), path_separator);
            if self.matches_test_pattern(name.as_str()) {
                proof {
                    crate::text::lemma_views_push(r@, name);
                }
                r.push(name);
            }
            i += 1;
        }
        proof {
            assert(all.take(files.len() as int) == all);
        }
        r
    }

    /// The class path and the directory of compiled tests as one list for a
    /// machine whose paths are separated by `path_separator`.
    pub fn format_classpath_for(&self, path_separator: char) -> (r: String)
        ensures
            r@ == joined(
                views(self.classpath@).push(self.test_output_dir@),
                list_separator(path_separator),
            ),
    {
        let mut paths = copy_strings(&self.classpath);
        proof {
            crate::text::lemma_views_push(paths@, self.test_output_dir);
        }
        paths.push(self.test_output_dir.clone());
        format_classpath_for(&paths, path_separator)
    }

    /// The class path and the directory of compiled tests as one list,
    /// separated as this machine separates them.
    pub fn format_classpath(&self) -> (r: String)
        ensures
            r@ == joined(views(self.classpath@).push(self.test_output_dir@), seq![';']) || r@
                == joined(views(self.classpath@).push(self.test_output_dir@), seq![':']),
    {
        self.format_classpath_for(main_separator())
    }

    /// The jar of the console launcher: the first path of the class path
    /// that has the launcher's name in it. Without one the tests cannot be
    /// run.
    pub fn find_junit_console_launcher(&self) -> (r: Result<String, BuildError>)
        ensures
            match r {
                Ok(path) => {
                    let i = first_path_with(views(self.classpath@), launcher_name());
                    0 <= i < self.classpath.len() && path@ == self.classpath@[i]@
                },
                Err(e) => !some_path_has(views(self.classpath@), launcher_name()) && e
                    is TestExecutionFailed && e->TestExecutionFailed_message@
                    == missing_launcher_message(),
            },
    {
        let mut i: usize = 0;
        while i < self.classpath.len()
            invariant
                i <= self.classpath.len(),
                forall|j: int|
                    0 <= j < i ==> !occurs_in(launcher_name(), #[trigger] views(self.classpath@)[j]),
            decreases self.classpath.len() - i,
        {
            if contains(self.classpath[i].as_str(), "junit-platform-console-standalone") {
                proof {
                    lemma_first_path_with(views(self.classpath@), launcher_name(), i as int);
                }
                return Ok(self.classpath[i].clone());
            }
            i += 1;
        }
        Err(
            BuildError::TestExecutionFailed {
                message: "JUnit Platform Console Standalone JAR not found in classpath. Please add 'org.junit.platform:junit-platform-console-standalone' dependency.".to_owned(),
            },
        )
    }

    /// The arguments with which `java` runs the console launcher on the
    /// given classes.
    pub fn launcher_arguments(launcher: &str, classpath: &str, classes: &Vec<String>) -> (r: Vec<
        String,
    >)
        ensures
            views(r@) == launcher_arguments(launcher@, classpath@, views(classes@)),
    {
        let mut r: Vec<String> = Vec::new();
        r.push("-jar".to_owned());
        r.push(launcher.to_owned());
        r.push("-cp".to_owned());
        r.push(classpath.to_owned());
        proof {
            assert(views(r@) =~= seq!["-jar"@, launcher@, "-cp"@, classpath@]);
            assert(views(classes@).take(0) =~= Seq::<Seq<char>>::empty());
            assert(views(r@) =~= seq!["-jar"@, launcher@, "-cp"@, classpath@] + class_arguments(
                views(classes@).take(0),
            ));
        }
        let mut i: usize = 0;
        while i < classes.len()
            invariant
                i <= classes.len(),
                views(r@) == seq!["-jar"@, launcher@, "-cp"@, classpath@] + class_arguments(
                    views(classes@).take(i as int),
                ),
            decreases classes.len() - i,
        {
            let ghost before = views(r@);
            r.push("-c".to_owned());
            r.push(classes[i].clone());
            proof {
                let all = views(classes@);
                assert(all.take(i + 1).drop_last() == all.take(i as int));
                assert(all.take(i + 1).last() == classes@[i as int]@);
                assert(views(r@) =~= before.push("-c"@).push(classes@[i as int]@));
            }
            i += 1;
        }
        proof {
            assert(views(classes@).take(classes.len() as int) == views(classes@));
        }
        r
    }
}


impl Clone for TestFailure {
    fn clone(&self) -> (r: Self)
        ensures
            r == *self,
    {
        TestFailure {
            class_name: self.class_name.clone(),
            test_name: self.test_name.clone(),
            message: self.message.clone(),
            stacktrace: self.stacktrace.clone(),
        }
    }
}

impl Clone for TestResult {
    fn clone(&self) -> (r: Self)
        ensures
            r.total == self.total,
            r.passed == self.passed,
            r.failed == self.failed,
            r.skipped == self.skipped,
            r.failures@ == self.failures@,
    {
        let mut failures: Vec<TestFailure> = Vec::new();
        let mut i: usize = 0;
        while i < self.failures.len()
            invariant
                i <= self.failures.len(),
                failures@ == self.failures@.take(i as int),
            decreases self.failures.len() - i,
        {
            failures.push(self.failures[i].clone());
            proof {
                assert(self.failures@.take(i + 1) == self.failures@.take(i as int).push(
                    self.failures@[i as int],
                ));
            }
            i += 1;
        }
        proof {
            assert(self.failures@.take(self.failures.len() as int) == self.failures@);
        }
        TestResult {
            total: self.total,
            passed: self.passed,
            failed: self.failed,
            skipped: self.skipped,
            failures,
        }
    }
}

impl Clone for TestRunner {
    fn clone(&self) -> (r: Self)
        ensures
            r.framework == self.framework,
            r.classpath@ == self.classpath@,
            r.test_output_dir == self.test_output_dir,
    {
        TestRunner {
            framework: self.framework,
            classpath: copy_strings(&self.classpath),
            test_output_dir: self.test_output_dir.clone(),
        }
    }
}

} // verus!
