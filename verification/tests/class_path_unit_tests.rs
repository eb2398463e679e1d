//! Class path formatting, configuration keys and test detection.

use polytunnel::classpath::{classpath_separator, format_classpath_for, ClasspathBuilder, ClasspathResult};
use polytunnel::compiler::JavaCompiler;
use polytunnel::error::BuildError;
use polytunnel::test_runner::{TestFramework, TestRunner};

#[test]
fn test_parse_coordinate() {
    let coord = ClasspathBuilder::parse_coordinate("org.slf4j:slf4j-api:2.0.9");
    assert!(coord.is_ok());

    let bad = ClasspathBuilder::parse_coordinate("invalid");
    assert!(bad.is_err());
}

#[test]
fn classpath_test_format_classpath() {
    let paths = vec![
        "/path/to/lib1.jar".to_string(),
        "/path/to/lib2.jar".to_string(),
    ];
    let result = ClasspathBuilder::format_classpath(&paths);
    assert!(result.contains("lib1.jar"));
    assert!(result.contains("lib2.jar"));
}

#[test]
fn compiler_test_format_classpath() {
    let paths = vec![
        "/usr/lib/lib1.jar".to_string(),
        "/usr/lib/lib2.jar".to_string(),
    ];
    let result = JavaCompiler::format_classpath(&paths);
    assert!(result.contains("lib1.jar"));
    assert!(result.contains("lib2.jar"));
    if std::path::MAIN_SEPARATOR == '\\' {
        assert!(result.contains(";"));
    } else {
        assert!(result.contains(":"));
    }
}

#[test]
fn test_detect_framework_junit5() {
    let classpath = vec!["/lib/junit-jupiter-api-5.10.0.jar".to_string()];
    let framework = TestRunner::detect_framework(&classpath);
    assert_eq!(framework, Some(TestFramework::JUnit5));
}

#[test]
fn test_detect_framework_junit4() {
    let classpath = vec!["/lib/junit-4.13.2.jar".to_string()];
    let framework = TestRunner::detect_framework(&classpath);
    assert_eq!(framework, Some(TestFramework::JUnit4));
}

#[test]
fn test_detect_framework_testng() {
    let classpath = vec!["/lib/testng-7.8.0.jar".to_string()];
    let framework = TestRunner::detect_framework(&classpath);
    assert_eq!(framework, Some(TestFramework::TestNG));
}

#[test]
fn test_detect_framework_priority() {
    let classpath = vec![
        "/lib/junit-jupiter-api-5.10.0.jar".to_string(),
        "/lib/junit-4.13.2.jar".to_string(),
    ];
    let framework = TestRunner::detect_framework(&classpath);
    assert_eq!(framework, Some(TestFramework::JUnit5));
}

#[test]
fn test_matches_test_pattern() {
    let runner = TestRunner::new(
        TestFramework::JUnit5,
        vec![],
        "target/test-classes".to_string(),
    );

    assert!(runner.matches_test_pattern("AppTest"));
    assert!(runner.matches_test_pattern("AppTests"));
    assert!(runner.matches_test_pattern("AppTestCase"));
    assert!(runner.matches_test_pattern("TestApp"));
    assert!(!runner.matches_test_pattern("App"));
}

#[test]
fn parse_coordinate_reads_group_artifact_and_version() {
    let c = ClasspathBuilder::parse_coordinate("org.slf4j:slf4j-api:2.0.9").unwrap();
    assert_eq!(c.group_id, "org.slf4j");
    assert_eq!(c.artifact_id, "slf4j-api");
    assert_eq!(c.version, "2.0.9");
    assert_eq!(c.packaging, "jar");
}

#[test]
fn parse_coordinate_without_version_is_latest() {
    let c = ClasspathBuilder::parse_coordinate("org.slf4j:slf4j-api").unwrap();
    assert_eq!(c.version, "LATEST");
}

#[test]
fn parse_coordinate_ignores_segments_after_the_third() {
    let c = ClasspathBuilder::parse_coordinate("g:a:1:extra:more").unwrap();
    assert_eq!(c.group_id, "g");
    assert_eq!(c.artifact_id, "a");
    assert_eq!(c.version, "1");
}

#[test]
fn parse_coordinate_error_keeps_the_key() {
    match ClasspathBuilder::parse_coordinate("invalid") {
        Err(BuildError::InvalidDependency { input }) => assert_eq!(input, "invalid"),
        other => panic!("unexpected: {other:?}"),
    }
}

#[test]
fn format_classpath_for_each_kind_of_machine() {
    let paths = vec!["a.jar".to_string(), "b.jar".to_string(), "c.jar".to_string()];
    assert_eq!(format_classpath_for(&paths, '/'), "a.jar:b.jar:c.jar");
    assert_eq!(format_classpath_for(&paths, '\\'), "a.jar;b.jar;c.jar");
    assert_eq!(format_classpath_for(&vec![], '/'), "");
    assert_eq!(format_classpath_for(&vec!["only.jar".to_string()], '/'), "only.jar");
    assert_eq!(classpath_separator('/'), ":");
    assert_eq!(classpath_separator('\\'), ";");
}

#[test]
fn detect_framework_finds_nothing_on_other_class_paths() {
    assert_eq!(TestRunner::detect_framework(&vec![]), None);
    assert_eq!(
        TestRunner::detect_framework(&vec!["/lib/guava.jar".to_string()]),
        None
    );
    assert_eq!(
        TestRunner::detect_framework(&vec!["/lib/junit-platform-launcher.jar".to_string()]),
        Some(TestFramework::JUnit5)
    );
    assert_eq!(
        TestRunner::detect_framework(&vec![
            "/lib/testng-7.jar".to_string(),
            "/lib/junit-4.13.jar".to_string()
        ]),
        Some(TestFramework::JUnit4)
    );
}

#[test]
fn framework_names() {
    assert_eq!(TestFramework::JUnit5.name(), "JUnit 5");
    assert_eq!(TestFramework::JUnit4.name(), "JUnit 4");
    assert_eq!(TestFramework::TestNG.name(), "TestNG");
}

#[test]
fn runner_formats_class_path_with_test_output_last() {
    let runner = TestRunner::new(
        TestFramework::JUnit5,
        vec!["a.jar".to_string(), "b.jar".to_string()],
        "target/test-classes".to_string(),
    );
    assert_eq!(runner.format_classpath_for('/'), "a.jar:b.jar:target/test-classes");
    assert_eq!(runner.format_classpath_for('\\'), "a.jar;b.jar;target/test-classes");
    let here = runner.format_classpath();
    assert!(here == "a.jar:b.jar:target/test-classes" || here == "a.jar;b.jar;target/test-classes");
}

#[test]
fn launcher_is_the_first_matching_jar() {
    let runner = TestRunner::new(
        TestFramework::JUnit5,
        vec![
            "/lib/other.jar".to_string(),
            "/lib/junit-platform-console-standalone-1.10.0.jar".to_string(),
            "/lib/junit-platform-console-standalone-1.9.0.jar".to_string(),
        ],
        "out".to_string(),
    );
    assert_eq!(
        runner.find_junit_console_launcher().unwrap(),
        "/lib/junit-platform-console-standalone-1.10.0.jar"
    );
    let none = TestRunner::new(TestFramework::JUnit5, vec!["/lib/other.jar".to_string()], "out".to_string());
    match none.find_junit_console_launcher() {
        Err(BuildError::TestExecutionFailed { message }) => {
            assert!(message.contains("junit-platform-console-standalone"))
        }
        other => panic!("unexpected: {other:?}"),
    }
}

#[test]
fn launcher_arguments_name_every_class() {
    let args = TestRunner::launcher_arguments(
        "launcher.jar",
        "a.jar:out",
        &vec!["com.AppTest".to_string(), "com.LibTest".to_string()],
    );
    assert_eq!(
        args,
        vec!["-jar", "launcher.jar", "-cp", "a.jar:out", "-c", "com.AppTest", "-c", "com.LibTest"]
    );
}

#[test]
fn test_build_platform_specific_separator() {
    let sep = if std::path::MAIN_SEPARATOR == '\\' { ";" } else { ":" };

    assert!(!sep.is_empty());
    assert_eq!(classpath_separator(std::path::MAIN_SEPARATOR), sep);
}

#[test]
fn test_classpath_result_debug() {
    let result = ClasspathResult {
        compile_classpath: vec!["/path/to/lib.jar".to_string()],
        test_classpath: vec!["/path/to/test-lib.jar".to_string()],
        runtime_classpath: vec![],
    };

    let debug_str = format!("{:?}", result);
    assert!(debug_str.contains("compile_classpath"));
    assert!(debug_str.contains("test_classpath"));
}

#[test]
fn test_classpath_result_clone() {
    let result = ClasspathResult {
        compile_classpath: vec!["/path/to/lib.jar".to_string()],
        test_classpath: vec![],
        runtime_classpath: vec![],
    };

    let cloned = result.clone();
    assert_eq!(cloned.compile_classpath.len(), 1);
}
