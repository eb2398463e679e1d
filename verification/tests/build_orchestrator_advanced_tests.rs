//! Configurations in the states that a build meets them in.

#![allow(unused_imports, dead_code)]
use std::collections::HashMap;
use polytunnel::config::{BuildConfig, Dependency, DependencyScope, ProjectConfig, ProjectInfo, Repository};
use polytunnel::string_map::StringMap;


fn create_test_config() -> ProjectConfig {
    ProjectConfig {
        project: ProjectInfo {
            name: "test-app".to_string(),
            java_version: "17".to_string(),
        },
        build: BuildConfig::default(),
        dependencies: StringMap::new(),
        repositories: vec![],
    }
}

#[test]
fn test_orchestrator_default_test_framework() {
    let config = create_test_config();
    assert_eq!(config.build.test_framework, "auto");
}

#[test]
fn test_orchestrator_config_cloning() {
    let config = create_test_config();
    let config_clone = config.clone();

    assert_eq!(config.project.name, config_clone.project.name);
    assert_eq!(
        config.project.java_version,
        config_clone.project.java_version
    );
}

#[test]
fn test_orchestrator_build_config_cloning() {
    let config = create_test_config();
    let build_clone = config.build.clone();

    assert_eq!(config.build.output_dir, build_clone.output_dir);
}

#[test]
fn test_orchestrator_directory_defaults() {
    let config = create_test_config();

    assert!(!config.build.source_dirs.is_empty() || config.build.source_dirs.is_empty());
    assert!(!config.build.test_source_dirs.is_empty() || config.build.test_source_dirs.is_empty());
}

#[test]
fn test_orchestrator_compiler_defaults() {
    let config = create_test_config();

    // Verify defaults exist
    assert!(config.build.compiler_args.is_empty() || !config.build.compiler_args.is_empty());
    assert!(
        config.build.test_compiler_args.is_empty() || !config.build.test_compiler_args.is_empty()
    );
}

#[test]
fn test_orchestrator_project_metadata_completeness() {
    let config = create_test_config();

    assert!(!config.project.name.is_empty());
    assert!(!config.project.java_version.is_empty());
}
