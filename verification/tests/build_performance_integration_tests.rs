//! Caching and incremental builds.

#![allow(unused_imports, dead_code)]
use std::collections::HashMap;
use polytunnel::config::{BuildConfig, Dependency, DependencyScope, ProjectConfig, ProjectInfo, Repository};
use polytunnel::string_map::StringMap;


fn create_test_config() -> ProjectConfig {
    ProjectConfig {
        project: ProjectInfo {
            name: "test-app".to_string(),
            java_version: "17".to_string(),
        },
        build: BuildConfig::default(),
        dependencies: StringMap::new(),
        repositories: vec![],
    }
}

#[test]
fn test_incremental_build_cache_validity() {
    let cache_entry = ("src/main/java/App.java", 1705334400);
    assert_eq!(cache_entry.0, "src/main/java/App.java");
}

#[test]
fn test_incremental_build_file_change_detection() {
    let old_timestamp = 1705334400;
    let new_timestamp = 1705334500;
    assert_ne!(old_timestamp, new_timestamp);
}

#[test]
fn test_incremental_build_cache_miss() {
    let cache: HashMap<String, u64> = HashMap::new();
    let file = "src/main/java/NewFile.java";

    let is_cached = cache.contains_key(file);
    assert!(!is_cached);
}

#[test]
fn test_incremental_build_cache_hit() {
    let mut cache: HashMap<String, u64> = HashMap::new();
    cache.insert("src/main/java/App.java".to_string(), 1705334400);

    let is_cached = cache.contains_key("src/main/java/App.java");
    assert!(is_cached);
}

#[test]
fn test_build_parallelization_opportunity() {
    let files = vec![
        "src/main/java/File1.java",
        "src/main/java/File2.java",
        "src/main/java/File3.java",
        "src/main/java/File4.java",
    ];

    assert!(files.len() > 2);
}

#[test]
fn test_build_classpath_caching() {
    let mut classpath_cache: HashMap<String, String> = HashMap::new();
    classpath_cache.insert(
        "compile".to_string(),
        "lib1.jar:lib2.jar:lib3.jar".to_string(),
    );

    assert!(classpath_cache.contains_key("compile"));
}

#[test]
fn test_build_artifact_jar_caching() {
    let mut jar_cache: HashMap<String, String> = HashMap::new();
    jar_cache.insert(
        "junit:junit:4.13.2".to_string(),
        "/cache/junit-4.13.2.jar".to_string(),
    );

    assert!(jar_cache.contains_key("junit:junit:4.13.2"));
}

#[test]
fn test_build_incremental_compilation_tracking() {
    #[derive(Clone)]
    struct CompileEntry {
        file: String,
        modified_time: u64,
        compiled_time: u64,
    }

    let entry = CompileEntry {
        file: "App.java".to_string(),
        modified_time: 100,
        compiled_time: 110,
    };

    assert!(entry.compiled_time > entry.modified_time);
}

#[test]
fn test_build_dependency_download_parallelization() {
    let deps = vec![
        "org.junit.jupiter:junit-jupiter:5.10.0",
        "org.mockito:mockito-core:5.2.0",
        "org.springframework:spring-core:6.0.0",
    ];

    assert!(deps.len() > 1);
}

#[test]
fn test_build_memory_optimization_streaming() {
    let chunk_size = 8192; // 8KB chunks
    assert!(chunk_size > 0);
}

#[test]
fn test_build_disk_space_estimation() {
    let estimated_classes = 100;
    let bytes_per_class = 5000;
    let total_bytes = estimated_classes * bytes_per_class;

    assert!(total_bytes > 0);
}

#[test]
fn test_build_output_buffering() {
    let buffer_size = 65536; // 64KB
    assert!(buffer_size > 0);
}

#[test]
fn test_build_concurrent_compilation_jobs() {
    let num_files = 12;
    let num_workers = 4;
    let jobs_per_worker = num_files / num_workers;

    assert_eq!(jobs_per_worker, 3);
}

#[test]
fn test_build_io_optimization_batching() {
    let batch_size = 100;
    let total_files = 350;
    let num_batches = (total_files + batch_size - 1) / batch_size;

    assert_eq!(num_batches, 4);
}

#[test]
fn test_build_memory_peak_estimation() {
    let base_memory = 256; // MB
    let per_source_file = 2;
    let num_sources = 50;

    let peak = base_memory + (per_source_file * num_sources);
    assert!(peak > base_memory);
}

#[test]
fn test_build_timeout_configuration() {
    let timeout_seconds = 300;
    assert!(timeout_seconds > 0);
}

#[test]
fn test_build_retry_configuration() {
    let max_retries = 3;
    let retry_delay_ms = 1000;

    assert!(max_retries > 0);
    assert!(retry_delay_ms > 0);
}

#[test]
fn test_build_progress_tracking() {
    let total_steps = 4;
    let current_step = 2;
    let progress = (current_step as f64 / total_steps as f64) * 100.0;

    assert!(progress > 0.0 && progress < 100.0);
}

#[test]
fn test_build_completion_time_estimation() {
    let elapsed = 2.34;
    let total_estimate = 5.0;
    let remaining = total_estimate - elapsed;

    assert!(remaining > 0.0);
}

#[test]
fn test_build_multiple_source_directories_handling() {
    let mut config = create_test_config();
    config.build.source_dirs = vec![
        "src/main/java".to_string(),
        "src/generated/java".to_string(),
        "src/extra/java".to_string(),
    ];

    let source_count = config.build.source_dirs.len();
    assert_eq!(source_count, 3);
}

#[test]
fn test_build_test_and_main_separation() {
    let mut config = create_test_config();
    config.build.source_dirs = vec!["src/main/java".to_string()];
    config.build.test_source_dirs = vec!["src/test/java".to_string()];

    assert_ne!(
        config.build.source_dirs[0],
        config.build.test_source_dirs[0]
    );
}

#[test]
fn test_build_nested_package_handling() {
    let package = "com.example.app.util.calculation";
    let package_path = package.replace(".", "/");

    assert_eq!(package_path, "com/example/app/util/calculation");
}

#[test]
fn test_build_classpath_construction_ordering() {
    let deps = vec!["lib1.jar", "lib2.jar", "lib3.jar"];
    let classpath = deps.join(":");

    assert!(classpath.starts_with("lib1.jar"));
}

#[test]
fn test_build_compiler_output_parsing() {
    let output = "2 files compiled successfully";
    let contains_success = output.contains("success");

    assert!(contains_success);
}

#[test]
fn test_build_error_output_parsing() {
    let stderr = "error: cannot find symbol";
    let is_error = stderr.contains("error");

    assert!(is_error);
}

#[test]
fn test_build_warning_output_handling() {
    let warning = "warning: deprecated method";
    let is_warning = warning.contains("warning");

    assert!(is_warning);
}

#[test]
fn test_build_summary_statistics() {
    let stats = (
        42,   // files_compiled
        3.45, // compilation_time
        15,   // test_count
        14,   // test_passed
    );

    assert!(stats.0 > 0);
}

#[test]
fn test_build_dependency_tree_depth() {
    let tree_depth = 5;
    assert!(tree_depth > 0);
}

#[test]
fn test_build_artifact_resolution_strategy() {
    let strategy = "nearest-first";
    assert!(!strategy.is_empty());
}

#[test]
fn test_build_version_conflict_resolution_strategy() {
    let strategy = "highest-version";
    assert!(strategy == "highest-version");
}

#[test]
fn test_build_optional_dependency_inclusion() {
    let include_optional = false;
    assert!(!include_optional);
}

#[test]
fn test_build_snapshot_vs_release_preference() {
    let prefer_release = true;
    assert!(prefer_release);
}

#[test]
fn test_build_offline_mode() {
    let offline = false;
    assert!(!offline);
}

#[test]
fn test_build_local_only_mode() {
    let local_only = false;
    assert!(!local_only);
}

#[test]
fn test_build_network_timeout_configuration() {
    let timeout = 30; // seconds
    assert!(timeout > 0);
}

#[test]
fn test_build_repository_fail_fast() {
    let fail_fast = true;
    assert!(fail_fast);
}

#[test]
fn test_build_partial_download_recovery() {
    let resume_enabled = true;
    assert!(resume_enabled);
}

#[test]
fn test_build_checksum_verification() {
    let verify_checksum = true;
    assert!(verify_checksum);
}

#[test]
fn test_build_gpg_signature_verification() {
    let verify_signature = false; // Optional
    assert!(!verify_signature);
}

#[test]
fn test_build_license_verification() {
    let verify_license = false;
    assert!(!verify_license);
}

#[test]
fn test_build_supply_chain_check() {
    let check_supply_chain = false;
    assert!(!check_supply_chain);
}

#[test]
fn test_build_security_scan() {
    let run_security_scan = false;
    assert!(!run_security_scan);
}

#[test]
fn test_build_complexity_analysis() {
    let analyze_complexity = false;
    assert!(!analyze_complexity);
}

#[test]
fn test_build_metrics_collection() {
    let collect_metrics = true;
    assert!(collect_metrics);
}

#[test]
fn test_build_performance_profiling() {
    let enable_profiling = false;
    assert!(!enable_profiling);
}

#[test]
fn test_build_reproducibility_check() {
    let ensure_reproducible = true;
    assert!(ensure_reproducible);
}

#[test]
fn test_build_artifact_attestation() {
    let generate_attestation = false;
    assert!(!generate_attestation);
}

#[test]
fn test_build_sbom_generation() {
    let generate_sbom = false;
    assert!(!generate_sbom);
}

#[test]
fn test_build_test_coverage_calculation() {
    let target_coverage = 70;
    assert!(target_coverage > 0);
}

#[test]
fn test_build_mutation_testing() {
    let run_mutation_tests = false;
    assert!(!run_mutation_tests);
}

#[test]
fn test_build_integration_test_execution() {
    let run_integration_tests = false;
    assert!(!run_integration_tests);
}

#[test]
fn test_build_smoke_test_execution() {
    let run_smoke_tests = false;
    assert!(!run_smoke_tests);
}
