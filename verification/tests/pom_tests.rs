//! The manifest parser and the manifest's inheritance helpers.

use polytunnel::error::MavenError;
use polytunnel::pom::{resolve_single_pass, resolve_value, DependencyScope, Pom, PomDependency};
use polytunnel::pom_parser::{parse_pom, pom_from_tokens};
use polytunnel::string_map::StringMap;
use polytunnel::xml::{read_tokens, XmlToken};

#[test]
fn test_parse_simple_pom() {
    let xml = r#"
    <project>
        <groupId>org.example</groupId>
        <artifactId>my-lib</artifactId>
        <version>1.0.0</version>
        <dependencies>
            <dependency>
                <groupId>org.slf4j</groupId>
                <artifactId>slf4j-api</artifactId>
                <version>2.0.9</version>
            </dependency>
        </dependencies>
    </project>
    "#;

    let pom = parse_pom(xml).unwrap();
    assert_eq!(pom.coordinate.group_id, "org.example");
    assert_eq!(pom.coordinate.artifact_id, "my-lib");
    assert_eq!(pom.coordinate.version, "1.0.0");
    assert_eq!(pom.dependencies.len(), 1);
    assert_eq!(pom.dependencies[0].group_id, "org.slf4j");
    assert_eq!(pom.dependencies[0].artifact_id, "slf4j-api");
}

#[test]
fn test_parse_pom_with_parent() {
    let xml = r#"
    <project>
        <parent>
            <groupId>org.springframework.boot</groupId>
            <artifactId>spring-boot-starter-parent</artifactId>
            <version>3.2.0</version>
        </parent>
        <artifactId>my-app</artifactId>
    </project>
    "#;

    let pom = parse_pom(xml).unwrap();
    assert!(pom.parent.is_some());
    let parent = pom.parent.unwrap();
    assert_eq!(parent.group_id, "org.springframework.boot");
}

#[test]
fn test_parse_pom_with_scope() {
    let xml = r#"
    <project>
        <groupId>org.example</groupId>
        <artifactId>my-lib</artifactId>
        <version>1.0.0</version>
        <dependencies>
            <dependency>
                <groupId>org.junit</groupId>
                <artifactId>junit</artifactId>
                <version>5.0.0</version>
                <scope>test</scope>
            </dependency>
        </dependencies>
    </project>
    "#;

    let pom = parse_pom(xml).unwrap();
    assert_eq!(pom.dependencies[0].scope, DependencyScope::Test);
}

#[test]
fn test_parse_pom_with_optional() {
    let xml = r#"
    <project>
        <groupId>org.example</groupId>
        <artifactId>my-lib</artifactId>
        <version>1.0.0</version>
        <dependencies>
            <dependency>
                <groupId>org.optional</groupId>
                <artifactId>optional-lib</artifactId>
                <version>1.0.0</version>
                <optional>true</optional>
            </dependency>
        </dependencies>
    </project>
    "#;

    let pom = parse_pom(xml).unwrap();
    assert!(pom.dependencies[0].optional);
}

#[test]
fn test_parse_html_like_response() {
    let xml = "<!DOCTYPE html><html><body>error</body></html>";

    let result = parse_pom(xml);
    assert!(result.is_err());
}

#[test]
fn test_parse_pom_with_properties_and_scopes() {
    let xml = r#"
    <project>
        <modelVersion>4.0.0</modelVersion>
        <groupId>com.example</groupId>
        <artifactId>service</artifactId>
        <version>1.0.0</version>
        <packaging>jar</packaging>
        <properties>
            <managed.version>2.0.0</managed.version>
            <runtime.version>${managed.version}</runtime.version>
        </properties>
        <dependencyManagement>
            <dependencies>
                <dependency>
                    <groupId>com.example</groupId>
                    <artifactId>managed-dep</artifactId>
                    <version>${managed.version}</version>
                </dependency>
            </dependencies>
        </dependencyManagement>
        <dependencies>
            <dependency>
                <groupId>org.system</groupId>
                <artifactId>system-lib</artifactId>
                <version>1.0.0</version>
                <scope>system</scope>
            </dependency>
            <dependency>
                <groupId>org.import</groupId>
                <artifactId>import-lib</artifactId>
                <version>1.0.0</version>
                <scope>import</scope>
            </dependency>
            <dependency>
                <groupId>${missing.group}</groupId>
                <artifactId>${missing.artifact}</artifactId>
                <version>${managed.version}</version>
                <scope>runtime</scope>
            </dependency>
            <dependency>
                <groupId>com.example</groupId>
                <artifactId>managed-dep</artifactId>
            </dependency>
            <dependency>
                <groupId>com.example</groupId>
                <artifactId>runtime-dep</artifactId>
                <version>${runtime.version}</version>
                <scope>provided</scope>
            </dependency>
            <dependency>
                <groupId>org.unknown</groupId>
                <artifactId>default-scoped</artifactId>
                <version>1.0.0</version>
                <scope>does-not-exist</scope>
            </dependency>
        </dependencies>
    </project>
    "#;

    let pom = parse_pom(xml).unwrap();

    assert_eq!(pom.coordinate.version, "1.0.0");
    assert_eq!(pom.properties.get("project.version").unwrap(), "1.0.0");
    assert_eq!(pom.dependencies.len(), 6);

    let scopes: Vec<_> = pom
        .dependencies
        .iter()
        .map(|dep| dep.scope.clone())
        .collect();

    assert!(scopes.contains(&DependencyScope::System));
    assert!(scopes.contains(&DependencyScope::Import));
    assert!(scopes.contains(&DependencyScope::Runtime));
    assert!(scopes.contains(&DependencyScope::Provided));
    assert!(scopes.contains(&DependencyScope::Compile));

    let managed_dep = pom
        .dependencies
        .iter()
        .find(|dep| dep.group_id == "com.example" && dep.artifact_id == "managed-dep")
        .expect("managed dependency should be present");
    assert_eq!(managed_dep.version, None);

    let managed_dm = pom
        .dependency_management
        .iter()
        .find(|dep| dep.group_id == "com.example" && dep.artifact_id == "managed-dep")
        .expect("managed dependency entry should be present");
    assert_eq!(managed_dm.version.as_deref(), Some("2.0.0"));

    let runtime_dep = pom
        .dependencies
        .iter()
        .find(|dep| dep.group_id == "com.example" && dep.artifact_id == "runtime-dep")
        .expect("runtime dependency should be present");
    assert_eq!(runtime_dep.version.as_deref(), Some("2.0.0"));
}

#[test]
fn test_pom_property_helpers() {
    let mut pom = parse_pom(
        r#"
    <project>
        <modelVersion>4.0.0</modelVersion>
        <groupId>com.example</groupId>
        <artifactId>service</artifactId>
        <version>1.0.0</version>
        <properties>
            <base.version>${project.version}</base.version>
        </properties>
        <dependencies>
            <dependency>
                <groupId>com.example</groupId>
                <artifactId>nested</artifactId>
                <version>${base.version}</version>
            </dependency>
        </dependencies>
    </project>
    "#,
    )
    .unwrap();

    assert_eq!(pom.resolve_property("${base.version}"), "1.0.0");
    assert_eq!(
        pom.resolve_property("${base.version-${missing}}"),
        "${base.version-${missing}}"
    );
    assert_eq!(pom.resolve_property("${base.version"), "${base.version");
    assert_eq!(pom.resolve_property("${nested}"), "${nested}");

    let mut extra: StringMap<String> = StringMap::new();
    extra.insert("resolved.group".to_string(), "com.extra".to_string());
    extra.insert(
        "resolved.artifact".to_string(),
        "artifact-extra".to_string(),
    );
    extra.insert("resolved.version".to_string(), "9.9.9".to_string());

    pom.merge_properties(&extra);
    pom.fill_missing_versions();

    assert_eq!(pom.dependencies[0].version.as_deref(), Some("1.0.0"));

    let mut dm = Vec::new();
    let parent_dependency = PomDependency {
        group_id: "com.example".to_string(),
        artifact_id: "managed".to_string(),
        version: Some("${base.version}".to_string()),
        scope: DependencyScope::Compile,
        optional: false,
        exclusions: Vec::new(),
    };
    dm.push(parent_dependency);

    let child_dependency = PomDependency {
        group_id: "com.example".to_string(),
        artifact_id: "managed".to_string(),
        version: None,
        scope: DependencyScope::Compile,
        optional: true,
        exclusions: Vec::new(),
    };
    pom.dependencies.push(child_dependency);

    pom.merge_dependency_management(dm);
    pom.fill_missing_versions();
    pom.merge_properties(&extra);

    assert_eq!(
        pom.dependencies.last().unwrap().version.as_deref(),
        Some("1.0.0")
    );
}

fn props(pairs: &[(&str, &str)]) -> StringMap<String> {
    let mut m = StringMap::new();
    for (k, v) in pairs {
        m.insert(k.to_string(), v.to_string());
    }
    m
}

fn dep(group: &str, artifact: &str, version: Option<&str>) -> PomDependency {
    PomDependency {
        group_id: group.to_string(),
        artifact_id: artifact.to_string(),
        version: version.map(|v| v.to_string()),
        scope: DependencyScope::Compile,
        optional: false,
        exclusions: Vec::new(),
    }
}

fn empty_pom() -> Pom {
    parse_pom("<project><groupId>g</groupId><artifactId>a</artifactId><version>1</version></project>").unwrap()
}

#[test]
fn nested_property_resolves_to_the_literal() {
    let p = props(&[("a", "${b}"), ("b", "x")]);
    assert_eq!(resolve_value("${a}", &p), "x");
}

#[test]
fn missing_property_stays_verbatim() {
    let p = props(&[("a", "${b}"), ("b", "x")]);
    assert_eq!(resolve_value("${missing}", &p), "${missing}");
}

#[test]
fn unclosed_placeholder_is_passed_through() {
    let p = props(&[("a", "${b}"), ("b", "x")]);
    assert_eq!(resolve_value("${a", &p), "${a");
    assert_eq!(resolve_value("pre-${a}-${a", &p), "pre-x-${a");
}

#[test]
fn single_pass_substitutes_once() {
    let p = props(&[("a", "${b}"), ("b", "x")]);
    assert_eq!(resolve_single_pass("${a}", &p), "${b}");
    assert_eq!(resolve_single_pass("${b}", &p), "x");
    assert_eq!(resolve_single_pass("v${b}-${b}w", &p), "vx-xw");
    assert_eq!(resolve_single_pass("$-{b}$", &p), "$-{b}$");
    assert_eq!(resolve_single_pass("${}", &p), "${}");
    assert_eq!(resolve_single_pass("", &p), "");
}

#[test]
fn resolution_stops_after_ten_passes() {
    let p = props(&[("a", "${a}x")]);
    assert_eq!(resolve_value("${a}", &p), "${a}xxxxxxxxxx");
    let chain = props(&[
        ("k0", "${k1}"), ("k1", "${k2}"), ("k2", "${k3}"), ("k3", "${k4}"), ("k4", "${k5}"),
        ("k5", "${k6}"), ("k6", "${k7}"), ("k7", "${k8}"), ("k8", "${k9}"), ("k9", "${k10}"),
        ("k10", "end"),
    ]);
    assert_eq!(resolve_value("${k1}", &chain), "end");
    assert_eq!(resolve_value("${k0}", &chain), "${k10}");
}

#[test]
fn resolving_a_resolved_text_changes_nothing() {
    let p = props(&[("a", "${b}"), ("b", "x")]);
    let once = resolve_value("${a}/${missing}/${b", &p);
    assert_eq!(once, "x/${missing}/${b");
    assert_eq!(resolve_value(&once, &p), once);
}

#[test]
fn non_ascii_text_survives_substitution() {
    let p = props(&[("k", "früh")]);
    assert_eq!(resolve_value("é${k}日本${x}", &p), "éfrüh日本${x}");
}

#[test]
fn fill_in_takes_the_managed_version() {
    let mut pom = empty_pom();
    pom.dependency_management.push(dep("org.lib", "lib", Some("2.0.0")));
    pom.dependencies.push(dep("org.lib", "lib", None));
    pom.fill_missing_versions();
    assert_eq!(pom.dependencies[0].version.as_deref(), Some("2.0.0"));
}

#[test]
fn fill_in_leaves_a_declared_version_alone() {
    let mut pom = empty_pom();
    pom.dependency_management.push(dep("org.lib", "lib", Some("2.0.0")));
    pom.dependencies.push(dep("org.lib", "lib", Some("1.5.0")));
    pom.fill_missing_versions();
    assert_eq!(pom.dependencies[0].version.as_deref(), Some("1.5.0"));
}

#[test]
fn fill_in_without_a_match_leaves_no_version() {
    let mut pom = empty_pom();
    pom.dependency_management.push(dep("org.lib", "other", Some("2.0.0")));
    pom.dependency_management.push(dep("org.other", "lib", Some("3.0.0")));
    pom.dependencies.push(dep("org.lib", "lib", None));
    pom.fill_missing_versions();
    assert_eq!(pom.dependencies[0].version, None);
}

#[test]
fn fill_in_takes_the_first_entry_that_has_a_version() {
    let mut pom = empty_pom();
    pom.dependency_management.push(dep("org.lib", "lib", None));
    pom.dependency_management.push(dep("org.lib", "lib", Some("2.0.0")));
    pom.dependency_management.push(dep("org.lib", "lib", Some("3.0.0")));
    pom.dependencies.push(dep("org.lib", "lib", None));
    pom.fill_missing_versions();
    assert_eq!(pom.dependencies[0].version.as_deref(), Some("2.0.0"));
}

#[test]
fn own_managed_entries_come_before_the_parents() {
    let mut pom = empty_pom();
    pom.dependency_management.push(dep("org.lib", "lib", Some("1.0.0")));
    pom.merge_dependency_management(vec![
        dep("org.lib", "lib", Some("9.0.0")),
        dep("org.lib", "extra", Some("4.0.0")),
    ]);
    assert_eq!(pom.dependency_management.len(), 3);
    pom.dependencies.push(dep("org.lib", "lib", None));
    pom.dependencies.push(dep("org.lib", "extra", None));
    pom.fill_missing_versions();
    assert_eq!(pom.dependencies[0].version.as_deref(), Some("1.0.0"));
    assert_eq!(pom.dependencies[1].version.as_deref(), Some("4.0.0"));
}

#[test]
fn child_properties_win_over_the_parents() {
    let mut pom = empty_pom();
    pom.properties.insert("shared".to_string(), "child".to_string());
    pom.dependencies.push(dep("${from.parent}", "${shared}", Some("${version}")));
    pom.merge_properties(&props(&[("shared", "parent"), ("from.parent", "inherited")]));
    assert_eq!(pom.properties.get("shared").unwrap(), "child");
    assert_eq!(pom.properties.get("from.parent").unwrap(), "inherited");
    assert_eq!(pom.dependencies[0].group_id, "inherited");
    assert_eq!(pom.dependencies[0].artifact_id, "child");
    assert_eq!(pom.dependencies[0].version.as_deref(), Some("1"));
}

#[test]
fn implicit_properties_name_the_coordinate() {
    let pom = parse_pom(
        "<project><groupId>org.g</groupId><artifactId>art</artifactId><version>3.1</version></project>",
    )
    .unwrap();
    for key in ["project.version", "pom.version", "version"] {
        assert_eq!(pom.properties.get(key).unwrap(), "3.1");
    }
    for key in ["project.groupId", "pom.groupId", "groupId"] {
        assert_eq!(pom.properties.get(key).unwrap(), "org.g");
    }
    for key in ["project.artifactId", "pom.artifactId", "artifactId"] {
        assert_eq!(pom.properties.get(key).unwrap(), "art");
    }
    assert_eq!(pom.properties.len(), 9);
}

#[test]
fn implicit_properties_skip_empty_fields() {
    let pom = parse_pom("<project><artifactId>art</artifactId></project>").unwrap();
    assert!(!pom.properties.contains_key("project.version"));
    assert!(!pom.properties.contains_key("groupId"));
    assert_eq!(pom.properties.get("artifactId").unwrap(), "art");
    assert_eq!(pom.properties.len(), 3);
}

#[test]
fn html_pages_are_refused_with_an_xml_parse_error() {
    for text in [
        "<!DOCTYPE html><html></html>",
        "<html><body>404</body></html>",
        "  \n\t<html lang=\"en\">",
        "\n<!DOCTYPE html PUBLIC>",
    ] {
        match parse_pom(text) {
            Err(MavenError::XmlParse { message }) => assert_eq!(
                message,
                "Received HTML response instead of POM XML (likely 404 or server error from Maven Central)"
            ),
            other => panic!("unexpected: {other:?}"),
        }
    }
}

#[test]
fn text_that_only_mentions_html_is_parsed() {
    let pom = parse_pom("<project><artifactId>html</artifactId><!-- <html> --></project>").unwrap();
    assert_eq!(pom.coordinate.artifact_id, "html");
}

#[test]
fn malformed_xml_is_an_xml_parse_error() {
    match parse_pom("<project><groupId>g</artifactId></project>") {
        Err(MavenError::XmlParse { message }) => {
            assert!(message.starts_with("XML parse error: "), "{message}")
        }
        other => panic!("unexpected: {other:?}"),
    }
}

#[test]
fn empty_text_is_an_empty_manifest() {
    let pom = parse_pom("").unwrap();
    assert_eq!(pom.coordinate.group_id, "");
    assert_eq!(pom.packaging, "jar");
    assert!(pom.parent.is_none());
    assert!(pom.dependencies.is_empty());
    assert!(pom.properties.is_empty());
}

#[test]
fn reader_yields_trimmed_unescaped_events() {
    let tokens = read_tokens("<a x=\"1\">\n  t &amp; u  \n<b/><!-- c --></a>");
    let shown: Vec<String> = tokens.iter().map(|t| format!("{t:?}")).collect();
    assert_eq!(
        shown,
        vec![
            "Start(\"a\")",
            "Text(\"t & u\")",
            "Other",
            "Other",
            "End(\"a\")",
            "Eof"
        ]
    );
}

#[test]
fn tokens_after_the_end_of_the_document_are_not_read() {
    let tokens = vec![
        XmlToken::Start("project".to_string()),
        XmlToken::Start("artifactId".to_string()),
        XmlToken::Text("kept".to_string()),
        XmlToken::End("artifactId".to_string()),
        XmlToken::Eof,
        XmlToken::Start("project".to_string()),
        XmlToken::Start("artifactId".to_string()),
        XmlToken::Text("dropped".to_string()),
    ];
    let pom = pom_from_tokens(&tokens).unwrap();
    assert_eq!(pom.coordinate.artifact_id, "kept");
}

#[test]
fn a_failure_token_fails_with_its_message() {
    let tokens = vec![
        XmlToken::Start("project".to_string()),
        XmlToken::Failure("boom".to_string()),
        XmlToken::Eof,
    ];
    match pom_from_tokens(&tokens) {
        Err(MavenError::XmlParse { message }) => assert_eq!(message, "XML parse error: boom"),
        other => panic!("unexpected: {other:?}"),
    }
    assert_eq!(
        pom_from_tokens(&tokens).unwrap_err().to_string(),
        "XML parse error: XML parse error: boom"
    );
}

#[test]
fn packaging_and_coordinate_are_read_at_the_top_level_only() {
    let pom = parse_pom(
        r#"<project>
            <groupId>top</groupId>
            <artifactId>art</artifactId>
            <version>1</version>
            <packaging>pom</packaging>
            <build><plugins><plugin>
                <groupId>deep</groupId>
                <artifactId>deep-art</artifactId>
                <version>9</version>
                <packaging>war</packaging>
            </plugin></plugins></build>
        </project>"#,
    )
    .unwrap();
    assert_eq!(pom.coordinate.group_id, "top");
    assert_eq!(pom.coordinate.artifact_id, "art");
    assert_eq!(pom.coordinate.version, "1");
    assert_eq!(pom.packaging, "pom");
}

#[test]
fn exclusions_do_not_overwrite_the_dependency() {
    let pom = parse_pom(
        r#"<project><dependencies><dependency>
            <groupId>org.real</groupId>
            <artifactId>real</artifactId>
            <version>1</version>
            <exclusions><exclusion>
                <groupId>org.excluded</groupId>
                <artifactId>excluded</artifactId>
            </exclusion></exclusions>
        </dependency></dependencies></project>"#,
    )
    .unwrap();
    assert_eq!(pom.dependencies.len(), 1);
    assert_eq!(pom.dependencies[0].group_id, "org.real");
    assert_eq!(pom.dependencies[0].artifact_id, "real");
    assert!(pom.dependencies[0].exclusions.is_empty());
}

#[test]
fn scope_text_is_matched_exactly() {
    let pom = parse_pom(
        r#"<project><dependencies>
            <dependency><groupId>g</groupId><artifactId>a</artifactId><scope>Test</scope></dependency>
            <dependency><groupId>g</groupId><artifactId>b</artifactId><scope>compile</scope></dependency>
            <dependency><groupId>g</groupId><artifactId>c</artifactId><optional>TRUE</optional></dependency>
        </dependencies></project>"#,
    )
    .unwrap();
    assert_eq!(pom.dependencies[0].scope, DependencyScope::Compile);
    assert_eq!(pom.dependencies[1].scope, DependencyScope::Compile);
    assert!(!pom.dependencies[2].optional);
    assert_eq!(pom.dependencies[2].version, None);
}

#[test]
fn a_page_after_blanks_is_refused_as_html() {
    let pages = [
        "\u{a0}\u{3000}\n\t<html><body/></html>",
        " \u{2003}<!DOCTYPE html>\u{85}",
        "<html",
        "<!DOCTYPE",
    ];
    for text in pages {
        match parse_pom(text) {
            Err(MavenError::XmlParse { message }) => assert_eq!(
                message,
                "Received HTML response instead of POM XML (likely 404 or server error from Maven Central)"
            ),
            other => panic!("unexpected: {other:?}"),
        }
    }
}

#[test]
fn a_page_after_another_character_is_not_refused_as_html() {
    for text in ["\u{200b}<html></html>", "x <!DOCTYPE html>", "<project><html/></project>", "<HTML></HTML>"] {
        if let Err(MavenError::XmlParse { message }) = parse_pom(text) {
            assert_ne!(
                message,
                "Received HTML response instead of POM XML (likely 404 or server error from Maven Central)"
            );
        }
    }
}
