//! Resolution against a transport that answers from memory.

use polytunnel::client::{HttpResponse, MavenClient, MavenTransport};
use polytunnel::coordinate::Coordinate;
use polytunnel::error::{MavenError, ResolverError};
use polytunnel::graph::DependencyGraph;
use polytunnel::resolution::{Request, Resolution};
use polytunnel::resolve::{build_overrides, dedup_by_key, ResolvedTree, Resolver, StringHashMap};
use std::cell::RefCell;
use std::collections::HashMap;

const BASE: &str = "https://repo.example.test";

#[derive(Default)]
struct MockTransport {
    routes: HashMap<String, (u16, Vec<u8>)>,
    asked: RefCell<Vec<String>>,
}

impl MockTransport {
    fn new(routes: Vec<(String, u16, String)>) -> Self {
        let routes = routes
            .into_iter()
            .map(|(path, status, body)| (path, (status, body.into_bytes())))
            .collect();
        Self { routes, asked: RefCell::new(Vec::new()) }
    }
}

impl MavenTransport for MockTransport {
    fn get(&self, url: String) -> Result<HttpResponse, MavenError> {
        self.asked.borrow_mut().push(url.clone());
        let response = self
            .routes
            .get(&url)
            .cloned()
            .unwrap_or((404, b"not found".to_vec()));
        Ok(HttpResponse { status: response.0, body: response.1 })
    }
}

struct Dep<'a> {
    gav: &'a str,
    scope: Option<&'a str>,
    optional: bool,
}

fn plain(gav: &str) -> Dep<'_> {
    Dep { gav, scope: None, optional: false }
}

fn manifest(gav: &str, packaging: Option<&str>, parent: Option<&str>, deps: &[Dep]) -> (String, u16, String) {
    let c = Coordinate::parse(gav).unwrap();
    let mut xml = String::from("<project>\n  <modelVersion>4.0.0</modelVersion>\n");
    if let Some(p) = parent {
        let p = Coordinate::parse(p).unwrap();
        xml.push_str(&format!(
            "  <parent><groupId>{}</groupId><artifactId>{}</artifactId><version>{}</version></parent>\n",
            p.group_id, p.artifact_id, p.version
        ));
    }
    xml.push_str(&format!(
        "  <groupId>{}</groupId>\n  <artifactId>{}</artifactId>\n  <version>{}</version>\n",
        c.group_id, c.artifact_id, c.version
    ));
    if let Some(p) = packaging {
        xml.push_str(&format!("  <packaging>{p}</packaging>\n"));
    }
    xml.push_str("  <dependencies>\n");
    for d in deps {
        let parts: Vec<&str> = d.gav.split(':').collect();
        xml.push_str(&format!(
            "    <dependency><groupId>{}</groupId><artifactId>{}</artifactId>",
            parts[0], parts[1]
        ));
        if parts.len() > 2 {
            xml.push_str(&format!("<version>{}</version>", parts[2]));
        }
        if let Some(s) = d.scope {
            xml.push_str(&format!("<scope>{s}</scope>"));
        }
        if d.optional {
            xml.push_str("<optional>true</optional>");
        }
        xml.push_str("</dependency>\n");
    }
    xml.push_str("  </dependencies>\n</project>\n");
    let url = format!("{BASE}/{}/{}", c.repo_path(), c.pom_filename());
    (url, 200, xml)
}

fn resolver(routes: Vec<(String, u16, String)>) -> Resolver<MockTransport> {
    Resolver::with_client(MavenClient::with_transport(BASE, MockTransport::new(routes)))
}

fn coords(list: &[&str]) -> Vec<Coordinate> {
    list.iter().map(|s| Coordinate::parse(s).unwrap()).collect()
}

fn keys(list: &[Coordinate]) -> Vec<String> {
    let mut k: Vec<String> = list.iter().map(|c| c.to_string()).collect();
    k.sort();
    k
}

fn transitive_routes() -> Vec<(String, u16, String)> {
    vec![
        manifest(
            "org.app:app:1.0.0",
            None,
            None,
            &[
                Dep { gav: "com.example:core-lib:1.0.0", scope: Some("compile"), optional: false },
                Dep { gav: "org.tests:ignored-test-lib:2.0.0", scope: Some("test"), optional: false },
                Dep { gav: "org.unavailable:missing-lib:1.0.0", scope: Some("compile"), optional: true },
            ],
        ),
        manifest(
            "com.example:core-lib:1.0.0",
            None,
            None,
            &[Dep { gav: "org.slf4j:slf4j-api:2.0.9", scope: Some("compile"), optional: false }],
        ),
        manifest("org.slf4j:slf4j-api:2.0.9", None, None, &[]),
    ]
}

#[test]
fn test_resolver_new_uses_default_client() {
    let resolver: Resolver<MockTransport> = Resolver::new();
    assert_eq!(resolver.graph.nodes().len(), 0);
}

#[test]
fn test_resolve_transitive_dependencies_with_graph() {
    let mut resolver = resolver(transitive_routes());
    let tree = resolver
        .resolve(&coords(&["org.app:app:1.0.0"]))
        .expect("resolver should succeed");

    let coords = keys(&tree.all_dependencies);
    assert!(coords.contains(&"org.app:app:1.0.0".to_string()));
    assert!(coords.contains(&"com.example:core-lib:1.0.0".to_string()));
    assert!(coords.contains(&"org.slf4j:slf4j-api:2.0.9".to_string()));
    assert!(!coords.contains(&"org.tests:ignored-test-lib:2.0.0".to_string()));

    assert!(resolver.graph.get("org.app:app:1.0.0").is_some());
    assert!(resolver.graph.get("com.example:core-lib:1.0.0").is_some());
    assert!(resolver.graph.get("org.slf4j:slf4j-api:2.0.9").is_some());
}

#[test]
fn test_resolve_applies_root_overrides() {
    let mut resolver = resolver(vec![
        manifest(
            "org.app:root:9.9.9",
            None,
            None,
            &[Dep { gav: "org.lib:lib:2.0.0", scope: Some("compile"), optional: false }],
        ),
        manifest("org.lib:lib:2.0.0", None, None, &[]),
    ]);
    let tree = resolver
        .resolve(&coords(&["org.app:root:1.0.0", "org.app:root:9.9.9"]))
        .expect("resolver should apply root override");

    let app_versions: Vec<_> = tree
        .all_dependencies
        .into_iter()
        .filter(|coord| coord.group_id == "org.app" && coord.artifact_id == "root")
        .map(|coord| coord.version)
        .collect();

    assert_eq!(app_versions, vec!["9.9.9".to_string()]);
    assert!(resolver.graph.get("org.app:root:9.9.9").is_some());
    assert!(resolver.graph.get("org.app:root:1.0.0").is_none());
    assert_eq!(
        *resolver.client.jar_url(&Coordinate::new("a", "b", "1")),
        format!("{BASE}/a/b/1/b-1.jar")
    );
}

#[test]
fn test_dependency_graph_tracks_direct_and_transitive_nodes() {
    let mut resolver = resolver(vec![
        manifest("org.one:root:1.0.0", None, None, &[plain("org.two:middle:1.0.0")]),
        manifest("org.two:middle:1.0.0", None, None, &[plain("org.three:leaf:1.0.0")]),
        manifest("org.three:leaf:1.0.0", None, None, &[]),
    ]);
    let tree = resolver
        .resolve(&coords(&["org.one:root:1.0.0"]))
        .expect("resolver should resolve transitive chain");

    assert_eq!(
        keys(&tree.all_dependencies),
        vec!["org.one:root:1.0.0", "org.three:leaf:1.0.0", "org.two:middle:1.0.0"]
    );
    assert_eq!(resolver.graph.get("org.one:root:1.0.0").unwrap().depth, 0);
    assert_eq!(resolver.graph.get("org.two:middle:1.0.0").unwrap().depth, 1);
    assert_eq!(resolver.graph.get("org.three:leaf:1.0.0").unwrap().depth, 2);
    assert_eq!(
        keys(&resolver.graph.get("org.one:root:1.0.0").unwrap().dependencies),
        vec!["org.two:middle:1.0.0"]
    );
}

#[test]
fn test_resolver_ignores_missing_parent_and_transitive_errors() {
    let mut resolver = resolver(vec![
        manifest(
            "org.faulty:root:1.0.0",
            None,
            None,
            &[plain("org.good:with-missing-parent:1.0.0"), plain("org.bad:missing:1.0.0")],
        ),
        manifest(
            "org.good:with-missing-parent:1.0.0",
            None,
            Some("org.missing:parent:1.0.0"),
            &[plain("org.good:missing-transitive:1.0.0")],
        ),
    ]);
    let tree = resolver
        .resolve(&coords(&["org.faulty:root:1.0.0"]))
        .expect("resolver should continue after non-fatal failures");

    let coords = keys(&tree.all_dependencies);
    assert!(coords.contains(&"org.faulty:root:1.0.0".to_string()));
    assert!(coords.contains(&"org.good:with-missing-parent:1.0.0".to_string()));
    assert!(!coords.contains(&"org.good:missing-transitive:1.0.0".to_string()));
    assert!(!coords.contains(&"org.bad:missing:1.0.0".to_string()));
    assert!(resolver.graph.get("org.good:with-missing-parent:1.0.0").is_some());
}

#[test]
fn test_resolve_transitive_dependencies() {
    let mut resolver = resolver(vec![
        manifest("org.test:root:1.0.0", None, None, &[plain("org.test:lib-a:1.0.0")]),
        manifest("org.test:lib-a:1.0.0", None, None, &[plain("org.test:lib-b:1.0.0")]),
        manifest("org.test:lib-b:1.0.0", None, None, &[]),
    ]);
    let tree = resolver.resolve(&coords(&["org.test:root:1.0.0"])).unwrap();
    assert_eq!(tree.all_dependencies.len(), 3);
    let artifacts: Vec<String> = tree.all_dependencies.iter().map(|d| d.artifact_id.clone()).collect();
    assert!(artifacts.contains(&"root".to_string()));
    assert!(artifacts.contains(&"lib-a".to_string()));
    assert!(artifacts.contains(&"lib-b".to_string()));
}

#[test]
fn test_resolve_single_dependency() {
    let mut resolver = resolver(vec![manifest("org.test:lib-b:1.0.0", None, None, &[])]);
    let tree = resolver.resolve(&coords(&["org.test:lib-b:1.0.0"])).unwrap();
    assert_eq!(tree.all_dependencies.len(), 1);
    assert_eq!(tree.all_dependencies[0].artifact_id, "lib-b");
}

#[test]
fn diamond_lists_the_shared_dependency_once() {
    let mut resolver = resolver(vec![
        manifest("g:a:1", None, None, &[plain("g:b:1"), plain("g:c:1")]),
        manifest("g:b:1", None, None, &[plain("g:d:1")]),
        manifest("g:c:1", None, None, &[plain("g:d:1")]),
        manifest("g:d:1", None, None, &[]),
    ]);
    let tree = resolver.resolve(&coords(&["g:a:1"])).unwrap();
    assert_eq!(keys(&tree.all_dependencies), vec!["g:a:1", "g:b:1", "g:c:1", "g:d:1"]);
    assert_eq!(resolver.graph.nodes().len(), 4);
    let asked = resolver.client.transport().asked.borrow().clone();
    assert_eq!(asked.iter().filter(|u| u.ends_with("/g/d/1/d-1.pom")).count(), 1);
    assert_eq!(asked.len(), 4);
}

#[test]
fn cycle_terminates_without_duplicates() {
    let mut resolver = resolver(vec![
        manifest("g:a:1", None, None, &[plain("g:b:1")]),
        manifest("g:b:1", None, None, &[plain("g:a:1")]),
    ]);
    let tree = resolver.resolve(&coords(&["g:a:1"])).unwrap();
    assert_eq!(keys(&tree.all_dependencies), vec!["g:a:1", "g:b:1"]);
    assert_eq!(resolver.graph.nodes().len(), 2);
    assert_eq!(
        keys(&resolver.graph.get("g:b:1").unwrap().dependencies),
        vec!["g:a:1"]
    );
}

#[test]
fn self_dependency_terminates() {
    let mut resolver = resolver(vec![manifest("g:a:1", None, None, &[plain("g:a:1")])]);
    let tree = resolver.resolve(&coords(&["g:a:1"])).unwrap();
    assert_eq!(keys(&tree.all_dependencies), vec!["g:a:1"]);
}

#[test]
fn root_override_rewrites_transitive_requests_at_any_depth() {
    let mut resolver = resolver(vec![
        manifest("g:app:1", None, None, &[plain("g:mid:1")]),
        manifest("g:mid:1", None, None, &[plain("g:lib:1.0")]),
        manifest("g:lib:1.0", None, None, &[]),
        manifest("g:lib:2.0", None, None, &[]),
    ]);
    let tree = resolver.resolve(&coords(&["g:app:1", "g:lib:2.0"])).unwrap();
    assert_eq!(keys(&tree.all_dependencies), vec!["g:app:1", "g:lib:2.0", "g:mid:1"]);
    assert!(resolver.graph.get("g:lib:1.0").is_none());
    assert_eq!(
        keys(&resolver.graph.get("g:mid:1").unwrap().dependencies),
        vec!["g:lib:1.0"]
    );
    assert_eq!(tree.root_dependencies, coords(&["g:app:1", "g:lib:2.0"]));
}

#[test]
fn test_scope_and_optional_dependencies_are_not_followed() {
    let mut resolver = resolver(vec![
        manifest(
            "g:app:1",
            None,
            None,
            &[
                Dep { gav: "g:compile:1", scope: Some("compile"), optional: false },
                Dep { gav: "g:provided:1", scope: Some("provided"), optional: false },
                Dep { gav: "g:runtime:1", scope: Some("runtime"), optional: false },
                Dep { gav: "g:test:1", scope: Some("test"), optional: false },
                Dep { gav: "g:system:1", scope: Some("system"), optional: false },
                Dep { gav: "g:import:1", scope: Some("import"), optional: false },
                Dep { gav: "g:optional:1", scope: None, optional: true },
                Dep { gav: "g:unversioned", scope: None, optional: false },
                Dep { gav: "g:default:1", scope: None, optional: false },
            ],
        ),
        manifest("g:compile:1", None, None, &[]),
        manifest("g:provided:1", None, None, &[]),
        manifest("g:runtime:1", None, None, &[]),
        manifest("g:test:1", None, None, &[]),
        manifest("g:system:1", None, None, &[]),
        manifest("g:import:1", None, None, &[]),
        manifest("g:optional:1", None, None, &[]),
        manifest("g:default:1", None, None, &[]),
    ]);
    let tree = resolver.resolve(&coords(&["g:app:1"])).unwrap();
    assert_eq!(
        keys(&tree.all_dependencies),
        vec!["g:app:1", "g:compile:1", "g:default:1", "g:provided:1"]
    );
    assert_eq!(
        keys(&resolver.graph.get("g:app:1").unwrap().dependencies),
        vec!["g:compile:1", "g:default:1", "g:provided:1"]
    );
    for node in resolver.graph.nodes() {
        for dep in &node.dependencies {
            assert!(!["test", "optional", "runtime", "system", "import"].contains(&dep.artifact_id.as_str()));
        }
    }
}

#[test]
fn pom_packaged_nodes_are_recorded_but_not_listed() {
    let mut resolver = resolver(vec![
        manifest("g:app:1", None, None, &[plain("g:bom:1")]),
        manifest("g:bom:1", Some("pom"), None, &[plain("g:lib:1")]),
        manifest("g:lib:1", Some("jar"), None, &[]),
    ]);
    let tree = resolver.resolve(&coords(&["g:app:1"])).unwrap();
    assert_eq!(keys(&tree.all_dependencies), vec!["g:app:1", "g:lib:1"]);
    assert!(resolver.graph.contains("g:bom:1"));
    assert_eq!(
        keys(&resolver.graph.get("g:bom:1").unwrap().dependencies),
        vec!["g:lib:1"]
    );
}

#[test]
fn pom_packaged_root_contributes_only_its_dependencies() {
    let mut resolver = resolver(vec![
        manifest("g:bom:1", Some("pom"), None, &[plain("g:lib:1")]),
        manifest("g:lib:1", None, None, &[]),
    ]);
    let tree = resolver.resolve(&coords(&["g:bom:1"])).unwrap();
    assert_eq!(keys(&tree.all_dependencies), vec!["g:lib:1"]);
    assert!(resolver.graph.contains("g:bom:1"));
}

#[test]
fn root_failure_is_an_error_and_empties_the_graph() {
    let mut resolver = resolver(vec![manifest("g:ok:1", None, None, &[])]);
    resolver.resolve(&coords(&["g:ok:1"])).unwrap();
    assert_eq!(resolver.graph.nodes().len(), 1);
    match resolver.resolve(&coords(&["g:ok:1", "g:missing:1"])) {
        Err(ResolverError::Maven(MavenError::HttpStatus { status, url })) => {
            assert_eq!(status, 404);
            assert_eq!(url, format!("{BASE}/g/missing/1/missing-1.pom"));
        }
        other => panic!("unexpected: {other:?}"),
    }
    assert_eq!(resolver.graph.nodes().len(), 0);
}

#[test]
fn a_html_page_for_a_root_is_an_xml_parse_error() {
    let mut resolver = resolver(vec![(
        format!("{BASE}/g/a/1/a-1.pom"),
        200,
        "<!DOCTYPE html><html><body>gone</body></html>".to_string(),
    )]);
    match resolver.resolve(&coords(&["g:a:1"])) {
        Err(ResolverError::Maven(MavenError::XmlParse { .. })) => {}
        other => panic!("unexpected: {other:?}"),
    }
}

#[test]
fn invalid_utf8_for_a_root_is_an_error() {
    let mut transport = MockTransport::new(vec![]);
    transport
        .routes
        .insert(format!("{BASE}/g/a/1/a-1.pom"), (200, vec![0x3c, 0xff, 0xfe]));
    let mut resolver = Resolver::with_client(MavenClient::with_transport(BASE, transport));
    match resolver.resolve(&coords(&["g:a:1"])) {
        Err(ResolverError::Maven(MavenError::InvalidUtf8 { message })) => assert!(!message.is_empty()),
        other => panic!("unexpected: {other:?}"),
    }
}

#[test]
fn the_graph_grows_over_resolutions() {
    let mut resolver = resolver(vec![
        manifest("g:a:1", None, None, &[]),
        manifest("g:b:1", None, None, &[plain("g:a:1")]),
    ]);
    resolver.resolve(&coords(&["g:a:1"])).unwrap();
    assert_eq!(resolver.graph.get("g:a:1").unwrap().depth, 0);
    let tree = resolver.resolve(&coords(&["g:b:1"])).unwrap();
    assert_eq!(keys(&tree.all_dependencies), vec!["g:a:1", "g:b:1"]);
    assert_eq!(resolver.graph.nodes().len(), 2);
    assert_eq!(resolver.graph.get("g:a:1").unwrap().depth, 1);
}

#[test]
fn no_roots_resolve_to_nothing() {
    let mut resolver = resolver(vec![]);
    let tree = resolver.resolve(&vec![]).unwrap();
    assert!(tree.root_dependencies.is_empty());
    assert!(tree.all_dependencies.is_empty());
}

#[test]
fn versions_are_inherited_from_the_parents_management() {
    let parent = (
        format!("{BASE}/g/parent/1/parent-1.pom"),
        200,
        r#"<project>
            <groupId>g</groupId><artifactId>parent</artifactId><version>1</version>
            <packaging>pom</packaging>
            <properties><lib.version>3.2.1</lib.version></properties>
            <dependencyManagement><dependencies>
                <dependency><groupId>g</groupId><artifactId>lib</artifactId><version>${lib.version}</version></dependency>
            </dependencies></dependencyManagement>
        </project>"#
            .to_string(),
    );
    let mut resolver = resolver(vec![
        manifest("g:app:1", None, Some("g:parent:1"), &[plain("g:lib"), plain("g:unmanaged")]),
        parent,
        manifest("g:lib:3.2.1", None, None, &[]),
    ]);
    let tree = resolver.resolve(&coords(&["g:app:1"])).unwrap();
    assert_eq!(keys(&tree.all_dependencies), vec!["g:app:1", "g:lib:3.2.1"]);
    assert!(!resolver.graph.contains("g:parent:1"));
}

#[test]
fn grandparents_are_followed() {
    let grandparent = (
        format!("{BASE}/g/grand/1/grand-1.pom"),
        200,
        r#"<project><groupId>g</groupId><artifactId>grand</artifactId><version>1</version>
            <properties><v>7</v></properties></project>"#
            .to_string(),
    );
    let parent = (
        format!("{BASE}/g/parent/1/parent-1.pom"),
        200,
        r#"<project><groupId>g</groupId><artifactId>parent</artifactId><version>1</version>
            <parent><groupId>g</groupId><artifactId>grand</artifactId><version>1</version></parent>
            </project>"#
            .to_string(),
    );
    let app = (
        format!("{BASE}/g/app/1/app-1.pom"),
        200,
        r#"<project><groupId>g</groupId><artifactId>app</artifactId><version>1</version>
            <parent><groupId>g</groupId><artifactId>parent</artifactId><version>1</version></parent>
            <dependencies><dependency><groupId>g</groupId><artifactId>lib</artifactId><version>${v}</version></dependency></dependencies>
            </project>"#
            .to_string(),
    );
    let mut resolver = resolver(vec![app, parent, grandparent, manifest("g:lib:7", None, None, &[])]);
    let tree = resolver.resolve(&coords(&["g:app:1"])).unwrap();
    assert_eq!(keys(&tree.all_dependencies), vec!["g:app:1", "g:lib:7"]);
}

#[test]
fn a_parent_chain_that_loops_is_cut() {
    let looping = (
        format!("{BASE}/g/loop/1/loop-1.pom"),
        200,
        r#"<project><groupId>g</groupId><artifactId>loop</artifactId><version>1</version>
            <parent><groupId>g</groupId><artifactId>loop</artifactId><version>1</version></parent>
            </project>"#
            .to_string(),
    );
    let mut resolver = resolver(vec![looping]);
    let tree = resolver.resolve(&coords(&["g:loop:1"])).unwrap();
    assert_eq!(keys(&tree.all_dependencies), vec!["g:loop:1"]);
}

#[test]
fn overrides_take_the_last_root() {
    let overrides = build_overrides(&coords(&["g:a:1", "g:b:5", "g:a:2"]));
    assert_eq!(overrides.len(), 2);
    assert_eq!(overrides.get("g:a").unwrap(), "2");
    assert_eq!(overrides.get("g:b").unwrap(), "5");
    let rewritten = Resolver::<MockTransport>::apply_override(&Coordinate::new("g", "a", "0.1"), &overrides);
    assert_eq!(rewritten.to_string(), "g:a:2");
    let untouched = Resolver::<MockTransport>::apply_override(&Coordinate::new("g", "c", "0.1"), &overrides);
    assert_eq!(untouched.to_string(), "g:c:0.1");
}

#[test]
fn dedup_keeps_the_first_of_each_key() {
    let mut second = Coordinate::new("g", "a", "1");
    second.classifier = Some("sources".to_string());
    let list = vec![Coordinate::new("g", "a", "1"), Coordinate::new("g", "b", "1"), second];
    let unique = dedup_by_key(&list);
    assert_eq!(unique.len(), 2);
    assert_eq!(unique[0].classifier, None);
    assert_eq!(unique[1].artifact_id, "b");
}

fn resolve_in_steps(
    client: &MavenClient<MockTransport>,
    roots: &Vec<Coordinate>,
    graph: DependencyGraph,
) -> Result<(ResolvedTree, DependencyGraph), ResolverError> {
    let (mut resolution, mut wave) = Resolution::begin(roots, graph);
    while !wave.is_empty() {
        let mut next = Vec::new();
        for request in &wave {
            match Resolver::<MockTransport>::fetch_effective_pom(client, &request.coordinate, 0) {
                Ok(pom) => next.extend(resolution.record(request, pom)),
                Err(e) => resolution.fail(request, e)?,
            }
        }
        wave = next;
    }
    Ok(resolution.finish())
}

fn client(routes: Vec<(String, u16, String)>) -> MavenClient<MockTransport> {
    MavenClient::with_transport(BASE, MockTransport::new(routes))
}

#[test]
fn steps_resolve_a_diamond_once_per_coordinate() {
    let client = client(vec![
        manifest("g:a:1", None, None, &[plain("g:b:1"), plain("g:c:1")]),
        manifest("g:b:1", None, None, &[plain("g:d:1")]),
        manifest("g:c:1", None, None, &[plain("g:d:1")]),
        manifest("g:d:1", None, None, &[]),
    ]);
    let (tree, graph) = resolve_in_steps(&client, &coords(&["g:a:1"]), DependencyGraph::new()).unwrap();
    assert_eq!(keys(&tree.all_dependencies), vec!["g:a:1", "g:b:1", "g:c:1", "g:d:1"]);
    assert_eq!(graph.nodes().len(), 4);
    assert_eq!(graph.get("g:d:1").unwrap().depth, 2);
    assert_eq!(client.transport().asked.borrow().len(), 4);
}

#[test]
fn steps_take_the_roots_version_and_stop_at_cycles() {
    let client = client(vec![
        manifest("g:app:1", None, None, &[plain("g:lib:1.0")]),
        manifest("g:lib:2.0", None, None, &[plain("g:app:1"), plain("g:bom:1")]),
        manifest("g:bom:1", Some("pom"), None, &[Dep { gav: "g:t:1", scope: Some("test"), optional: false }]),
    ]);
    let roots = coords(&["g:app:1", "g:lib:1.5", "g:lib:2.0"]);
    let (tree, graph) = resolve_in_steps(&client, &roots, DependencyGraph::new()).unwrap();
    assert_eq!(keys(&tree.all_dependencies), vec!["g:app:1", "g:lib:2.0"]);
    assert_eq!(tree.root_dependencies, roots);
    assert!(graph.contains("g:bom:1"));
    assert!(!graph.contains("g:lib:1.0"));
    assert!(!graph.contains("g:t:1"));
    assert_eq!(graph.get("g:lib:2.0").unwrap().depth, 0);
}

#[test]
fn steps_fail_on_a_root_and_pass_over_the_rest() {
    let client = client(vec![manifest("g:a:1", None, None, &[plain("g:missing:1")])]);
    let (tree, _) = resolve_in_steps(&client, &coords(&["g:a:1"]), DependencyGraph::new()).unwrap();
    assert_eq!(keys(&tree.all_dependencies), vec!["g:a:1"]);
    match resolve_in_steps(&client, &coords(&["g:a:1", "g:missing:1"]), DependencyGraph::new()) {
        Err(ResolverError::Maven(MavenError::HttpStatus { status, .. })) => assert_eq!(status, 404),
        other => panic!("unexpected: {:?}", other.map(|r| r.0)),
    }
}

#[test]
fn steps_ignore_requests_that_are_not_pending() {
    let roots = coords(&["g:a:1"]);
    let (mut resolution, wave) = Resolution::begin(&roots, DependencyGraph::new());
    assert_eq!(wave.len(), 1);
    let pom = polytunnel::pom_parser::parse_pom(
        "<project><groupId>g</groupId><artifactId>a</artifactId><version>1</version></project>",
    )
    .unwrap();
    let stranger = Request { coordinate: Coordinate::new("g", "x", "1"), depth: 0 };
    assert!(resolution.record(&stranger, pom.clone()).is_empty());
    assert!(resolution.fail(&stranger, MavenError::Http("x".to_string())).is_ok());
    assert!(resolution.record(&wave[0], pom.clone()).is_empty());
    assert!(resolution.record(&wave[0], pom.clone()).is_empty());
    assert!(resolution.fail(&wave[0], MavenError::Http("x".to_string())).is_ok());
    let (tree, graph) = resolution.finish();
    assert_eq!(keys(&tree.all_dependencies), vec!["g:a:1"]);
    assert_eq!(graph.nodes().len(), 1);
}

#[test]
fn steps_and_the_resolver_agree() {
    let routes = || {
        vec![
            manifest("g:a:1", None, None, &[plain("g:b:1"), plain("g:c:1"), plain("g:gone:1")]),
            manifest("g:b:1", None, Some("g:parent:1"), &[plain("g:d")]),
            manifest("g:c:1", Some("pom"), None, &[plain("g:d:3"), plain("g:a:1")]),
            (
                format!("{BASE}/g/parent/1/parent-1.pom"),
                200,
                "<project><groupId>g</groupId><artifactId>parent</artifactId><version>1</version><dependencyManagement><dependencies><dependency><groupId>g</groupId><artifactId>d</artifactId><version>2</version></dependency></dependencies></dependencyManagement></project>".to_string(),
            ),
            manifest("g:d:2", None, None, &[]),
            manifest("g:d:3", None, None, &[]),
        ]
    };
    let roots = coords(&["g:a:1"]);
    let (tree, graph) = resolve_in_steps(&client(routes()), &roots, DependencyGraph::new()).unwrap();
    let mut whole = resolver(routes());
    let expected = whole.resolve(&roots).unwrap();
    assert_eq!(keys(&tree.all_dependencies), keys(&expected.all_dependencies));
    assert_eq!(keys(&tree.all_dependencies), vec!["g:a:1", "g:b:1", "g:d:2", "g:d:3"]);
    let mut here: Vec<String> = graph.nodes().iter().map(|n| n.coordinate.to_string()).collect();
    let mut there: Vec<String> = whole.graph.nodes().iter().map(|n| n.coordinate.to_string()).collect();
    here.sort();
    there.sort();
    assert_eq!(here, there);
}

#[test]
fn parents_are_followed_ten_levels_up_and_no_further() {
    let looping = (
        format!("{BASE}/g/loop/1/loop-1.pom"),
        200,
        r#"<project><groupId>g</groupId><artifactId>loop</artifactId><version>1</version>
            <parent><groupId>g</groupId><artifactId>loop</artifactId><version>1</version></parent>
            </project>"#
            .to_string(),
    );
    let client = client(vec![looping]);
    let pom = Resolver::<MockTransport>::fetch_effective_pom(&client, &Coordinate::new("g", "loop", "1"), 0).unwrap();
    assert_eq!(pom.coordinate.artifact_id, "loop");
    assert_eq!(client.transport().asked.borrow().len(), 11);
    client.transport().asked.borrow_mut().clear();
    Resolver::<MockTransport>::fetch_effective_pom(&client, &Coordinate::new("g", "loop", "1"), 11).unwrap();
    assert_eq!(client.transport().asked.borrow().len(), 1);
    client.transport().asked.borrow_mut().clear();
    Resolver::<MockTransport>::fetch_effective_pom(&client, &Coordinate::new("g", "loop", "1"), 10).unwrap();
    assert_eq!(client.transport().asked.borrow().len(), 1);
    client.transport().asked.borrow_mut().clear();
    Resolver::<MockTransport>::fetch_effective_pom(&client, &Coordinate::new("g", "loop", "1"), 9).unwrap();
    assert_eq!(client.transport().asked.borrow().len(), 2);
}

#[test]
fn the_parent_to_follow_is_the_declared_one_below_the_limit() {
    let mut pom = polytunnel::pom_parser::parse_pom(
        r#"<project><groupId>g</groupId><artifactId>a</artifactId><version>1</version>
            <parent><groupId>g</groupId><artifactId>up</artifactId><version>2</version></parent>
            </project>"#,
    )
    .unwrap();
    let up = Coordinate::new("g", "up", "2");
    assert_eq!(polytunnel::resolve::parent_to_follow(&pom, 0), Some(up.clone()));
    assert_eq!(polytunnel::resolve::parent_to_follow(&pom, 9), Some(up));
    assert_eq!(polytunnel::resolve::parent_to_follow(&pom, 10), None);
    assert_eq!(polytunnel::resolve::parent_to_follow(&pom, usize::MAX), None);
    pom.parent = None;
    assert_eq!(polytunnel::resolve::parent_to_follow(&pom, 0), None);
}

#[test]
fn without_roots_nothing_is_resolved_and_the_graph_stays() {
    let mut resolver = resolver(vec![manifest("g:a:1", None, None, &[])]);
    resolver.resolve(&coords(&["g:a:1"])).unwrap();
    let tree = resolver.resolve(&Vec::new()).unwrap();
    assert!(tree.root_dependencies.is_empty());
    assert!(tree.all_dependencies.is_empty());
    assert_eq!(resolver.graph.len(), 1);
    assert!(resolver.graph.contains("g:a:1"));
    assert!(resolver.client.transport().asked.borrow().len() == 1);
}

#[test]
fn the_first_root_is_recorded_at_depth_zero_and_heads_the_list() {
    let mut resolver = resolver(vec![
        manifest("g:a:1", None, None, &[plain("g:b:1")]),
        manifest("g:b:1", None, None, &[]),
        manifest("g:c:1", None, None, &[]),
    ]);
    let tree = resolver.resolve(&coords(&["g:a:1", "g:c:1"])).unwrap();
    assert_eq!(keys(&tree.all_dependencies), vec!["g:a:1", "g:b:1", "g:c:1"]);
    assert_eq!(tree.all_dependencies[0].to_string(), "g:a:1");
    let node = resolver.graph.get("g:a:1").unwrap();
    assert_eq!(node.depth, 0);
    assert_eq!(node.dependencies, coords(&["g:b:1"]));
    assert_eq!(resolver.graph.get("g:b:1").unwrap().depth, 1);
    assert_eq!(resolver.graph.get("g:c:1").unwrap().depth, 0);
}

#[test]
fn every_node_stands_under_the_key_of_its_coordinate() {
    let mut resolver = resolver(vec![
        manifest("g:a:1", None, None, &[plain("g:b:1"), plain("g:c:2")]),
        manifest("g:b:1", Some("pom"), None, &[plain("g:c:1")]),
        manifest("g:c:2", None, None, &[]),
        manifest("g:c:3", None, None, &[]),
    ]);
    resolver.resolve(&coords(&["g:a:1", "g:c:3"])).unwrap();
    let mut held: Vec<String> = Vec::new();
    for node in resolver.graph.nodes() {
        assert_eq!(resolver.graph.get(&node.coordinate.to_string()).unwrap().coordinate, node.coordinate);
        held.push(node.coordinate.to_string());
    }
    held.sort();
    assert_eq!(held, vec!["g:a:1", "g:b:1", "g:c:3"]);
}

#[test]
fn a_far_ancestor_is_inherited_from_within_the_limit() {
    let mut routes = Vec::new();
    for level in 0..12 {
        let parent = if level < 11 {
            format!("<parent><groupId>g</groupId><artifactId>p{}</artifactId><version>1</version></parent>", level + 1)
        } else {
            String::new()
        };
        routes.push((
            format!("{BASE}/g/p{level}/1/p{level}-1.pom"),
            200,
            format!("<project><groupId>g</groupId><artifactId>p{level}</artifactId><version>1</version>{parent}<properties><from{level}>v{level}</from{level}></properties></project>"),
        ));
    }
    let client = client(routes);
    let pom = Resolver::<MockTransport>::fetch_effective_pom(&client, &Coordinate::new("g", "p0", "1"), 0).unwrap();
    assert_eq!(pom.properties.get("from0").unwrap(), "v0");
    assert_eq!(pom.properties.get("from10").unwrap(), "v10");
    assert!(pom.properties.get("from11").is_none());
    assert_eq!(client.transport().asked.borrow().len(), 11);
    assert_eq!(pom.properties.get("artifactId").unwrap(), "p0");
}

#[test]
fn transitive_candidates_are_the_dependencies_that_propagate() {
    let pom = polytunnel::pom_parser::parse_pom(
        r#"<project><groupId>g</groupId><artifactId>a</artifactId><version>1</version><dependencies>
            <dependency><groupId>g</groupId><artifactId>kept</artifactId><version>1</version></dependency>
            <dependency><groupId>g</groupId><artifactId>tested</artifactId><version>1</version><scope>test</scope></dependency>
            <dependency><groupId>g</groupId><artifactId>maybe</artifactId><version>1</version><optional>true</optional></dependency>
            <dependency><groupId>g</groupId><artifactId>given</artifactId><version>2</version><scope>provided</scope></dependency>
            <dependency><groupId>g</groupId><artifactId>open</artifactId></dependency>
        </dependencies></project>"#,
    )
    .unwrap();
    let candidates = Resolver::<MockTransport>::determine_transitive_deps(&pom);
    assert_eq!(candidates, coords(&["g:kept:1", "g:given:2"]));
}

#[test]
fn the_text_of_a_manifest_is_fetched_from_its_place() {
    let client = client(vec![manifest("org.g:art:1.2", None, None, &[])]);
    let text = client.fetch_pom_content(&Coordinate::new("org.g", "art", "1.2")).unwrap();
    assert!(text.contains("<artifactId>art</artifactId>"));
    assert_eq!(
        *client.transport().asked.borrow(),
        vec![format!("{BASE}/org/g/art/1.2/art-1.2.pom")]
    );
    match client.fetch_pom_content(&Coordinate::new("org.g", "art", "9")) {
        Err(MavenError::HttpStatus { status: 404, .. }) => {}
        other => panic!("unexpected: {other:?}"),
    }
}

#[test]
fn the_visited_keys_say_which_nodes_were_recorded() {
    let client = client(vec![
        manifest("g:a:1", None, None, &[plain("g:b:1"), plain("g:gone:1"), plain("g:c:1")]),
        manifest("g:b:1", Some("pom"), None, &[plain("g:a:1"), plain("g:c:1")]),
        manifest("g:c:1", None, None, &[]),
    ]);
    let overrides = build_overrides(&Vec::new());
    let mut visited: StringHashMap<bool> = StringHashMap::new();
    let mut graph = DependencyGraph::new();
    let out = Resolver::<MockTransport>::resolve_recursive(
        &client,
        &Coordinate::new("g", "a", "1"),
        0,
        &overrides,
        &mut visited,
        &mut graph,
    )
    .unwrap();
    let listed: Vec<String> = out.iter().map(|c| c.to_string()).collect();
    assert_eq!(listed, vec!["g:a:1", "g:c:1"]);
    assert_eq!(visited.len(), 4);
    assert_eq!(visited.get("g:a:1"), Some(&true));
    assert_eq!(visited.get("g:b:1"), Some(&true));
    assert_eq!(visited.get("g:c:1"), Some(&true));
    assert_eq!(visited.get("g:gone:1"), Some(&false));
    assert_eq!(graph.len(), 3);
    assert!(!graph.contains("g:gone:1"));
    assert_eq!(graph.get("g:a:1").unwrap().depth, 0);
    assert_eq!(graph.get("g:b:1").unwrap().depth, 1);
    assert_eq!(graph.get("g:b:1").unwrap().dependencies, coords(&["g:a:1", "g:c:1"]));
    assert_eq!(graph.get("g:c:1").unwrap().depth, 2);
    assert_eq!(client.transport().asked.borrow().len(), 4);
}

#[test]
fn a_request_that_fails_is_entered_and_not_recorded() {
    let client = client(vec![manifest("g:a:1", None, None, &[])]);
    let overrides = build_overrides(&coords(&["g:a:1"]));
    let mut visited: StringHashMap<bool> = StringHashMap::new();
    let mut graph = DependencyGraph::new();
    let failed = Resolver::<MockTransport>::resolve_recursive(
        &client,
        &Coordinate::new("g", "gone", "1"),
        3,
        &overrides,
        &mut visited,
        &mut graph,
    );
    assert!(matches!(failed, Err(ResolverError::Maven(MavenError::HttpStatus { status: 404, .. }))));
    assert_eq!(visited.len(), 1);
    assert_eq!(visited.get("g:gone:1"), Some(&false));
    assert_eq!(graph.len(), 0);
    let again = Resolver::<MockTransport>::resolve_recursive(
        &client,
        &Coordinate::new("g", "gone", "1"),
        3,
        &overrides,
        &mut visited,
        &mut graph,
    )
    .unwrap();
    assert!(again.is_empty());
    assert_eq!(client.transport().asked.borrow().len(), 1);
    let found = Resolver::<MockTransport>::resolve_recursive(
        &client,
        &Coordinate::new("g", "a", "0.5"),
        usize::MAX,
        &overrides,
        &mut visited,
        &mut graph,
    )
    .unwrap();
    assert_eq!(found, coords(&["g:a:1"]));
    assert_eq!(visited.get("g:a:1"), Some(&true));
    assert_eq!(graph.get("g:a:1").unwrap().depth, usize::MAX);
}
