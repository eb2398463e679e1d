//! Reading a manifest from the events of its document.
//!
//! The parser is a state machine over the events: `stepped` says what one
//! event does to the state, `run` folds the events, and `finished` turns the
//! last state into the manifest.

use crate::coordinate::{default_packaging, default_packaging_text, Coordinate, CoordinateView};
use crate::error::{prefixed, MavenError, MavenErrorView};
use crate::pom::{
    dependency_views, inject_project_properties, resolve_dependencies, resolved_dependencies,
    text_map, with_project_properties, DependencyScope, DependencyView, Pom,
    PomDependency, PomView,
};
use crate::string_map::StringMap;
use crate::text::{
    equals, lemma_leading_whitespace_is, lemma_trailing_whitespace_blank, starts_with,
    trailing_whitespace, trim, trimmed, views, white_space,
};
use crate::xml::{read_tokens, token_views, xml_events, XmlEvent, XmlToken};
use vstd::prelude::*;
use vstd::string::*;

verus! {

/// The parser's state between two events.
#[derive(Debug)]
pub struct PomParser {
    /// The manifest as far as it has been read.
    pub pom: Pom,
    /// The names of the elements that are open, outermost first.
    pub current_path: Vec<String>,
    /// The character data read last, until the next closing tag.
    pub current_text: String,
    /// Group, artifact and version of the dependency or parent being read.
    pub group_id: String,
    pub artifact_id: String,
    pub version: String,
    /// Scope and optionality of the dependency being read.
    pub scope: DependencyScope,
    pub optional: bool,
    pub in_dependency: bool,
    pub in_parent: bool,
    pub in_properties: bool,
    pub in_dependency_management: bool,
    pub in_exclusion: bool,
    /// The name of the property being read, empty between properties.
    pub prop_name: String,
}

/// A `PomParser`, as plain text.
pub ghost struct ParserView {
    pub pom: PomView,
    pub path: Seq<Seq<char>>,
    pub text: Seq<char>,
    pub group_id: Seq<char>,
    pub artifact_id: Seq<char>,
    pub version: Seq<char>,
    pub scope: DependencyScope,
    pub optional: bool,
    pub in_dependency: bool,
    pub in_parent: bool,
    pub in_properties: bool,
    pub in_dependency_management: bool,
    pub in_exclusion: bool,
    pub prop_name: Seq<char>,
}

impl View for PomParser {
    type V = ParserView;

    open spec fn view(&self) -> ParserView {
        ParserView {
            pom: self.pom@,
            path: views(self.current_path@),
            text: self.current_text@,
            group_id: self.group_id@,
            artifact_id: self.artifact_id@,
            version: self.version@,
            scope: self.scope,
            optional: self.optional,
            in_dependency: self.in_dependency,
            in_parent: self.in_parent,
            in_properties: self.in_properties,
            in_dependency_management: self.in_dependency_management,
            in_exclusion: self.in_exclusion,
            prop_name: self.prop_name@,
        }
    }
}

/// The scope that a manifest's text names. The match is exact in case, and
/// a text that names no scope means `Compile`.
pub open spec fn scope_of(text: Seq<char>) -> DependencyScope {
    if text == "runtime"@ {
        DependencyScope::Runtime
    } else if text == "test"@ {
        DependencyScope::Test
    } else if text == "provided"@ {
        DependencyScope::Provided
    } else if text == "system"@ {
        DependencyScope::System
    } else if text == "import"@ {
        DependencyScope::Import
    } else {
        DependencyScope::Compile
    }
}

/// The state before the first event: an empty manifest packaged as `jar`.
pub open spec fn initial() -> ParserView {
    ParserView {
        pom: PomView {
            coordinate: CoordinateView {
                group_id: Seq::empty(),
                artifact_id: Seq::empty(),
                version: Seq::empty(),
                classifier: None,
                packaging: default_packaging_text(),
            },
            packaging: default_packaging_text(),
            parent: None,
            dependencies: Seq::empty(),
            dependency_management: Seq::empty(),
            properties: Map::empty(),
        },
        path: Seq::empty(),
        text: Seq::empty(),
        group_id: Seq::empty(),
        artifact_id: Seq::empty(),
        version: Seq::empty(),
        scope: DependencyScope::Compile,
        optional: false,
        in_dependency: false,
        in_parent: false,
        in_properties: false,
        in_dependency_management: false,
        in_exclusion: false,
        prop_name: Seq::empty(),
    }
}

/// The state after an opening tag.
#[verifier::opaque]
pub open spec fn started(st: ParserView, name: Seq<char>) -> ParserView {
    let st = ParserView { path: st.path.push(name), ..st };
    if name == "dependency"@ {
        ParserView {
            in_dependency: true,
            group_id: Seq::empty(),
            artifact_id: Seq::empty(),
            version: Seq::empty(),
            scope: DependencyScope::Compile,
            optional: false,
            ..st
        }
    } else if name == "exclusion"@ {
        ParserView { in_exclusion: true, ..st }
    } else if name == "parent"@ {
        ParserView { in_parent: true, ..st }
    } else if name == "properties"@ {
        ParserView { in_properties: true, ..st }
    } else if name == "dependencyManagement"@ {
        ParserView { in_dependency_management: true, ..st }
    } else if st.in_properties && st.path.len() == 3 {
        ParserView { prop_name: name, ..st }
    } else {
        st
    }
}

/// The dependency that the state has collected.
pub open spec fn collected_dependency(st: ParserView) -> DependencyView {
    DependencyView {
        group_id: st.group_id,
        artifact_id: st.artifact_id,
        version: if st.version.len() == 0 {
            None
        } else {
            Some(st.version)
        },
        scope: st.scope,
        optional: st.optional,
        exclusions: Seq::empty(),
    }
}

/// The parent that the state has collected.
pub open spec fn collected_parent(st: ParserView) -> CoordinateView {
    CoordinateView {
        group_id: st.group_id,
        artifact_id: st.artifact_id,
        version: st.version,
        classifier: None,
        packaging: default_packaging_text(),
    }
}

/// What a closing tag does, before the element is left.
pub open spec fn closed(st: ParserView, name: Seq<char>) -> ParserView {
    if name == "dependency"@ && st.in_dependency {
        let dep = collected_dependency(st);
        let pom = if st.in_dependency_management {
            PomView { dependency_management: st.pom.dependency_management.push(dep), ..st.pom }
        } else {
            PomView { dependencies: st.pom.dependencies.push(dep), ..st.pom }
        };
        ParserView { pom, in_dependency: false, ..st }
    } else if name == "exclusion"@ {
        ParserView { in_exclusion: false, ..st }
    } else if name == "parent"@ {
        ParserView {
            pom: PomView { parent: Some(collected_parent(st)), ..st.pom },
            in_parent: false,
            group_id: Seq::empty(),
            artifact_id: Seq::empty(),
            version: Seq::empty(),
            ..st
        }
    } else if name == "properties"@ {
        ParserView { in_properties: false, ..st }
    } else if name == "dependencyManagement"@ {
        ParserView { in_dependency_management: false, ..st }
    } else if st.in_properties && st.prop_name.len() > 0 {
        ParserView {
            pom: PomView { properties: st.pom.properties.insert(st.prop_name, st.text), ..st.pom },
            prop_name: Seq::empty(),
            ..st
        }
    } else {
        st
    }
}

/// The state after a closing tag.
#[verifier::opaque]
pub open spec fn ended(st: ParserView, name: Seq<char>) -> ParserView {
    let st = closed(st, name);
    ParserView {
        path: if st.path.len() > 0 {
            st.path.drop_last()
        } else {
            st.path
        },
        text: Seq::empty(),
        ..st
    }
}

/// The state after character data.
#[verifier::opaque]
pub open spec fn texted(st: ParserView, t: Seq<char>) -> ParserView {
    let st = ParserView { text: t, ..st };
    if st.path.len() == 0 {
        st
    } else {
        let element = st.path.last();
        let top_level = st.path.len() == 2;
        if element == "packaging"@ {
            if top_level {
                ParserView { pom: PomView { packaging: t, ..st.pom }, ..st }
            } else {
                st
            }
        } else if element == "groupId"@ {
            if st.in_exclusion {
                st
            } else if st.in_dependency || st.in_parent {
                ParserView { group_id: t, ..st }
            } else if top_level {
                ParserView {
                    pom: PomView {
                        coordinate: CoordinateView { group_id: t, ..st.pom.coordinate },
                        ..st.pom
                    },
                    ..st
                }
            } else {
                st
            }
        } else if element == "artifactId"@ {
            if st.in_exclusion {
                st
            } else if st.in_dependency || st.in_parent {
                ParserView { artifact_id: t, ..st }
            } else if top_level {
                ParserView {
                    pom: PomView {
                        coordinate: CoordinateView { artifact_id: t, ..st.pom.coordinate },
                        ..st.pom
                    },
                    ..st
                }
            } else {
                st
            }
        } else if element == "version"@ {
            if st.in_dependency || st.in_parent {
                ParserView { version: t, ..st }
            } else if top_level {
                ParserView {
                    pom: PomView {
                        coordinate: CoordinateView { version: t, ..st.pom.coordinate },
                        ..st.pom
                    },
                    ..st
                }
            } else {
                st
            }
        } else if element == "scope"@ && st.in_dependency {
            ParserView { scope: scope_of(t), ..st }
        } else if element == "optional"@ && st.in_dependency {
            ParserView { optional: t == "true"@, ..st }
        } else {
            st
        }
    }
}

/// The state after one event. An event that ends the reading changes
/// nothing.
pub open spec fn stepped(st: ParserView, event: XmlEvent) -> ParserView {
    match event {
        XmlEvent::Start(name) => started(st, name),
        XmlEvent::End(name) => ended(st, name),
        XmlEvent::Text(t) => texted(st, t),
        XmlEvent::Other => st,
        XmlEvent::Eof => st,
        XmlEvent::Failure(_) => st,
    }
}

/// The state after the events of a document, or the reader's message if it
/// failed. Reading stops at the first end of document or failure, or where
/// the events run out.
#[verifier::opaque]
pub open spec fn run(events: Seq<XmlEvent>, st: ParserView) -> Result<ParserView, Seq<char>>
    decreases events.len(),
{
    if events.len() == 0 {
        Ok(st)
    } else {
        match events[0] {
            XmlEvent::Eof => Ok(st),
            XmlEvent::Failure(m) => Err(m),
            e => run(events.skip(1), stepped(st, e)),
        }
    }
}

/// How `run` goes over the event at position `i`.
pub proof fn lemma_run_step(events: Seq<XmlEvent>, i: int, st: ParserView)
    requires
        0 <= i < events.len(),
    ensures
        run(events.skip(i), st) == (match events[i] {
            XmlEvent::Eof => Ok::<ParserView, Seq<char>>(st),
            XmlEvent::Failure(m) => Err::<ParserView, Seq<char>>(m),
            e => run(events.skip(i + 1), stepped(st, e)),
        }),
{
    reveal(run);
    assert(events.skip(i)[0] == events[i]);
    assert(events.skip(i).skip(1) == events.skip(i + 1));
}

/// The manifest that the last state stands for: the implicit properties
/// are added, and every dependency and managed dependency is resolved
/// against the properties.
pub open spec fn finished(st: ParserView) -> PomView {
    let props = with_project_properties(st.pom.properties, st.pom.coordinate);
    PomView {
        properties: props,
        dependencies: resolved_dependencies(st.pom.dependencies, props),
        dependency_management: resolved_dependencies(st.pom.dependency_management, props),
        ..st.pom
    }
}

/// The manifest that a document's events describe, or the parse error.
pub open spec fn manifest_of(events: Seq<XmlEvent>) -> Result<PomView, MavenErrorView> {
    match run(events, initial()) {
        Ok(st) => Ok(finished(st)),
        Err(m) => Err(MavenErrorView::XmlParse { message: "XML parse error: "@ + m }),
    }
}

/// Whether a response is an HTML page: after trimming it begins with
/// `<!DOCTYPE` or `<html`.
pub open spec fn looks_like_html(text: Seq<char>) -> bool {
    "<!DOCTYPE"@.is_prefix_of(trimmed(text)) || "<html"@.is_prefix_of(trimmed(text))
}

/// The message of the error for an HTML page in place of a manifest.
pub open spec fn html_message() -> Seq<char> {
    "Received HTML response instead of POM XML (likely 404 or server error from Maven Central)"@
}

/// What `parse_pom` makes of a text.
pub open spec fn parsed_manifest(text: Seq<char>) -> Result<PomView, MavenErrorView> {
    if looks_like_html(text) {
        Err(MavenErrorView::XmlParse { message: html_message() })
    } else {
        manifest_of(xml_events(text))
    }
}

/// Whether an exec result is what a spec result says.
pub open spec fn manifest_matches(
    r: Result<Pom, MavenError>,
    expected: Result<PomView, MavenErrorView>,
) -> bool {
    match r {
        Ok(pom) => expected == Ok::<PomView, MavenErrorView>(pom@),
        Err(e) => expected == Err::<PomView, MavenErrorView>(e@),
    }
}

/// The scope that `text` names.
pub fn parse_scope(text: &str) -> (scope: DependencyScope)
    ensures
        scope == scope_of(text@),
{
    if equals(text, "runtime") {
        DependencyScope::Runtime
    } else if equals(text, "test") {
        DependencyScope::Test
    } else if equals(text, "provided") {
        DependencyScope::Provided
    } else if equals(text, "system") {
        DependencyScope::System
    } else if equals(text, "import") {
        DependencyScope::Import
    } else {
        DependencyScope::Compile
    }
}

impl PomParser {
    /// The state before the first event.
    pub fn new() -> (p: Self)
        ensures
            p@ == initial(),
    {
        let p = PomParser {
            pom: Pom {
                coordinate: Coordinate {
                    group_id: String::new(),
                    artifact_id: String::new(),
                    version: String::new(),
                    classifier: None,
                    packaging: default_packaging(),
                },
                packaging: default_packaging(),
                parent: None,
                dependencies: Vec::new(),
                dependency_management: Vec::new(),
                properties: StringMap::new(),
            },
            current_path: Vec::new(),
            current_text: String::new(),
            group_id: String::new(),
            artifact_id: String::new(),
            version: String::new(),
            scope: DependencyScope::Compile,
            optional: false,
            in_dependency: false,
            in_parent: false,
            in_properties: false,
            in_dependency_management: false,
            in_exclusion: false,
            prop_name: String::new(),
        };
        proof {
            assert(p@.pom.dependencies =~= Seq::empty());
            assert(p@.pom.dependency_management =~= Seq::empty());
            assert(p@.pom.properties =~= Map::empty());
            assert(p@.path =~= Seq::empty());
        }
        p
    }

    /// Takes in an opening tag.
    pub fn on_start(&mut self, name: String)
        ensures
            final(self)@ == started(old(self)@, name@),
    {
        reveal(started);
        proof {
            assert(views(self.current_path@.push(name)) =~= views(self.current_path@).push(name@));
        }
        let is_dependency = equals(name.as_str(), "dependency");
        let is_exclusion = equals(name.as_str(), "exclusion");
        let is_parent = equals(name.as_str(), "parent");
        let is_properties = equals(name.as_str(), "properties");
        let is_management = equals(name.as_str(), "dependencyManagement");
        self.current_path.push(name.clone());
        if is_dependency {
            self.in_dependency = true;
            self.group_id = String::new();
            self.artifact_id = String::new();
            self.version = String::new();
            self.scope = DependencyScope::Compile;
            self.optional = false;
        } else if is_exclusion {
            self.in_exclusion = true;
        } else if is_parent {
            self.in_parent = true;
        } else if is_properties {
            self.in_properties = true;
        } else if is_management {
            self.in_dependency_management = true;
        } else if self.in_properties && self.current_path.len() == 3 {
            self.prop_name = name;
        }
    }

    /// Takes in a closing tag.
    pub fn on_end(&mut self, name: &str)
        ensures
            final(self)@ == ended(old(self)@, name@),
    {
        reveal(ended);
        if equals(name, "dependency") && self.in_dependency {
            let dep = PomDependency {
                group_id: self.group_id.clone(),
                artifact_id: self.artifact_id.clone(),
                version: if self.version.as_str().is_empty() {
                    None
                } else {
                    Some(self.version.clone())
                },
                scope: self.scope,
                optional: self.optional,
                exclusions: Vec::new(),
            };
            proof {
                assert(dep@.exclusions =~= Seq::empty());
                assert(dep@ == collected_dependency(old(self)@));
            }
            if self.in_dependency_management {
                proof {
                    assert(dependency_views(self.pom.dependency_management@.push(dep))
                        =~= dependency_views(self.pom.dependency_management@).push(dep@));
                }
                self.pom.dependency_management.push(dep);
            } else {
                proof {
                    assert(dependency_views(self.pom.dependencies@.push(dep)) =~= dependency_views(
                        self.pom.dependencies@,
                    ).push(dep@));
                }
                self.pom.dependencies.push(dep);
            }
            self.in_dependency = false;
        } else if equals(name, "exclusion") {
            self.in_exclusion = false;
        } else if equals(name, "parent") {
            self.pom.parent = Some(
                Coordinate {
                    group_id: self.group_id.clone(),
                    artifact_id: self.artifact_id.clone(),
                    version: self.version.clone(),
                    classifier: None,
                    packaging: default_packaging(),
                },
            );
            self.in_parent = false;
            self.group_id = String::new();
            self.artifact_id = String::new();
            self.version = String::new();
        } else if equals(name, "properties") {
            self.in_properties = false;
        } else if equals(name, "dependencyManagement") {
            self.in_dependency_management = false;
        } else if self.in_properties && !self.prop_name.as_str().is_empty() {
            self.pom.properties.insert(self.prop_name.clone(), self.current_text.clone());
            proof {
                assert(text_map(self.pom.properties@) =~= text_map(old(self).pom.properties@).insert(
                    old(self).prop_name@,
                    old(self).current_text@,
                ));
            }
            self.prop_name = String::new();
        }
        assert(self@ == (ParserView { path: old(self)@.path, text: old(self)@.text, ..closed(old(self)@, name@) }));
        if self.current_path.len() > 0 {
            proof {
                assert(views(self.current_path@.drop_last()) =~= views(
                    self.current_path@,
                ).drop_last());
            }
            self.current_path.pop();
        }
        self.current_text = String::new();
    }

    /// Takes in character data.
    pub fn on_text(&mut self, text: String)
        ensures
            final(self)@ == texted(old(self)@, text@),
    {
        reveal(texted);
        self.current_text = text.clone();
        let depth = self.current_path.len();
        if depth == 0 {
            return ;
        }
        proof {
            assert(views(self.current_path@).last() == self.current_path@[depth - 1]@);
        }
        let top_level = depth == 2;
        let nested = self.in_dependency || self.in_parent;
        let element = self.current_path[depth - 1].clone();
        if equals(element.as_str(), "packaging") {
            if top_level {
                self.pom.packaging = text;
            }
        } else if equals(element.as_str(), "groupId") {
            if self.in_exclusion {
            } else if nested {
                self.group_id = text;
            } else if top_level {
                self.pom.coordinate.group_id = text;
            }
        } else if equals(element.as_str(), "artifactId") {
            if self.in_exclusion {
            } else if nested {
                self.artifact_id = text;
            } else if top_level {
                self.pom.coordinate.artifact_id = text;
            }
        } else if equals(element.as_str(), "version") {
            if nested {
                self.version = text;
            } else if top_level {
                self.pom.coordinate.version = text;
            }
        } else if equals(element.as_str(), "scope") && self.in_dependency {
            self.scope = parse_scope(text.as_str());
        } else if equals(element.as_str(), "optional") && self.in_dependency {
            self.optional = equals(text.as_str(), "true");
        }
    }

    /// Takes in one event.
    pub fn step(&mut self, token: &XmlToken)
        ensures
            final(self)@ == stepped(old(self)@, token@),
    {
        match token {
            XmlToken::Start(name) => {
                self.on_start(name.clone());
            },
            XmlToken::End(name) => {
                self.on_end(name.as_str());
            },
            XmlToken::Text(text) => {
                self.on_text(text.clone());
            },
            XmlToken::Other => {},
            XmlToken::Eof => {},
            XmlToken::Failure(_) => {},
        }
    }

    /// The manifest that this state stands for.
    pub fn finish(self) -> (pom: Pom)
        ensures
            pom@ == finished(self@),
    {
        let mut pom = self.pom;
        inject_project_properties(&mut pom);
        pom.dependencies = resolve_dependencies(&pom.dependencies, &pom.properties);
        pom.dependency_management = resolve_dependencies(
            &pom.dependency_management,
            &pom.properties,
        );
        pom
    }
}

/// The manifest that a document's events describe. Reading stops at the
/// first end of document, or fails at the first failure with the reader's
/// message.
pub fn pom_from_tokens(tokens: &Vec<XmlToken>) -> (r: Result<Pom, MavenError>)
    ensures
        manifest_matches(r, manifest_of(token_views(tokens@))),
{
    let ghost events = token_views(tokens@);
    let mut parser = PomParser::new();
    let n = tokens.len();
    let mut i: usize = 0;
    proof {
        assert(events.skip(0) == events);
    }
    while i < n
        invariant
            i <= n,
            n == tokens.len(),
            events == token_views(tokens@),
            run(events.skip(i as int), parser@) == run(events, initial()),
        decreases n - i,
    {
        let ghost before = parser@;
        proof {
            assert(events[i as int] == tokens@[i as int]@);
            lemma_run_step(events, i as int, before);
        }
        match &tokens[i] {
            XmlToken::Eof => {
                return Ok(parser.finish());
            },
            XmlToken::Failure(message) => {
                return Err(
                    MavenError::XmlParse {
                        message: prefixed("XML parse error: ", message.as_str()),
                    },
                );
            },
            token => {
                parser.step(token);
            },
        }
        i += 1;
    }
    proof {
        reveal(run);
        assert(events.skip(n as int).len() == 0);
    }
    Ok(parser.finish())
}

/// Reads a manifest. A response that is an HTML page is refused before any
/// parsing, so that a repository's error page is never taken for an empty
/// manifest.
pub fn parse_pom(xml: &str) -> (r: Result<Pom, MavenError>)
    ensures
        manifest_matches(r, parsed_manifest(xml@)),
{
    let head = trim(xml);
    if starts_with(head.as_str(), "<!DOCTYPE") || starts_with(head.as_str(), "<html") {
        return Err(
            MavenError::XmlParse {
                message: "Received HTML response instead of POM XML (likely 404 or server error from Maven Central)".to_owned(),
            },
        );
    }
    pom_from_tokens(&read_tokens(xml))
}


/// A text that looks like an HTML page is refused with a parse error,
/// whatever its events would be.
pub proof fn lemma_html_is_refused(text: Seq<char>)
    requires
        looks_like_html(text),
    ensures
        parsed_manifest(text) == Err::<PomView, MavenErrorView>(
            MavenErrorView::XmlParse { message: html_message() },
        ),
{
}

/// A text that begins with `<!DOCTYPE` or `<html`, after any whitespace,
/// looks like an HTML page, whatever follows.
pub proof fn lemma_page_looks_like_html(lead: Seq<char>, page: Seq<char>)
    requires
        forall|i: int| 0 <= i < lead.len() ==> white_space(#[trigger] lead[i]),
        "<!DOCTYPE"@.is_prefix_of(page) || "<html"@.is_prefix_of(page),
    ensures
        looks_like_html(lead + page),
{
    reveal_strlit("<!DOCTYPE");
    reveal_strlit("<html");
    let text = lead + page;
    let mark = if "<!DOCTYPE"@.is_prefix_of(page) {
        "<!DOCTYPE"@
    } else {
        "<html"@
    };
    assert(mark.len() > 0 && mark.is_prefix_of(page));
    assert(page[0] == mark[0]);
    assert(!white_space(page[0]));
    assert(!white_space(mark.last()));
    assert(page[mark.len() - 1] == mark.last());
    lemma_leading_whitespace_is(text, lead.len() as int);
    assert(text.skip(lead.len() as int) =~= page);
    let n = trailing_whitespace(page);
    lemma_trailing_whitespace_blank(page);
    if page.len() - n < mark.len() {
        assert(white_space(page[mark.len() - 1]));
    }
    assert(mark.is_prefix_of(page.take(page.len() - n)));
    assert(trimmed(text) == page.take(page.len() - n));
}

} // verus!
