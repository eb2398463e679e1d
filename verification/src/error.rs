//! What can go wrong while manifests are fetched and read.

use crate::text::{decimal, decimal_string};
use vstd::prelude::*;
use vstd::string::*;

verus! {

/// An error of the repository client or the manifest parser.
#[derive(Debug)]
pub enum MavenError {
    /// Reading or writing a file failed.
    Io(String),
    /// The transport could not complete the request.
    Http(String),
    /// The repository answered with a status outside 200..=299.
    HttpStatus { status: u16, url: String },
    /// A response was not the JSON that was expected.
    JsonParse { message: String },
    /// A response body was not UTF-8.
    InvalidUtf8 { message: String },
    /// A manifest could not be parsed.
    XmlParse { message: String },
    /// A text is no coordinate.
    InvalidCoordinate { input: String },
    /// The repositories do not have the artifact.
    ArtifactNotFound { coordinate: String },
    /// The repositories do not have the manifest.
    PomNotFound { path: String },
    /// The project configuration is at fault.
    Config(AppError),
}

/// A `MavenError`, as plain text.
pub ghost enum MavenErrorView {
    Io(Seq<char>),
    Http(Seq<char>),
    HttpStatus { status: u16, url: Seq<char> },
    JsonParse { message: Seq<char> },
    InvalidUtf8 { message: Seq<char> },
    XmlParse { message: Seq<char> },
    InvalidCoordinate { input: Seq<char> },
    ArtifactNotFound { coordinate: Seq<char> },
    PomNotFound { path: Seq<char> },
    Config(Seq<char>),
}

impl View for MavenError {
    type V = MavenErrorView;

    open spec fn view(&self) -> MavenErrorView {
        match *self {
            MavenError::Io(m) => MavenErrorView::Io(m@),
            MavenError::Http(m) => MavenErrorView::Http(m@),
            MavenError::HttpStatus { status, url } => MavenErrorView::HttpStatus {
                status,
                url: url@,
            },
            MavenError::JsonParse { message } => MavenErrorView::JsonParse { message: message@ },
            MavenError::InvalidUtf8 { message } => MavenErrorView::InvalidUtf8 {
                message: message@,
            },
            MavenError::XmlParse { message } => MavenErrorView::XmlParse { message: message@ },
            MavenError::InvalidCoordinate { input } => MavenErrorView::InvalidCoordinate {
                input: input@,
            },
            MavenError::ArtifactNotFound { coordinate } => MavenErrorView::ArtifactNotFound {
                coordinate: coordinate@,
            },
            MavenError::PomNotFound { path } => MavenErrorView::PomNotFound { path: path@ },
            MavenError::Config(e) => MavenErrorView::Config(e.message()),
        }
    }
}

impl MavenErrorView {
    /// The message that is shown for the error.
    pub open spec fn message(self) -> Seq<char> {
        match self {
            MavenErrorView::Io(m) => "IO error: "@ + m,
            MavenErrorView::Http(m) => "HTTP error: "@ + m,
            MavenErrorView::HttpStatus { status, url } => "HTTP status "@ + decimal(status as nat)
                + " for "@ + url,
            MavenErrorView::JsonParse { message } => "JSON parse error: "@ + message,
            MavenErrorView::InvalidUtf8 { message } => "Invalid UTF-8 response: "@ + message,
            MavenErrorView::XmlParse { message } => "XML parse error: "@ + message,
            MavenErrorView::InvalidCoordinate { input } => "Invalid coordinate format: "@ + input,
            MavenErrorView::ArtifactNotFound { coordinate } => "Artifact not found: "@ + coordinate,
            MavenErrorView::PomNotFound { path } => "POM not found: "@ + path,
            MavenErrorView::Config(m) => "Configuration error: "@ + m,
        }
    }
}

/// `prefix` followed by `rest`.
pub fn prefixed(prefix: &str, rest: &str) -> (r: String)
    ensures
        r@ == prefix@ + rest@,
{
    let mut r = prefix.to_owned();
    r.append(rest);
    r
}

impl MavenError {
    /// The message that is shown for the error.
    pub fn to_string(&self) -> (r: String)
        ensures
            r@ == self@.message(),
    {
        match self {
            MavenError::Io(m) => prefixed("IO error: ", m.as_str()),
            MavenError::Http(m) => prefixed("HTTP error: ", m.as_str()),
            MavenError::HttpStatus { status, url } => {
                let mut r = prefixed("HTTP status ", decimal_string(*status as u64).as_str());
                r.append(" for ");
                r.append(url.as_str());
                r
            },
            MavenError::JsonParse { message } => prefixed("JSON parse error: ", message.as_str()),
            MavenError::InvalidUtf8 { message } => prefixed(
                "Invalid UTF-8 response: ",
                message.as_str(),
            ),
            MavenError::XmlParse { message } => prefixed("XML parse error: ", message.as_str()),
            MavenError::InvalidCoordinate { input } => prefixed(
                "Invalid coordinate format: ",
                input.as_str(),
            ),
            MavenError::ArtifactNotFound { coordinate } => prefixed(
                "Artifact not found: ",
                coordinate.as_str(),
            ),
            MavenError::PomNotFound { path } => prefixed("POM not found: ", path.as_str()),
            MavenError::Config(e) => prefixed("Configuration error: ", e.to_string().as_str()),
        }
    }
}

impl Clone for MavenError {
    fn clone(&self) -> (r: Self)
        ensures
            r == *self,
    {
        match self {
            MavenError::Io(m) => MavenError::Io(m.clone()),
            MavenError::Http(m) => MavenError::Http(m.clone()),
            MavenError::HttpStatus { status, url } => MavenError::HttpStatus {
                status: *status,
                url: url.clone(),
            },
            MavenError::JsonParse { message } => MavenError::JsonParse { message: message.clone() },
            MavenError::InvalidUtf8 { message } => MavenError::InvalidUtf8 {
                message: message.clone(),
            },
            MavenError::XmlParse { message } => MavenError::XmlParse { message: message.clone() },
            MavenError::InvalidCoordinate { input } => MavenError::InvalidCoordinate {
                input: input.clone(),
            },
            MavenError::ArtifactNotFound { coordinate } => MavenError::ArtifactNotFound {
                coordinate: coordinate.clone(),
            },
            MavenError::PomNotFound { path } => MavenError::PomNotFound { path: path.clone() },
            MavenError::Config(e) => MavenError::Config(e.clone()),
        }
    }
}


/// An error of dependency resolution.
#[derive(Debug)]
pub enum ResolverError {
    /// Reading or writing a file failed.
    Io(String),
    /// A manifest could not be fetched or read.
    Maven(MavenError),
    /// A dependency leads back to itself.
    CircularDependency { path: String },
    /// A dependency is nowhere to be found.
    DependencyNotFound { coordinate: String },
    /// Several versions of one artifact were asked for.
    VersionConflict { artifact: String, versions: Vec<String> },
    /// The project configuration is at fault.
    Config(AppError),
}

/// The text of a list of strings in `Debug` form, as `{:?}` writes it.
pub uninterp spec fn debug_list_text(items: Seq<Seq<char>>) -> Seq<char>;

/// `format!("{:?}", items)`: the list in `Debug` form.
#[verifier::external_body]
fn debug_list(items: &Vec<String>) -> (r: String)
    ensures
        r@ == debug_list_text(crate::text::views(items@)),
{
    format!("{:?}", items)
}

impl ResolverError {
    /// The message that is shown for the error.
    pub open spec fn message(self) -> Seq<char> {
        match self {
            ResolverError::Io(m) => "IO error: "@ + m@,
            ResolverError::Maven(e) => "Maven error: "@ + e@.message(),
            ResolverError::CircularDependency { path } => "Circular dependency detected: "@
                + path@,
            ResolverError::DependencyNotFound { coordinate } => "Dependency not found: "@
                + coordinate@,
            ResolverError::VersionConflict { artifact, versions } => "Version conflict for "@
                + artifact@ + ": "@ + debug_list_text(crate::text::views(versions@)),
            ResolverError::Config(e) => "Configuration error: "@ + e.message(),
        }
    }

    /// The message that is shown for the error.
    pub fn to_string(&self) -> (r: String)
        ensures
            r@ == self.message(),
    {
        match self {
            ResolverError::Io(m) => prefixed("IO error: ", m.as_str()),
            ResolverError::Maven(e) => prefixed("Maven error: ", e.to_string().as_str()),
            ResolverError::CircularDependency { path } => prefixed(
                "Circular dependency detected: ",
                path.as_str(),
            ),
            ResolverError::DependencyNotFound { coordinate } => prefixed(
                "Dependency not found: ",
                coordinate.as_str(),
            ),
            ResolverError::VersionConflict { artifact, versions } => {
                let mut r = prefixed("Version conflict for ", artifact.as_str());
                r.append(": ");
                r.append(debug_list(versions).as_str());
                r
            },
            ResolverError::Config(e) => prefixed("Configuration error: ", e.to_string().as_str()),
        }
    }
}


/// An error of the project configuration and of the tools around it.
#[derive(Debug)]
pub enum AppError {
    /// Reading or writing a file failed.
    Io(String),
    /// The configuration file is not the TOML that was expected.
    TomlParse(String),
    /// The configuration could not be written as TOML.
    TomlSerialize(String),
    /// There is no configuration file.
    ConfigNotFound { path: String },
    /// A dependency is not written as `group:artifact`.
    InvalidDependency { input: String },
    /// The configuration has no such dependency.
    DependencyNotFound { group_id: String, artifact_id: String },
    /// The compiler refused the sources.
    CompilationFailed { message: String },
    /// The tests could not be run.
    TestExecutionFailed { message: String },
    /// No Java compiler was found.
    JavacNotFound,
    /// The class path holds no known test framework.
    TestFrameworkNotDetected { available: String },
    /// A source directory does not exist.
    SourceDirNotFound { path: String },
}

impl AppError {
    /// The message that is shown for the error.
    pub open spec fn message(self) -> Seq<char> {
        match self {
            AppError::Io(m) => "IO error: "@ + m@,
            AppError::TomlParse(m) => "TOML parse error: "@ + m@,
            AppError::TomlSerialize(m) => "TOML serialize error: "@ + m@,
            AppError::ConfigNotFound { path } => "Config not found: "@ + path@,
            AppError::InvalidDependency { input } => "Invalid dependency format: "@ + input@,
            AppError::DependencyNotFound { group_id, artifact_id } => "Dependency not found: "@
                + group_id@ + ":"@ + artifact_id@,
            AppError::CompilationFailed { message } => "Compilation failed: "@ + message@,
            AppError::TestExecutionFailed { message } => "Test execution failed: "@ + message@,
            AppError::JavacNotFound => "Java compiler not found in PATH"@,
            AppError::TestFrameworkNotDetected { available } =>
                "Test framework not detected. Available: "@ + available@,
            AppError::SourceDirNotFound { path } => "Source directory not found: "@ + path@,
        }
    }

    /// The message that is shown for the error.
    pub fn to_string(&self) -> (r: String)
        ensures
            r@ == self.message(),
    {
        match self {
            AppError::Io(m) => prefixed("IO error: ", m.as_str()),
            AppError::TomlParse(m) => prefixed("TOML parse error: ", m.as_str()),
            AppError::TomlSerialize(m) => prefixed("TOML serialize error: ", m.as_str()),
            AppError::ConfigNotFound { path } => prefixed("Config not found: ", path.as_str()),
            AppError::InvalidDependency { input } => prefixed(
                "Invalid dependency format: ",
                input.as_str(),
            ),
            AppError::DependencyNotFound { group_id, artifact_id } => {
                let mut r = prefixed("Dependency not found: ", group_id.as_str());
                r.append(":");
                r.append(artifact_id.as_str());
                r
            },
            AppError::CompilationFailed { message } => prefixed(
                "Compilation failed: ",
                message.as_str(),
            ),
            AppError::TestExecutionFailed { message } => prefixed(
                "Test execution failed: ",
                message.as_str(),
            ),
            AppError::JavacNotFound => "Java compiler not found in PATH".to_owned(),
            AppError::TestFrameworkNotDetected { available } => prefixed(
                "Test framework not detected. Available: ",
                available.as_str(),
            ),
            AppError::SourceDirNotFound { path } => prefixed(
                "Source directory not found: ",
                path.as_str(),
            ),
        }
    }
}

impl Clone for AppError {
    fn clone(&self) -> (r: Self)
        ensures
            r == *self,
    {
        match self {
            AppError::Io(m) => AppError::Io(m.clone()),
            AppError::TomlParse(m) => AppError::TomlParse(m.clone()),
            AppError::TomlSerialize(m) => AppError::TomlSerialize(m.clone()),
            AppError::ConfigNotFound { path } => AppError::ConfigNotFound { path: path.clone() },
            AppError::InvalidDependency { input } => AppError::InvalidDependency {
                input: input.clone(),
            },
            AppError::DependencyNotFound { group_id, artifact_id } => AppError::DependencyNotFound {
                group_id: group_id.clone(),
                artifact_id: artifact_id.clone(),
            },
            AppError::CompilationFailed { message } => AppError::CompilationFailed {
                message: message.clone(),
            },
            AppError::TestExecutionFailed { message } => AppError::TestExecutionFailed {
                message: message.clone(),
            },
            AppError::JavacNotFound => AppError::JavacNotFound,
            AppError::TestFrameworkNotDetected { available } => AppError::TestFrameworkNotDetected {
                available: available.clone(),
            },
            AppError::SourceDirNotFound { path } => AppError::SourceDirNotFound {
                path: path.clone(),
            },
        }
    }
}

/// An error of a build.
#[derive(Debug)]
pub enum BuildError {
    /// Reading or writing a file failed.
    Io(String),
    /// No Java compiler was found.
    JavacNotFound,
    /// The compiler refused the sources.
    CompilationFailed { message: String },
    /// The tests could not be run, or some failed.
    TestExecutionFailed { message: String },
    /// A source directory does not exist.
    SourceDirNotFound { path: String },
    /// The class path holds no known test framework.
    TestFrameworkNotDetected { available: String },
    /// A dependency is not written as `group:artifact`.
    InvalidDependency { input: String },
    /// A manifest could not be fetched or read.
    Maven(MavenError),
    /// The dependencies could not be resolved.
    Resolver(ResolverError),
    /// The configuration is at fault.
    Core(AppError),
}

impl BuildError {
    /// The message that is shown for the error.
    pub open spec fn message(self) -> Seq<char> {
        match self {
            BuildError::Io(m) => "IO error: "@ + m@,
            BuildError::JavacNotFound => "Java compiler (javac) not found in PATH"@,
            BuildError::CompilationFailed { message } => "Compilation failed: "@ + message@,
            BuildError::TestExecutionFailed { message } => "Test execution failed: "@ + message@,
            BuildError::SourceDirNotFound { path } => "Source directory not found: "@ + path@,
            BuildError::TestFrameworkNotDetected { available } =>
                "Test framework not detected. Available: "@ + available@,
            BuildError::InvalidDependency { input } => "Invalid dependency format: "@ + input@,
            BuildError::Maven(e) => "Maven error: "@ + e@.message(),
            BuildError::Resolver(e) => "Dependency resolution error: "@ + e.message(),
            BuildError::Core(e) => "Core error: "@ + e.message(),
        }
    }

    /// The message that is shown for the error.
    pub fn to_string(&self) -> (r: String)
        ensures
            r@ == self.message(),
    {
        match self {
            BuildError::Io(m) => prefixed("IO error: ", m.as_str()),
            BuildError::JavacNotFound => "Java compiler (javac) not found in PATH".to_owned(),
            BuildError::CompilationFailed { message } => prefixed(
                "Compilation failed: ",
                message.as_str(),
            ),
            BuildError::TestExecutionFailed { message } => prefixed(
                "Test execution failed: ",
                message.as_str(),
            ),
            BuildError::SourceDirNotFound { path } => prefixed(
                "Source directory not found: ",
                path.as_str(),
            ),
            BuildError::TestFrameworkNotDetected { available } => prefixed(
                "Test framework not detected. Available: ",
                available.as_str(),
            ),
            BuildError::InvalidDependency { input } => prefixed(
                "Invalid dependency format: ",
                input.as_str(),
            ),
            BuildError::Maven(e) => prefixed("Maven error: ", e.to_string().as_str()),
            BuildError::Resolver(e) => prefixed(
                "Dependency resolution error: ",
                e.to_string().as_str(),
            ),
            BuildError::Core(e) => prefixed("Core error: ", e.to_string().as_str()),
        }
    }

    /// The build error for a failed resolution: an I/O, manifest or
    /// configuration error is passed on as such, any other becomes a failed
    /// compilation with the error's message.
    pub fn from_resolver(e: ResolverError) -> (r: Self)
        ensures
            match e {
                ResolverError::Io(m) => r == BuildError::Io(m),
                ResolverError::Maven(inner) => r == BuildError::Maven(inner),
                ResolverError::Config(inner) => r == BuildError::Core(inner),
                _ => r is CompilationFailed && r->CompilationFailed_message@ == e.message(),
            },
    {
        match e {
            ResolverError::Io(m) => BuildError::Io(m),
            ResolverError::Maven(inner) => BuildError::Maven(inner),
            ResolverError::Config(inner) => BuildError::Core(inner),
            other => BuildError::CompilationFailed { message: other.to_string() },
        }
    }
}

/// An error while editor files are written.
#[derive(Debug)]
pub enum IdeError {
    /// The build behind the editor files failed.
    Build(BuildError),
    /// The configuration is at fault.
    Core(AppError),
    /// Reading or writing a file failed.
    Io(String),
}

impl IdeError {
    /// The message that is shown for the error.
    pub open spec fn message(self) -> Seq<char> {
        match self {
            IdeError::Build(e) => "Build error: "@ + e.message(),
            IdeError::Core(e) => "Core error: "@ + e.message(),
            IdeError::Io(m) => "IO error: "@ + m@,
        }
    }

    /// The message that is shown for the error.
    pub fn to_string(&self) -> (r: String)
        ensures
            r@ == self.message(),
    {
        match self {
            IdeError::Build(e) => prefixed("Build error: ", e.to_string().as_str()),
            IdeError::Core(e) => prefixed("Core error: ", e.to_string().as_str()),
            IdeError::Io(m) => prefixed("IO error: ", m.as_str()),
        }
    }
}

/// The build error that stands for an error of the editor files.
pub fn map_ide_error(error: IdeError) -> (r: BuildError)
    ensures
        r == (match error {
            IdeError::Build(e) => e,
            IdeError::Core(e) => BuildError::Core(e),
            IdeError::Io(m) => BuildError::Io(m),
        }),
{
    match error {
        IdeError::Build(e) => e,
        IdeError::Core(e) => BuildError::Core(e),
        IdeError::Io(m) => BuildError::Io(m),
    }
}

} // verus!
