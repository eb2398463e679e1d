//! Artifact coordinates: group, artifact, version, optional classifier and
//! packaging, with the file names and repository paths derived from them.

use crate::text::{replace_char, replaced, split, split_on, views};
use vstd::prelude::*;
use vstd::std_specs::cmp::PartialEqSpecImpl;
use vstd::string::*;

verus! {

/// An artifact coordinate.
#[derive(Debug, Hash)]
pub struct Coordinate {
    pub group_id: String,
    pub artifact_id: String,
    pub version: String,
    pub classifier: Option<String>,
    pub packaging: String,
}

/// What a coordinate holds, as plain text.
pub ghost struct CoordinateView {
    pub group_id: Seq<char>,
    pub artifact_id: Seq<char>,
    pub version: Seq<char>,
    pub classifier: Option<Seq<char>>,
    pub packaging: Seq<char>,
}

/// Why a text is no coordinate.
#[derive(Debug)]
pub enum CoordinateError {
    /// The text does not have three, four or five segments; it is kept here.
    InvalidFormat(String),
}

/// The packaging of a coordinate that names none.
pub open spec fn default_packaging_text() -> Seq<char> {
    seq!['j', 'a', 'r']
}

/// `group:artifact`, the key under which versions are overridden.
pub open spec fn ga_key(group_id: Seq<char>, artifact_id: Seq<char>) -> Seq<char> {
    group_id + seq![':'] + artifact_id
}

/// What `Coordinate::parse` makes of a text: `g:a:v`, `g:a:packaging:v` or
/// `g:a:packaging:classifier:v`, and nothing else.
pub open spec fn parsed(s: Seq<char>) -> Option<CoordinateView> {
    let parts = split_on(s, ':');
    if parts.len() == 3 {
        Some(
            CoordinateView {
                group_id: parts[0],
                artifact_id: parts[1],
                version: parts[2],
                classifier: None,
                packaging: default_packaging_text(),
            },
        )
    } else if parts.len() == 4 {
        Some(
            CoordinateView {
                group_id: parts[0],
                artifact_id: parts[1],
                version: parts[3],
                classifier: None,
                packaging: parts[2],
            },
        )
    } else if parts.len() == 5 {
        Some(
            CoordinateView {
                group_id: parts[0],
                artifact_id: parts[1],
                version: parts[4],
                classifier: Some(parts[3]),
                packaging: parts[2],
            },
        )
    } else {
        None
    }
}

impl CoordinateView {
    /// `group:artifact:version`: the identity of a coordinate in the graph
    /// and in the set of visited coordinates. Classifier and packaging play
    /// no part in it.
    pub open spec fn key(self) -> Seq<char> {
        self.group_id + seq![':'] + self.artifact_id + seq![':'] + self.version
    }

    /// `group:artifact`.
    pub open spec fn ga(self) -> Seq<char> {
        ga_key(self.group_id, self.artifact_id)
    }

    /// The group with `/` for `.`.
    pub open spec fn group_path(self) -> Seq<char> {
        replaced(self.group_id, '.', '/')
    }

    /// `artifact-version[-classifier].jar`.
    pub open spec fn jar_filename(self) -> Seq<char> {
        match self.classifier {
            Some(c) => self.artifact_id + seq!['-'] + self.version + seq!['-'] + c + seq![
                '.',
                'j',
                'a',
                'r',
            ],
            None => self.artifact_id + seq!['-'] + self.version + seq!['.', 'j', 'a', 'r'],
        }
    }

    /// `artifact-version.pom`.
    pub open spec fn pom_filename(self) -> Seq<char> {
        self.artifact_id + seq!['-'] + self.version + seq!['.', 'p', 'o', 'm']
    }

    /// `group/path/artifact/version`.
    pub open spec fn repo_path(self) -> Seq<char> {
        self.group_path() + seq!['/'] + self.artifact_id + seq!['/'] + self.version
    }
}

impl View for Coordinate {
    type V = CoordinateView;

    open spec fn view(&self) -> CoordinateView {
        CoordinateView {
            group_id: self.group_id@,
            artifact_id: self.artifact_id@,
            version: self.version@,
            classifier: match self.classifier {
                Some(c) => Some(c@),
                None => None,
            },
            packaging: self.packaging@,
        }
    }
}

/// The views of a sequence of coordinates.
pub open spec fn coordinate_views(v: Seq<Coordinate>) -> Seq<CoordinateView> {
    v.map_values(|c: Coordinate| c@)
}

impl Clone for Coordinate {
    fn clone(&self) -> (r: Self)
        ensures
            r == *self,
    {
        Coordinate {
            group_id: self.group_id.clone(),
            artifact_id: self.artifact_id.clone(),
            version: self.version.clone(),
            classifier: match &self.classifier {
                Some(c) => Some(c.clone()),
                None => None,
            },
            packaging: self.packaging.clone(),
        }
    }
}

impl PartialEq for Coordinate {
    fn eq(&self, other: &Self) -> (r: bool) {
        let same_classifier = match &self.classifier {
            Some(a) => match &other.classifier {
                Some(b) => *a == *b,
                None => false,
            },
            None => other.classifier.is_none(),
        };
        self.group_id == other.group_id && self.artifact_id == other.artifact_id && self.version
            == other.version && same_classifier && self.packaging == other.packaging
    }
}

impl Eq for Coordinate {

}

impl PartialEqSpecImpl for Coordinate {
    open spec fn obeys_eq_spec() -> bool {
        true
    }

    open spec fn eq_spec(&self, other: &Self) -> bool {
        self@ == other@
    }
}

/// The packaging of a coordinate that names none: `jar`.
pub fn default_packaging() -> (r: String)
    ensures
        r@ == default_packaging_text(),
{
    proof {
        reveal_strlit("jar");
        assert("jar"@ =~= default_packaging_text());
    }
    "jar".to_owned()
}

impl Coordinate {
    /// A coordinate without classifier, packaged as `jar`.
    pub fn new(group_id: &str, artifact_id: &str, version: &str) -> (c: Self)
        ensures
            c@ == (CoordinateView {
                group_id: group_id@,
                artifact_id: artifact_id@,
                version: version@,
                classifier: None,
                packaging: default_packaging_text(),
            }),
    {
        Coordinate {
            group_id: group_id.to_owned(),
            artifact_id: artifact_id.to_owned(),
            version: version.to_owned(),
            classifier: None,
            packaging: default_packaging(),
        }
    }

    /// Reads `g:a:v`, `g:a:packaging:v` or `g:a:packaging:classifier:v`.
    /// Any other number of segments is refused, and the error keeps the text.
    pub fn parse(s: &str) -> (r: Result<Self, CoordinateError>)
        ensures
            match r {
                Ok(c) => parsed(s@) == Some(c@),
                Err(CoordinateError::InvalidFormat(text)) => parsed(s@) is None && text@ == s@,
            },
    {
        let parts = split(s, ':');
        proof {
            assert(views(parts@).len() == parts.len());
            assert forall|i: int| 0 <= i < parts.len() implies parts@[i]@ == #[trigger] split_on(
                s@,
                ':',
            )[i] by {
                assert(views(parts@)[i] == parts@[i]@);
            }
        }
        if parts.len() == 3 {
            Ok(Coordinate::new(parts[0].as_str(), parts[1].as_str(), parts[2].as_str()))
        } else if parts.len() == 4 {
            Ok(
                Coordinate {
                    group_id: parts[0].clone(),
                    artifact_id: parts[1].clone(),
                    version: parts[3].clone(),
                    classifier: None,
                    packaging: parts[2].clone(),
                },
            )
        } else if parts.len() == 5 {
            Ok(
                Coordinate {
                    group_id: parts[0].clone(),
                    artifact_id: parts[1].clone(),
                    version: parts[4].clone(),
                    classifier: Some(parts[3].clone()),
                    packaging: parts[2].clone(),
                },
            )
        } else {
            Err(CoordinateError::InvalidFormat(s.to_owned()))
        }
    }

    /// The group as a path: `org.slf4j` becomes `org/slf4j`.
    pub fn group_path(&self) -> (r: String)
        ensures
            r@ == self@.group_path(),
    {
        replace_char(self.group_id.as_str(), '.', '/')
    }

    /// The name of the artifact's jar file.
    pub fn jar_filename(&self) -> (r: String)
        ensures
            r@ == self@.jar_filename(),
    {
        let mut r = self.artifact_id.clone();
        r.push('-');
        r.append(self.version.as_str());
        match &self.classifier {
            Some(c) => {
                r.push('-');
                r.append(c.as_str());
            },
            None => {},
        }
        r.push('.');
        r.push('j');
        r.push('a');
        r.push('r');
        proof {
            assert(r@ =~= self@.jar_filename());
        }
        r
    }

    /// The name of the artifact's manifest file.
    pub fn pom_filename(&self) -> (r: String)
        ensures
            r@ == self@.pom_filename(),
    {
        let mut r = self.artifact_id.clone();
        r.push('-');
        r.append(self.version.as_str());
        r.push('.');
        r.push('p');
        r.push('o');
        r.push('m');
        proof {
            assert(r@ =~= self@.pom_filename());
        }
        r
    }

    /// The artifact's directory below the repository root.
    pub fn repo_path(&self) -> (r: String)
        ensures
            r@ == self@.repo_path(),
    {
        let mut r = self.group_path();
        r.push('/');
        r.append(self.artifact_id.as_str());
        r.push('/');
        r.append(self.version.as_str());
        proof {
            assert(r@ =~= self@.repo_path());
        }
        r
    }

    /// `group:artifact:version`, the coordinate's key.
    pub fn to_string(&self) -> (r: String)
        ensures
            r@ == self@.key(),
    {
        let mut r = self.group_id.clone();
        r.push(':');
        r.append(self.artifact_id.as_str());
        r.push(':');
        r.append(self.version.as_str());
        proof {
            assert(r@ =~= self@.key());
        }
        r
    }

    /// `group:artifact`, the key under which a version is overridden.
    pub fn ga(&self) -> (r: String)
        ensures
            r@ == self@.ga(),
    {
        let mut r = self.group_id.clone();
        r.push(':');
        r.append(self.artifact_id.as_str());
        proof {
            assert(r@ =~= self@.ga());
        }
        r
    }
}

impl CoordinateError {
    /// The message for this error.
    pub fn to_string(&self) -> (r: String)
        ensures
            match *self {
                CoordinateError::InvalidFormat(text) => r@ == "Invalid coordinate format: "@ + text@,
            },
    {
        match self {
            CoordinateError::InvalidFormat(text) => {
                let mut r = "Invalid coordinate format: ".to_owned();
                r.append(text.as_str());
                r
            },
        }
    }
}

/// A copy of a list of coordinates.
pub fn clone_coordinates(v: &Vec<Coordinate>) -> (r: Vec<Coordinate>)
    ensures
        r@ == v@,
{
    let mut r: Vec<Coordinate> = Vec::new();
    let mut i: usize = 0;
    while i < v.len()
        invariant
            i <= v.len(),
            r@ == v@.take(i as int),
        decreases v.len() - i,
    {
        r.push(v[i].clone());
        proof {
            assert(v@.take(i + 1) == v@.take(i as int).push(v@[i as int]));
        }
        i += 1;
    }
    proof {
        assert(v@.take(v.len() as int) == v@);
    }
    r
}


/// `g:a:v` parses to group, artifact and version, packaged as `jar`, where
/// none of the three holds a colon.
pub proof fn lemma_parse_gav(g: Seq<char>, a: Seq<char>, v: Seq<char>)
    requires
        !g.contains(':'),
        !a.contains(':'),
        !v.contains(':'),
    ensures
        parsed(g + seq![':'] + a + seq![':'] + v) == Some(
            CoordinateView {
                group_id: g,
                artifact_id: a,
                version: v,
                classifier: None,
                packaging: default_packaging_text(),
            },
        ),
{
    crate::text::lemma_split_plain(g, ':');
    crate::text::lemma_split_append(g, a, ':');
    crate::text::lemma_split_append(g + seq![':'] + a, v, ':');
}

/// `g:a:p:v` parses to group, artifact, packaging and version, where none
/// of the four holds a colon.
pub proof fn lemma_parse_gapv(g: Seq<char>, a: Seq<char>, p: Seq<char>, v: Seq<char>)
    requires
        !g.contains(':'),
        !a.contains(':'),
        !p.contains(':'),
        !v.contains(':'),
    ensures
        parsed(g + seq![':'] + a + seq![':'] + p + seq![':'] + v) == Some(
            CoordinateView {
                group_id: g,
                artifact_id: a,
                version: v,
                classifier: None,
                packaging: p,
            },
        ),
{
    crate::text::lemma_split_plain(g, ':');
    crate::text::lemma_split_append(g, a, ':');
    crate::text::lemma_split_append(g + seq![':'] + a, p, ':');
    crate::text::lemma_split_append(g + seq![':'] + a + seq![':'] + p, v, ':');
}

/// `g:a:p:c:v` parses to group, artifact, packaging, classifier and
/// version, where none of the five holds a colon.
pub proof fn lemma_parse_gapcv(
    g: Seq<char>,
    a: Seq<char>,
    p: Seq<char>,
    c: Seq<char>,
    v: Seq<char>,
)
    requires
        !g.contains(':'),
        !a.contains(':'),
        !p.contains(':'),
        !c.contains(':'),
        !v.contains(':'),
    ensures
        parsed(g + seq![':'] + a + seq![':'] + p + seq![':'] + c + seq![':'] + v) == Some(
            CoordinateView {
                group_id: g,
                artifact_id: a,
                version: v,
                classifier: Some(c),
                packaging: p,
            },
        ),
{
    crate::text::lemma_split_plain(g, ':');
    crate::text::lemma_split_append(g, a, ':');
    crate::text::lemma_split_append(g + seq![':'] + a, p, ':');
    crate::text::lemma_split_append(g + seq![':'] + a + seq![':'] + p, c, ':');
    crate::text::lemma_split_append(g + seq![':'] + a + seq![':'] + p + seq![':'] + c, v, ':');
}

/// A text parses exactly where it has three, four or five segments.
pub proof fn lemma_parse_segments(s: Seq<char>)
    ensures
        parsed(s) is Some <==> 3 <= split_on(s, ':').len() <= 5,
{
}

/// A coordinate's key parses back to its group, artifact and version,
/// where none of them holds a colon.
pub proof fn lemma_key_parses(c: CoordinateView)
    requires
        !c.group_id.contains(':'),
        !c.artifact_id.contains(':'),
        !c.version.contains(':'),
    ensures
        parsed(c.key()) == Some(
            CoordinateView { classifier: None, packaging: default_packaging_text(), ..c },
        ),
{
    lemma_parse_gav(c.group_id, c.artifact_id, c.version);
}

} // verus!
