//! The repository client: where the files of an artifact are, how a
//! response becomes a text or a manifest, and the transport that fetches.
//!
//! The transport is a trait, so that everything above it can be run against
//! responses held in memory. Nothing is promised of what a transport
//! returns; what is made of each possible response is stated exactly.

use crate::coordinate::{Coordinate, CoordinateView};
use crate::error::{MavenError, MavenErrorView};
use crate::pom::Pom;
use crate::pom_parser::{manifest_matches, parse_pom, parsed_manifest};
use crate::text::{decimal, decimal_string};
use vstd::prelude::*;
use vstd::string::*;
use vstd::utf8::{decode_utf8, valid_utf8};

verus! {

/// What a transport brings back: the status and the body as it came.
#[derive(Debug)]
pub struct HttpResponse {
    pub status: u16,
    pub body: Vec<u8>,
}

impl Clone for HttpResponse {
    fn clone(&self) -> (r: Self)
        ensures
            r.status == self.status,
            r.body@ == self.body@,
    {
        let r = HttpResponse { status: self.status, body: self.body.clone() };
        proof {
            assert(r.body@ =~= self.body@);
        }
        r
    }
}

/// Fetches what is at a URL. A transport that cannot complete the request
/// says so with an error; a status outside 200..=299 is no error here.
pub trait MavenTransport {
    fn get(&self, url: String) -> Result<HttpResponse, MavenError>;
}

/// A client for one repository and one search service.
pub struct MavenClient<T: MavenTransport> {
    http: T,
    base_url: String,
    search_url: String,
}

/// One hit of a search.
#[derive(Debug)]
pub struct SearchDoc {
    pub id: String,
    pub g: String,
    pub a: String,
    pub latest_version: Option<String>,
    pub version: Option<String>,
}

/// The body of a search response.
#[derive(Debug)]
pub struct SearchResponseBody {
    pub num_found: u32,
    pub docs: Vec<SearchDoc>,
}

/// A search response.
#[derive(Debug)]
pub struct SearchResponse {
    pub response: SearchResponseBody,
}

/// The repository that a client uses unless it is given another.
pub open spec fn central_url() -> Seq<char> {
    "https://repo1.maven.org/maven2"@
}

/// The search service that a client uses unless it is given another.
pub open spec fn central_search_url() -> Seq<char> {
    "https://search.maven.org/solrsearch/select"@
}

/// Whether a status says that the request succeeded.
pub open spec fn is_success(status: u16) -> bool {
    200 <= status <= 299
}

/// Whether a byte stands for itself in a URL: a letter, a digit, or one of
/// `-`, `.`, `_`, `~`.
pub open spec fn is_unreserved(b: u8) -> bool {
    (0x30 <= b <= 0x39) || (0x41 <= b <= 0x5a) || (0x61 <= b <= 0x7a) || b == 0x2d || b == 0x2e
        || b == 0x5f || b == 0x7e
}

/// The upper-case hexadecimal digit for a value below 16.
pub open spec fn hex_digit(d: u8) -> char {
    if d < 10 {
        ((0x30 + d) as u8) as char
    } else {
        ((0x41 + d - 10) as u8) as char
    }
}

/// Percent-encoding: every byte that is not unreserved becomes `%` and its
/// two hexadecimal digits.
pub open spec fn percent_encoded(bytes: Seq<u8>) -> Seq<char>
    decreases bytes.len(),
{
    if bytes.len() == 0 {
        Seq::empty()
    } else {
        let b = bytes.last();
        percent_encoded(bytes.drop_last()) + (if is_unreserved(b) {
            seq![b as char]
        } else {
            seq!['%', hex_digit(b / 16), hex_digit(b % 16)]
        })
    }
}

/// The message of `String::from_utf8`'s error for bytes that are not UTF-8.
pub uninterp spec fn utf8_error_text(bytes: Seq<u8>) -> Seq<char>;

/// `urlencoding::encode`: the percent-encoding of the UTF-8 bytes of `s`.
#[verifier::external_body]
fn url_encode(s: &str) -> (r: String)
    ensures
        r@ == percent_encoded(s.spec_bytes()),
{
    urlencoding::encode(s).into_owned()
}

/// `String::from_utf8`: the text that the bytes encode, or, where they are
/// not UTF-8, the error's message.
#[verifier::external_body]
fn utf8_text(bytes: Vec<u8>) -> (r: Result<String, String>)
    ensures
        match r {
            Ok(s) => valid_utf8(bytes@) && s@ == decode_utf8(bytes@),
            Err(m) => !valid_utf8(bytes@) && m@ == utf8_error_text(bytes@),
        },
{
    match String::from_utf8(bytes) {
        Ok(s) => Ok(s),
        Err(e) => Err(e.to_string()),
    }
}

/// The URL of a file of an artifact: `base/group/path/artifact/version/file`.
pub open spec fn file_url(base: Seq<char>, c: CoordinateView, file: Seq<char>) -> Seq<char> {
    base + seq!['/'] + c.repo_path() + seq!['/'] + file
}

/// The URL of a search for `query` with at most `limit` hits.
pub open spec fn search_request(search: Seq<char>, query: Seq<char>, limit: u32) -> Seq<char> {
    search + "?q="@ + percent_encoded(vstd::utf8::encode_utf8(query)) + "&rows="@ + decimal(
        limit as nat,
    ) + "&wt=json"@
}

/// The query that asks for all versions of `group_id:artifact_id`.
pub open spec fn versions_query(group_id: Seq<char>, artifact_id: Seq<char>) -> Seq<char> {
    "g:\""@ + group_id + "\" AND a:\""@ + artifact_id + "\""@
}

/// The URL that lists the versions of `group_id:artifact_id`.
pub open spec fn versions_request(
    search: Seq<char>,
    group_id: Seq<char>,
    artifact_id: Seq<char>,
) -> Seq<char> {
    search + "?q="@ + percent_encoded(
        vstd::utf8::encode_utf8(versions_query(group_id, artifact_id)),
    ) + "&core=gav&rows=100&wt=json"@
}

/// The body of a response, or why there is none: the transport's error, or
/// a status that is no success, with the URL that was asked.
pub open spec fn body_of(url: Seq<char>, response: Result<HttpResponse, MavenError>) -> Result<
    Seq<u8>,
    MavenErrorView,
> {
    match response {
        Err(e) => Err(e@),
        Ok(resp) => if is_success(resp.status) {
            Ok(resp.body@)
        } else {
            Err(MavenErrorView::HttpStatus { status: resp.status, url })
        },
    }
}

/// The text of a response: its body, decoded, where it is UTF-8.
pub open spec fn text_of(url: Seq<char>, response: Result<HttpResponse, MavenError>) -> Result<
    Seq<char>,
    MavenErrorView,
> {
    match body_of(url, response) {
        Err(e) => Err(e),
        Ok(body) => if valid_utf8(body) {
            Ok(decode_utf8(body))
        } else {
            Err(MavenErrorView::InvalidUtf8 { message: utf8_error_text(body) })
        },
    }
}

/// The manifest in a response.
pub open spec fn manifest_in(url: Seq<char>, response: Result<HttpResponse, MavenError>) -> Result<
    crate::pom::PomView,
    MavenErrorView,
> {
    match text_of(url, response) {
        Err(e) => Err(e),
        Ok(text) => parsed_manifest(text),
    }
}

/// The versions that the hits of a search name, in their order.
pub open spec fn versions_of(docs: Seq<SearchDoc>) -> Seq<Seq<char>>
    decreases docs.len(),
{
    if docs.len() == 0 {
        Seq::empty()
    } else {
        let before = versions_of(docs.drop_last());
        match docs.last().version {
            Some(v) => before.push(v@),
            None => before,
        }
    }
}

/// Whether a result is the body that `expected` describes.
pub open spec fn body_matches(
    r: Result<Vec<u8>, MavenError>,
    expected: Result<Seq<u8>, MavenErrorView>,
) -> bool {
    match r {
        Ok(body) => expected == Ok::<Seq<u8>, MavenErrorView>(body@),
        Err(e) => expected == Err::<Seq<u8>, MavenErrorView>(e@),
    }
}

/// Whether a result is the text that `expected` describes.
pub open spec fn text_matches(
    r: Result<String, MavenError>,
    expected: Result<Seq<char>, MavenErrorView>,
) -> bool {
    match r {
        Ok(text) => expected == Ok::<Seq<char>, MavenErrorView>(text@),
        Err(e) => expected == Err::<Seq<char>, MavenErrorView>(e@),
    }
}

/// The body of a response whose status is a success.
pub fn response_body(url: &str, response: Result<HttpResponse, MavenError>) -> (r: Result<
    Vec<u8>,
    MavenError,
>)
    ensures
        body_matches(r, body_of(url@, response)),
{
    match response {
        Err(e) => Err(e),
        Ok(resp) => {
            if 200 <= resp.status && resp.status <= 299 {
                Ok(resp.body)
            } else {
                Err(MavenError::HttpStatus { status: resp.status, url: url.to_owned() })
            }
        },
    }
}

/// The text of a response.
pub fn response_text(url: &str, response: Result<HttpResponse, MavenError>) -> (r: Result<
    String,
    MavenError,
>)
    ensures
        text_matches(r, text_of(url@, response)),
{
    match response_body(url, response) {
        Err(e) => Err(e),
        Ok(body) => match utf8_text(body) {
            Ok(text) => Ok(text),
            Err(message) => Err(MavenError::InvalidUtf8 { message }),
        },
    }
}

/// The manifest in a response.
pub fn response_manifest(url: &str, response: Result<HttpResponse, MavenError>) -> (r: Result<
    Pom,
    MavenError,
>)
    ensures
        manifest_matches(r, manifest_in(url@, response)),
{
    match response_text(url, response) {
        Err(e) => Err(e),
        Ok(text) => parse_pom(text.as_str()),
    }
}

/// The versions that the hits of a search name.
pub fn collect_versions(docs: &Vec<SearchDoc>) -> (r: Vec<String>)
    ensures
        crate::text::views(r@) == versions_of(docs@),
{
    let mut r: Vec<String> = Vec::new();
    let mut i: usize = 0;
    while i < docs.len()
        invariant
            i <= docs.len(),
            crate::text::views(r@) == versions_of(docs@.take(i as int)),
        decreases docs.len() - i,
    {
        proof {
            assert(docs@.take(i + 1).drop_last() == docs@.take(i as int));
        }
        match &docs[i].version {
            Some(v) => {
                proof {
                    crate::text::lemma_views_push(r@, *v);
                }
                r.push(v.clone());
            },
            None => {},
        }
        i += 1;
    }
    proof {
        assert(docs@.take(docs.len() as int) == docs@);
    }
    r
}

impl<T: MavenTransport> MavenClient<T> {
    /// The repository's base URL.
    pub closed spec fn base(&self) -> Seq<char> {
        self.base_url@
    }

    /// The transport.
    pub closed spec fn http_transport(&self) -> T {
        self.http
    }

    /// The search service's URL.
    pub closed spec fn search_base(&self) -> Seq<char> {
        self.search_url@
    }

    /// A client for the repository at `base_url` that fetches through
    /// `transport` and searches at the central search service.
    pub fn with_transport(base_url: &str, transport: T) -> (c: Self)
        ensures
            c.base() == base_url@,
            c.search_base() == central_search_url(),
    {
        MavenClient {
            http: transport,
            base_url: base_url.to_owned(),
            search_url: "https://search.maven.org/solrsearch/select".to_owned(),
        }
    }

    /// The transport that this client fetches through.
    pub fn transport(&self) -> (t: &T)
        ensures
            *t == self.http_transport(),
    {
        &self.http
    }

    /// The same client with another search service.
    pub fn with_search_url(self, search_url: &str) -> (c: Self)
        ensures
            c.base() == self.base(),
            c.search_base() == search_url@,
    {
        MavenClient { http: self.http, base_url: self.base_url, search_url: search_url.to_owned() }
    }

    /// The URL of `file` in the directory of `coord`.
    fn file_url(&self, coord: &Coordinate, file: &str) -> (r: String)
        ensures
            r@ == file_url(self.base(), coord@, file@),
    {
        let mut r = self.base_url.clone();
        r.push('/');
        r.append(coord.repo_path().as_str());
        r.push('/');
        r.append(file);
        proof {
            assert(r@ =~= file_url(self.base(), coord@, file@));
        }
        r
    }

    /// The URL of the artifact's jar.
    pub fn jar_url(&self, coord: &Coordinate) -> (r: String)
        ensures
            r@ == file_url(self.base(), coord@, coord@.jar_filename()),
    {
        self.file_url(coord, coord.jar_filename().as_str())
    }

    /// The URL of the artifact's manifest.
    pub fn pom_url(&self, coord: &Coordinate) -> (r: String)
        ensures
            r@ == file_url(self.base(), coord@, coord@.pom_filename()),
    {
        self.file_url(coord, coord.pom_filename().as_str())
    }

    /// The URL of a search for `query` with at most `limit` hits.
    pub fn search_url(&self, query: &str, limit: u32) -> (r: String)
        ensures
            r@ == search_request(self.search_base(), query@, limit),
    {
        let mut r = self.search_url.clone();
        r.append("?q=");
        r.append(url_encode(query).as_str());
        r.append("&rows=");
        r.append(decimal_string(limit as u64).as_str());
        r.append("&wt=json");
        r
    }

    /// The URL that lists the versions of `group_id:artifact_id`.
    pub fn versions_url(&self, group_id: &str, artifact_id: &str) -> (r: String)
        ensures
            r@ == versions_request(self.search_base(), group_id@, artifact_id@),
    {
        let mut query = "g:\"".to_owned();
        query.append(group_id);
        query.append("\" AND a:\"");
        query.append(artifact_id);
        query.append("\"");
        let mut r = self.search_url.clone();
        r.append("?q=");
        r.append(url_encode(query.as_str()).as_str());
        r.append("&core=gav&rows=100&wt=json");
        r
    }

    /// Fetches what is at `url`: the body of a response whose status is a
    /// success.
    pub fn read_bytes(&self, url: &str) -> (r: Result<Vec<u8>, MavenError>)
        ensures
            exists|response: Result<HttpResponse, MavenError>|
                body_matches(r, #[trigger] body_of(url@, response)),
    {
        let response = self.http.get(url.to_owned());
        let r = response_body(url, response);
        proof {
            assert(body_matches(r, body_of(url@, response)));
        }
        r
    }

    /// Fetches the text at `url`.
    pub fn read_text(&self, url: &str) -> (r: Result<String, MavenError>)
        ensures
            exists|response: Result<HttpResponse, MavenError>|
                text_matches(r, #[trigger] text_of(url@, response)),
    {
        let response = self.http.get(url.to_owned());
        let r = response_text(url, response);
        proof {
            assert(text_matches(r, text_of(url@, response)));
        }
        r
    }

    /// Fetches the text of the artifact's manifest.
    pub fn fetch_pom_content(&self, coord: &Coordinate) -> (r: Result<String, MavenError>)
        ensures
            exists|response: Result<HttpResponse, MavenError>|
                text_matches(
                    r,
                    #[trigger] text_of(
                        file_url(self.base(), coord@, coord@.pom_filename()),
                        response,
                    ),
                ),
    {
        let url = self.pom_url(coord);
        self.read_text(url.as_str())
    }

    /// Fetches and parses the artifact's manifest.
    pub fn fetch_pom(&self, coord: &Coordinate) -> (r: Result<Pom, MavenError>)
        ensures
            exists|response: Result<HttpResponse, MavenError>|
                manifest_matches(
                    r,
                    #[trigger] manifest_in(
                        file_url(self.base(), coord@, coord@.pom_filename()),
                        response,
                    ),
                ),
    {
        let url = self.pom_url(coord);
        let response = self.http.get(url.clone());
        let r = response_manifest(url.as_str(), response);
        proof {
            assert(manifest_matches(
                r,
                manifest_in(file_url(self.base(), coord@, coord@.pom_filename()), response),
            ));
        }
        r
    }
}

impl<T: MavenTransport + Default> MavenClient<T> {
    /// A client for the central repository with the default transport.
    pub fn new() -> (c: Self)
        ensures
            c.base() == central_url(),
            c.search_base() == central_search_url(),
    {
        Self::with_transport("https://repo1.maven.org/maven2", T::default())
    }

    /// A client for the repository at `base_url` with the default transport.
    pub fn with_base_url(base_url: &str) -> (c: Self)
        ensures
            c.base() == base_url@,
            c.search_base() == central_search_url(),
    {
        Self::with_transport(base_url, T::default())
    }
}

} // verus!
