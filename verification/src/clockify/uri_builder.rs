//! The addresses of the service's resources.

use crate::clockify::error::{Error, ErrorView};
use crate::number::{decimal_digits, push_decimal};
use crate::text::to_chars;
use vstd::prelude::*;
use vstd::string::StringExecFns;

verus! {

/// The parts of a URI that the builder reads.
#[derive(Clone, Debug, PartialEq, Eq)]
pub struct UriParts {
    pub scheme: Option<String>,
    pub authority: Option<String>,
    pub host: Option<String>,
    pub port: Option<u16>,
    pub path: String,
    pub query: Option<String>,
}

/// Mathematical value of [`UriParts`].
pub struct UriPartsView {
    pub scheme: Option<Seq<char>>,
    pub authority: Option<Seq<char>>,
    pub host: Option<Seq<char>>,
    pub port: Option<u16>,
    pub path: Seq<char>,
    pub query: Option<Seq<char>>,
}

/// The characters of a string that may be absent.
pub open spec fn option_view(s: Option<String>) -> Option<Seq<char>> {
    match s {
        Some(s) => Some(s@),
        None => None,
    }
}

impl View for UriParts {
    type V = UriPartsView;

    open spec fn view(&self) -> UriPartsView {
        UriPartsView {
            scheme: option_view(self.scheme),
            authority: option_view(self.authority),
            host: option_view(self.host),
            port: self.port,
            path: self.path@,
            query: option_view(self.query),
        }
    }
}

/// The parts of the URI that `hyper` reads out of `s`, or the description
/// of its refusal.
pub uninterp spec fn hyper_uri_parts(s: Seq<char>) -> Result<UriPartsView, Seq<char>>;

/// The text of the URI that `hyper` builds from a scheme, an authority and
/// a path with query, or the description of its refusal.
pub uninterp spec fn hyper_uri_text(
    scheme: Seq<char>,
    authority: Seq<char>,
    path_and_query: Seq<char>,
) -> Result<Seq<char>, Seq<char>>;

/// `<hyper::Uri as FromStr>::from_str`, followed by the accessors
/// `scheme_str`, `authority`, `host`, `port_u16`, `path` and `query` of the
/// URI it returns, or by the `Display` of its error. The result depends on
/// the text alone; what it is for a given text is not stated here.
#[verifier::external_body]
fn parse_with_hyper(s: &str) -> (r: Result<UriParts, String>)
    ensures
        match r {
            Ok(parts) => hyper_uri_parts(s@) == Ok::<UriPartsView, Seq<char>>(parts@),
            Err(e) => hyper_uri_parts(s@) == Err::<UriPartsView, Seq<char>>(e@),
        },
{
    match s.parse::<hyper::Uri>() {
        Ok(uri) => Ok(
            UriParts {
                scheme: uri.scheme_str().map(str::to_string),
                authority: uri.authority().map(ToString::to_string),
                host: uri.host().map(str::to_string),
                port: uri.port_u16(),
                path: uri.path().to_string(),
                query: uri.query().map(str::to_string),
            },
        ),
        Err(e) => Err(e.to_string()),
    }
}

/// `hyper::Uri::builder`, the builder's `scheme`, `authority`,
/// `path_and_query` and `build`, followed by the `Display` of the URI or of
/// the error. The result depends on the three texts alone; what it is for
/// given texts is not stated here.
#[verifier::external_body]
fn build_with_hyper(scheme: &str, authority: &str, path_and_query: &str) -> (r: Result<
    String,
    String,
>)
    ensures
        match r {
            Ok(uri) => hyper_uri_text(scheme@, authority@, path_and_query@) == Ok::<
                Seq<char>,
                Seq<char>,
            >(uri@),
            Err(e) => hyper_uri_text(scheme@, authority@, path_and_query@) == Err::<
                Seq<char>,
                Seq<char>,
            >(e@),
        },
{
    match hyper::Uri::builder().scheme(scheme).authority(authority).path_and_query(
        path_and_query,
    ).build() {
        Ok(uri) => Ok(uri.to_string()),
        Err(e) => Err(e.to_string()),
    }
}

/// What reading the text of a URI gives: its parts, or an input error with
/// the description of the refusal.
pub open spec fn spec_read_uri(parsed: Result<UriPartsView, Seq<char>>) -> Result<
    UriPartsView,
    ErrorView,
> {
    match parsed {
        Ok(parts) => Ok(parts),
        Err(e) => Err(ErrorView::IO(e)),
    }
}

/// Turns what `hyper` made of a text into the parts of a URI or an error.
pub fn read_uri(parsed: Result<UriParts, String>) -> (r: Result<UriParts, Error>)
    ensures
        match spec_read_uri(
            match parsed {
                Ok(parts) => Ok(parts@),
                Err(e) => Err(e@),
            },
        ) {
            Ok(parts) => r is Ok && r->Ok_0@ == parts,
            Err(e) => r is Err && r->Err_0@ == e,
        },
{
    match parsed {
        Ok(parts) => Ok(parts),
        Err(e) => Err(Error::IO(e)),
    }
}

/// Reads the text of a URI.
pub fn parse_uri(s: &str) -> (r: Result<UriParts, Error>)
    ensures
        match spec_read_uri(hyper_uri_parts(s@)) {
            Ok(parts) => r is Ok && r->Ok_0@ == parts,
            Err(e) => r is Err && r->Err_0@ == e,
        },
{
    read_uri(parse_with_hyper(s))
}

/// The path of a resource: the base path, `v1` and the resource's own path,
/// with one `'/'` between each two of them.
pub open spec fn spec_full_path(base_path: Seq<char>, path: Seq<char>) -> Seq<char> {
    if base_path.len() > 0 && base_path.last() == '/' {
        base_path + "v1/"@ + path
    } else {
        base_path + "/v1/"@ + path
    }
}

/// The path of a resource, followed by the base URI's query if it has one.
pub open spec fn spec_path_and_query(base: UriPartsView, path: Seq<char>) -> Seq<char> {
    match base.query {
        Some(q) => spec_full_path(base.path, path) + "?"@ + q,
        None => spec_full_path(base.path, path),
    }
}

/// The authority of the base URI, empty where it has none.
pub open spec fn spec_authority(base: UriPartsView) -> Seq<char> {
    match base.authority {
        Some(a) => a,
        None => Seq::empty(),
    }
}

/// What building a resource's URI gives: the URI's text, or an internal
/// error that quotes the description of the refusal.
pub open spec fn spec_built_uri(built: Result<Seq<char>, Seq<char>>) -> Result<
    Seq<char>,
    ErrorView,
> {
    match built {
        Ok(uri) => Ok(uri),
        Err(e) => Err(ErrorView::Internal("Failed building URI: "@ + e)),
    }
}

/// Turns what `hyper` built into the text of a URI or an error.
pub fn built_uri(built: Result<String, String>) -> (r: Result<String, Error>)
    ensures
        match spec_built_uri(
            match built {
                Ok(uri) => Ok(uri@),
                Err(e) => Err(e@),
            },
        ) {
            Ok(uri) => r is Ok && r->Ok_0@ == uri,
            Err(e) => r is Err && r->Err_0@ == e,
        },
{
    match built {
        Ok(uri) => Ok(uri),
        Err(e) => {
            let message = String::from_str("Failed building URI: ").concat(e.as_str());
            Err(Error::Internal(message))
        },
    }
}

/// The text of the URI of the resource at `path` below `base`.
pub open spec fn spec_build_uri(base: UriPartsView, path: Seq<char>) -> Result<
    Seq<char>,
    ErrorView,
> {
    spec_built_uri(
        hyper_uri_text(base.scheme->Some_0, spec_authority(base), spec_path_and_query(base, path)),
    )
}

/// Whether `s` ends with `c`.
fn ends_with(s: &str, c: char) -> (r: bool)
    ensures
        r == (s@.len() > 0 && s@.last() == c),
{
    let chars = to_chars(s);
    chars.len() > 0 && chars[chars.len() - 1] == c
}

/// Builds the full URI of the resource at `path` from the base URI.
pub fn build_uri(base_uri: &UriParts, path: &str) -> (r: Result<String, Error>)
    requires
        base_uri.scheme is Some,
    ensures
        match spec_build_uri(base_uri@, path@) {
            Ok(uri) => r is Ok && r->Ok_0@ == uri,
            Err(e) => r is Err && r->Err_0@ == e,
        },
{
    let authority = match &base_uri.authority {
        Some(a) => a.clone(),
        None => String::new(),
    };
    let base_path = base_uri.path.as_str();
    let mut full = String::from_str(base_path);
    if ends_with(base_path, '/') {
        full.append("v1/");
    } else {
        full.append("/v1/");
    }
    full.append(path);
    match &base_uri.query {
        Some(q) => {
            full.append("?");
            full.append(q.as_str());
        },
        None => {},
    }
    let scheme = match &base_uri.scheme {
        Some(s) => s.as_str(),
        None => "",
    };
    built_uri(build_with_hyper(scheme, authority.as_str(), full.as_str()))
}

/// Creates the URIs of the service's resources below one base URI.
pub struct URIBuilder {
    base_uri: UriParts,
    workspaces_uri: String,
}

impl URIBuilder {
    /// The base URI has a host and a scheme, and the URI of the workspaces
    /// is the one that is built from the base URI.
    pub closed spec fn wf(&self) -> bool {
        &&& self.base_uri.host is Some
        &&& self.base_uri.scheme is Some
        &&& spec_build_uri(self.base_uri@, "workspaces"@) == Ok::<Seq<char>, ErrorView>(
            self.workspaces_uri@,
        )
    }

    /// The parts of the base URI.
    pub closed spec fn base(&self) -> UriPartsView {
        self.base_uri@
    }

    /// A well-formed builder's base URI has a host and a scheme.
    pub proof fn lemma_wf(&self)
        requires
            self.wf(),
        ensures
            self.base().host is Some,
            self.base().scheme is Some,
    {
    }

    /// The builder over `base`: none without a host, and none where the URI
    /// of the workspaces cannot be built.
    pub open spec fn spec_new(base: UriPartsView) -> Result<UriPartsView, ErrorView> {
        if base.host is None {
            Err(ErrorView::InvalidURI("URI must have a host"@))
        } else {
            match spec_build_uri(base, "workspaces"@) {
                Ok(_) => Ok(base),
                Err(e) => Err(e),
            }
        }
    }

    /// Returns a new builder over the base URI of the service.
    pub fn new(base_uri: UriParts) -> (r: Result<URIBuilder, Error>)
        requires
            base_uri.host is Some ==> base_uri.scheme is Some,
        ensures
            match URIBuilder::spec_new(base_uri@) {
                Ok(base) => r is Ok && r->Ok_0.wf() && r->Ok_0.base() == base,
                Err(e) => r is Err && r->Err_0@ == e,
            },
    {
        if base_uri.host.is_none() {
            return Err(Error::InvalidURI(String::from_str("URI must have a host")));
        }
        match build_uri(&base_uri, "workspaces") {
            Ok(workspaces_uri) => Ok(URIBuilder { base_uri, workspaces_uri }),
            Err(e) => Err(e),
        }
    }

    /// The port of the server: that of the base URI, or 80 where it names none.
    pub open spec fn spec_port(base: UriPartsView) -> u16 {
        match base.port {
            Some(port) => port,
            None => 80,
        }
    }

    /// Returns the server's address: host, a colon, and the port in decimal
    /// notation.
    pub fn get_server_address(&self) -> (address: String)
        requires
            self.wf(),
        ensures
            address@ == self.base().host->Some_0 + ":"@ + decimal_digits(
                URIBuilder::spec_port(self.base()) as nat,
            ),
    {
        let port: u16 = match self.base_uri.port {
            Some(port) => port,
            None => 80,
        };
        let mut address = match &self.base_uri.host {
            Some(host) => host.clone(),
            None => String::new(),
        };
        address.append(":");
        push_decimal(&mut address, port as u32);
        address
    }

    /// Returns the URI of the workspaces.
    pub fn get_workspaces(&self) -> (uri: &String)
        requires
            self.wf(),
        ensures
            spec_build_uri(self.base(), "workspaces"@) == Ok::<Seq<char>, ErrorView>(uri@),
    {
        &self.workspaces_uri
    }

    /// Returns the URI of the projects of a workspace.
    pub fn get_projects(&self, workspace_id: &str) -> (r: Result<String, Error>)
        requires
            self.wf(),
        ensures
            match spec_build_uri(self.base(), "workspaces/"@ + workspace_id@ + "/projects"@) {
                Ok(uri) => r is Ok && r->Ok_0@ == uri,
                Err(e) => r is Err && r->Err_0@ == e,
            },
    {
        let mut sub_path = String::from_str("workspaces/");
        sub_path.append(workspace_id);
        sub_path.append("/projects");
        build_uri(&self.base_uri, sub_path.as_str())
    }
}

} // verus!
