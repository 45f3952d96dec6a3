//! Module fetching: URL classification and the HTTPS trust ladder.
//!
//! A policy module is named by a URL. Its scheme picks the fetcher: a
//! local file, an HTTP(S) download, or an OCI registry. For HTTPS
//! downloads the trust ladder of attempts is: a host-specific trust
//! anchor if one is configured, then the system anchors, then — only for
//! hosts explicitly marked insecure — TLS without verification and
//! finally plain HTTP. A failed attempt on a host not marked insecure is
//! fatal. The downloads themselves are outbound I/O and happen outside;
//! the decisions are verified here.

use vstd::prelude::*;

use crate::errors::BootstrapError;
use vstd::string::StrSliceExecFns;

verus! {

/// The parts of a parsed URL that the fetcher reads.
pub struct ParsedUrl {
    /// The scheme, as the parser normalises it.
    pub scheme: String,
    /// The host, when the URL has one.
    pub host: Option<String>,
    /// The path component.
    pub path: String,
    /// The whole URL, re-serialised.
    pub serialization: String,
}

/// The mathematical value of a [`ParsedUrl`].
pub ghost struct UrlParts {
    pub scheme: Seq<char>,
    pub host: Option<Seq<char>>,
    pub path: Seq<char>,
    pub serialization: Seq<char>,
}

impl View for ParsedUrl {
    type V = UrlParts;

    open spec fn view(&self) -> UrlParts {
        UrlParts {
            scheme: self.scheme@,
            host: match self.host {
                Some(h) => Some(h@),
                None => None,
            },
            path: self.path@,
            serialization: self.serialization@,
        }
    }
}

/// What parsing a URL string yields: the parse is a function of the
/// string alone.
pub uninterp spec fn url_parse_of(s: Seq<char>) -> Option<UrlParts>;

/// Relies on url::Url::parse, and on Url::scheme, Url::host_str,
/// Url::path and Url::as_str for the parts: parsing an absolute URL is
/// deterministic in the input string, and these accessors read the parsed
/// components back.
#[verifier::external_body]
pub(crate) fn parse_url(s: &str) -> (r: Option<ParsedUrl>)
    ensures
        match r {
            Some(p) => url_parse_of(s@) == Some(p@),
            None => url_parse_of(s@) is None,
        },
{
    match url::Url::parse(s) {
        Ok(u) => Some(
            ParsedUrl {
                scheme: u.scheme().to_string(),
                host: u.host_str().map(|h| h.to_string()),
                path: u.path().to_string(),
                serialization: u.as_str().to_string(),
            },
        ),
        Err(_) => None,
    }
}

/// The fetcher a module URL is handed to.
pub enum ModuleSource {
    /// The module already sits on the local filesystem.
    Local { path: String },
    /// The module is downloaded over HTTP(S).
    Https { url: ParsedUrl },
    /// The module is pulled from an OCI registry.
    Registry { url: ParsedUrl },
}

/// Classify a module URL by its scheme: `file` names a local module,
/// `http` and `https` a download, `registry` an OCI pull; anything else,
/// and anything that does not parse, is rejected.
pub fn parse_wasm_url(url: &String) -> (r: Result<ModuleSource, BootstrapError>)
    ensures
        match url_parse_of(url@) {
            None => r matches Err(e) && e is FetchFailed,
            Some(p) => {
                if p.scheme == "file"@ {
                    r matches Ok(src) && src matches ModuleSource::Local { path } && path@ == p.path
                } else if p.scheme == "http"@ || p.scheme == "https"@ {
                    r matches Ok(src) && src matches ModuleSource::Https { url: u } && u@ == p
                } else if p.scheme == "registry"@ {
                    r matches Ok(src) && src matches ModuleSource::Registry { url: u } && u@ == p
                } else {
                    r matches Err(e) && e is FetchFailed
                }
            },
        },
{
    match parse_url(url.as_str()) {
        None => Err(BootstrapError::FetchFailed("invalid module URL".to_owned())),
        Some(p) => {
            if p.scheme == "file".to_owned() {
                Ok(ModuleSource::Local { path: p.path })
            } else if p.scheme == "http".to_owned() || p.scheme == "https".to_owned() {
                Ok(ModuleSource::Https { url: p })
            } else if p.scheme == "registry".to_owned() {
                Ok(ModuleSource::Registry { url: p })
            } else {
                Err(BootstrapError::FetchFailed("unknown module URL scheme".to_owned()))
            }
        },
    }
}

/// The file name a URL path implies: everything after the last slash.
pub open spec fn spec_file_name(p: Seq<char>) -> Seq<char>
    decreases p.len(),
{
    if p.len() == 0 {
        Seq::empty()
    } else if p.last() == '/' {
        Seq::empty()
    } else {
        spec_file_name(p.drop_last()).push(p.last())
    }
}

proof fn lemma_file_name_suffix(p: Seq<char>, s: int)
    requires
        0 <= s <= p.len(),
        forall|k: int| s <= k < p.len() ==> p[k] != '/',
        s == 0 || p[s - 1] == '/',
    ensures
        spec_file_name(p) == p.subrange(s, p.len() as int),
    decreases p.len(),
{
    if p.len() == 0 {
        assert(spec_file_name(p) =~= p.subrange(0, 0));
    } else if s == p.len() {
        assert(p.last() == '/');
        assert(spec_file_name(p) =~= p.subrange(s, p.len() as int));
    } else {
        assert(p.last() != '/');
        lemma_file_name_suffix(p.drop_last(), s);
        assert(p.drop_last().subrange(s, p.len() - 1).push(p.last()) =~= p.subrange(
            s,
            p.len() as int,
        ));
    }
}

/// The index right after the last slash, or zero when the path has none.
fn start_of_file_name(p: &str) -> (start: usize)
    ensures
        start <= p@.len(),
        forall|k: int| start <= k < p@.len() ==> p@[k] != '/',
        start == 0 || p@[start - 1] == '/',
{
    let len = p.unicode_len();
    let mut start: usize = len;
    while start > 0
        invariant
            start <= len,
            len == p@.len(),
            forall|k: int| start <= k < len ==> p@[k] != '/',
        decreases start,
    {
        let c = p.get_char(start - 1);
        if c == '/' {
            return start;
        }
        start = start - 1;
    }
    0
}

/// Extract the file name the module lands under: the part of the URL
/// path after its last slash.
pub fn file_name_of_path(path: &String) -> (r: String)
    ensures
        r@ == spec_file_name(path@),
{
    let p = path.as_str();
    let len = p.unicode_len();
    let start = start_of_file_name(p);
    proof {
        lemma_file_name_suffix(p@, start as int);
    }
    let mut out = String::new();
    let mut i: usize = start;
    while i < len
        invariant
            start <= i <= len,
            len == p@.len(),
            out@ == p@.subrange(start as int, i as int),
        decreases len - i,
    {
        let c = p.get_char(i);
        out.push(c);
        proof {
            assert(out@ =~= p@.subrange(start as int, i + 1));
        }
        i = i + 1;
    }
    out
}

/// The local path a downloaded module is written to: the download
/// directory, a separator, and the file name the URL path implies.
pub fn module_destination(download_dir: &String, path: &String) -> (r: String)
    ensures
        r@ == download_dir@ + "/"@ + spec_file_name(path@),
{
    let name = file_name_of_path(path);
    let mut out = download_dir.clone();
    out.append("/");
    out.append(name.as_str());
    out
}

/// What the configuration says about one host.
#[derive(Debug, Clone, Copy, PartialEq, Eq, Structural)]
pub struct HostTrust {
    /// A host-specific trust anchor is configured.
    pub has_custom_certificate_authority: bool,
    /// The host is explicitly marked insecure.
    pub insecure: bool,
}

/// One rung of the HTTPS trust ladder.
#[derive(Debug, Clone, Copy, PartialEq, Eq, Structural)]
pub enum FetchAttempt {
    /// TLS with the host-specific trust anchor.
    CustomCa,
    /// TLS with the system trust anchors.
    SystemCa,
    /// TLS without certificate verification; insecure hosts only.
    NoTlsVerification,
    /// Plain HTTP; insecure hosts only.
    PlainHttp,
}

/// The first download attempt for a module URL: plain HTTP for an `http`
/// URL; for `https`, the host-specific anchor when one is configured,
/// else the system anchors. An `https` URL without a host is rejected.
pub fn initial_attempt(scheme_is_https: bool, host_present: bool, trust: &HostTrust) -> (r: Result<
    FetchAttempt,
    BootstrapError,
>)
    ensures
        !scheme_is_https ==> r == Ok::<FetchAttempt, BootstrapError>(FetchAttempt::PlainHttp),
        scheme_is_https && !host_present ==> (r matches Err(e) && e is FetchFailed),
        scheme_is_https && host_present && trust.has_custom_certificate_authority ==> r == Ok::<
            FetchAttempt,
            BootstrapError,
        >(FetchAttempt::CustomCa),
        scheme_is_https && host_present && !trust.has_custom_certificate_authority ==> r == Ok::<
            FetchAttempt,
            BootstrapError,
        >(FetchAttempt::SystemCa),
{
    if !scheme_is_https {
        Ok(FetchAttempt::PlainHttp)
    } else if !host_present {
        Err(BootstrapError::FetchFailed("cannot parse URI: no host".to_owned()))
    } else if trust.has_custom_certificate_authority {
        Ok(FetchAttempt::CustomCa)
    } else {
        Ok(FetchAttempt::SystemCa)
    }
}

/// The rung tried after a failed attempt. A failure under the
/// host-specific or system anchors is fatal unless the host is marked
/// insecure; an insecure host falls through to unverified TLS and then
/// plain HTTP, whose own failure ends the ladder with no further rung.
pub fn next_attempt_after_failure(attempt: FetchAttempt, trust: &HostTrust) -> (r: Result<
    Option<FetchAttempt>,
    BootstrapError,
>)
    ensures
        attempt is CustomCa && trust.insecure ==> r == Ok::<Option<FetchAttempt>, BootstrapError>(
            Some(FetchAttempt::SystemCa),
        ),
        attempt is CustomCa && !trust.insecure ==> (r matches Err(e) && e is FetchFailed),
        attempt is SystemCa && trust.insecure ==> r == Ok::<Option<FetchAttempt>, BootstrapError>(
            Some(FetchAttempt::NoTlsVerification),
        ),
        attempt is SystemCa && !trust.insecure ==> (r matches Err(e) && e is FetchFailed),
        attempt is NoTlsVerification ==> r == Ok::<Option<FetchAttempt>, BootstrapError>(
            Some(FetchAttempt::PlainHttp),
        ),
        attempt is PlainHttp ==> r == Ok::<Option<FetchAttempt>, BootstrapError>(None),
{
    match attempt {
        FetchAttempt::CustomCa => {
            if trust.insecure {
                Ok(Some(FetchAttempt::SystemCa))
            } else {
                Err(
                    BootstrapError::FetchFailed(
                        "could not download Wasm module using provided CA certificate; aborting since host is not set as insecure".to_owned(),
                    ),
                )
            }
        },
        FetchAttempt::SystemCa => {
            if trust.insecure {
                Ok(Some(FetchAttempt::NoTlsVerification))
            } else {
                Err(
                    BootstrapError::FetchFailed(
                        "could not download Wasm module using system CA certificates; aborting since host is not set as insecure".to_owned(),
                    ),
                )
            }
        },
        FetchAttempt::NoTlsVerification => Ok(Some(FetchAttempt::PlainHttp)),
        FetchAttempt::PlainHttp => Ok(None),
    }
}

} // verus!
