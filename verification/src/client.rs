//! Service addresses: the base URLs of the configured services, XRPC method URLs, and where a
//! DID's document and its data server are found.
use vstd::prelude::*;
use vstd::string::*;
use crate::config::ServiceConfig;
use crate::json::JsonValue;
use crate::text::{copy_str, debug_quoted, debug_text, has_prefix, join, join_strings, split_char, split_on,
    starts_with, str_eq};

verus! {

/// The serialization of the URL that `url::Url::parse` makes of `input`, or `None` where it
/// refuses it.
pub uninterp spec fn url_parsed(input: Seq<char>) -> Option<Seq<char>>;

/// The serialization of the URL that `url::Url::join` makes of `input` against the URL `base`
/// (itself parsed first), or `None` where either step refuses.
pub uninterp spec fn url_joined(base: Seq<char>, input: Seq<char>) -> Option<Seq<char>>;

/// `url::Url::parse`, serialized with `to_string`; its result is named `url_parsed`.  The error
/// is passed on as its message.
#[verifier::external_body]
fn parse_url(input: &str) -> (r: Result<String, String>)
    ensures
        match url_parsed(input@) {
            Some(u) => r matches Ok(s) && s@ == u,
            None => r is Err,
        },
{
    url::Url::parse(input).map(|u| u.to_string()).map_err(|e| e.to_string())
}

/// `url::Url::parse` of `base`, then `url::Url::join` with `input`, serialized with
/// `to_string`; its result is named `url_joined`.  The error is passed on as its message.
#[verifier::external_body]
fn join_url(base: &str, input: &str) -> (r: Result<String, String>)
    ensures
        match url_joined(base@, input@) {
            Some(u) => r matches Ok(s) && s@ == u,
            None => r is Err,
        },
{
    url::Url::parse(base).and_then(|b| b.join(input)).map(|u| u.to_string()).map_err(|e| e.to_string())
}

/// Why a service could not be reached.
#[derive(Debug, Clone)]
pub enum ClientError {
    Url { field: String, value: String, message: String },
    Http(String),
    UnsupportedDid(String),
    MissingPdsService(String),
}

/// The message of a client error, as the command line shows it.
pub open spec fn client_error_message(e: ClientError) -> Seq<char> {
    match e {
        ClientError::Url { field, value, message } => "invalid "@ + field@ + " URL "@ + debug_text(value@) + ": "@
            + message@,
        ClientError::Http(m) => m@,
        ClientError::UnsupportedDid(d) => "unsupported DID method for repository lookup: "@ + d@,
        ClientError::MissingPdsService(d) => "DID document for "@ + d@
            + " does not advertise an AtprotoPersonalDataServer service"@,
    }
}

impl ClientError {
    /// The error's message, as the command line shows it.
    pub fn message(&self) -> (r: String)
        ensures
            r@ == client_error_message(*self),
    {
        match self {
            ClientError::Url { field, value, message } => {
                let mut r = String::from_str("invalid ");
                r.append(field.as_str());
                r.append(" URL ");
                r.append(debug_quoted(value.as_str()).as_str());
                r.append(": ");
                r.append(message.as_str());
                r
            },
            ClientError::Http(m) => copy_str(m.as_str()),
            ClientError::UnsupportedDid(d) => {
                let mut r = String::from_str("unsupported DID method for repository lookup: ");
                r.append(d.as_str());
                r
            },
            ClientError::MissingPdsService(d) => {
                let mut r = String::from_str("DID document for ");
                r.append(d.as_str());
                r.append(" does not advertise an AtprotoPersonalDataServer service");
                r
            },
        }
    }
}

/// A base URL from configuration, parsed; refused with the field it came from.
pub fn parse_base_url(field: &str, value: &str) -> (r: Result<String, ClientError>)
    ensures
        match url_parsed(value@) {
            Some(u) => r matches Ok(s) && s@ == u,
            None => r matches Err(e) && e matches ClientError::Url { field: f, value: v, message: _ } && f@ == field@
                && v@ == value@,
        },
{
    match parse_url(value) {
        Ok(u) => Ok(u),
        Err(message) => Err(ClientError::Url { field: copy_str(field), value: copy_str(value), message }),
    }
}

/// The parsed base URLs of the configured services.
#[derive(Debug, Clone)]
pub struct ServiceUrls {
    pub public_api_base: String,
    pub plc_directory_base: String,
}

impl ServiceUrls {
    /// Parses both service URLs, the public API's first.
    pub fn new(services: &ServiceConfig) -> (r: Result<Self, ClientError>)
        ensures
            match (url_parsed(services.public_api_base@), url_parsed(services.plc_directory_base@)) {
                (Some(a), Some(b)) => r matches Ok(u) && u.public_api_base@ == a && u.plc_directory_base@ == b,
                (None, _) => r matches Err(e) && e matches ClientError::Url { field: f, value: _, message: _ } && f@
                    == "public_api_base"@,
                (Some(_), None) => r matches Err(e) && e matches ClientError::Url { field: f, value: _, message: _ } && f@
                    == "plc_directory_base"@,
            },
    {
        let public_api_base = match parse_base_url("public_api_base", services.public_api_base.as_str()) {
            Ok(u) => u,
            Err(e) => return Err(e),
        };
        let plc_directory_base = match parse_base_url("plc_directory_base", services.plc_directory_base.as_str()) {
            Ok(u) => u,
            Err(e) => return Err(e),
        };
        Ok(ServiceUrls { public_api_base, plc_directory_base })
    }
}

/// The URL of an XRPC method on a service.
pub fn xrpc_url(base: &str, method: &str) -> (r: Result<String, ClientError>)
    ensures
        match url_joined(base@, "/xrpc/"@ + method@) {
            Some(u) => r matches Ok(s) && s@ == u,
            None => r matches Err(e) && e matches ClientError::Url { field: f, value: v, message: _ } && f@
                == "xrpc method"@ && v@ == method@,
        },
{
    let mut path = String::from_str("/xrpc/");
    path.append(method);
    match join_url(base, path.as_str()) {
        Ok(u) => Ok(u),
        Err(message) => Err(
            ClientError::Url { field: String::from_str("xrpc method"), value: copy_str(method), message },
        ),
    }
}

/// A service a DID document advertises.
#[derive(Debug, Clone)]
pub struct DidDocumentService {
    pub id: String,
    pub kind: String,
    pub service_endpoint: String,
}

/// A DID document: its id, its services, and its other members.
#[derive(Debug)]
pub struct DidDocument {
    pub id: String,
    pub service: Vec<DidDocumentService>,
    pub extra: Vec<(String, JsonValue)>,
}

/// A service entry of the personal data server.
pub open spec fn is_pds_service(s: DidDocumentService) -> bool {
    s.id@ == "#atproto_pds"@ || s.kind@ == "AtprotoPersonalDataServer"@
}

/// The base URL of the data server a DID document names: the endpoint of its first data-server
/// service, parsed.
pub fn pds_endpoint(did_doc: &DidDocument) -> (r: Result<String, ClientError>)
    ensures
        match r {
            Err(ClientError::MissingPdsService(id)) => id@ == did_doc.id@ && forall|i: int|
                0 <= i < did_doc.service@.len() ==> !is_pds_service(#[trigger] did_doc.service@[i]),
            _ => exists|i: int|
                0 <= i < did_doc.service@.len() && is_pds_service(#[trigger] did_doc.service@[i]) && (forall|j: int|
                    0 <= j < i ==> !is_pds_service(#[trigger] did_doc.service@[j])) && match url_parsed(
                    did_doc.service@[i].service_endpoint@,
                ) {
                    Some(u) => r matches Ok(s) && s@ == u,
                    None => r matches Err(e) && e matches ClientError::Url { field: f, value: v, message: _ } && f@
                        == "serviceEndpoint"@ && v@ == did_doc.service@[i].service_endpoint@,
                },
        },
{
    let mut i: usize = 0;
    while i < did_doc.service.len()
        invariant
            0 <= i <= did_doc.service@.len(),
            forall|j: int| 0 <= j < i ==> !is_pds_service(#[trigger] did_doc.service@[j]),
        decreases did_doc.service@.len() - i,
    {
        let s = &did_doc.service[i];
        if str_eq(s.id.as_str(), "#atproto_pds") || str_eq(s.kind.as_str(), "AtprotoPersonalDataServer") {
            assert(is_pds_service(did_doc.service@[i as int]));
            return parse_base_url("serviceEndpoint", s.service_endpoint.as_str());
        }
        i = i + 1;
    }
    Err(ClientError::MissingPdsService(copy_str(did_doc.id.as_str())))
}

/// The host and path of a `did:web` document: the first `:`-piece of the domain part is the
/// host; the remaining pieces, joined by `/`, name the directory of `did.json`, which without
/// them sits under `.well-known`.
pub open spec fn did_web_location(domain: Seq<char>) -> Seq<char> {
    let pieces = split_on(domain, ':');
    "https://"@ + pieces[0] + "/"@ + (if pieces.len() == 1 {
        ".well-known/did.json"@
    } else {
        join(pieces.skip(1), "/"@) + "/did.json"@
    })
}

/// Where a DID's document is fetched: `did:plc` DIDs from the PLC directory, `did:web` DIDs
/// from their own host; any other method is unsupported.
pub open spec fn did_document_location(plc_directory_base: Seq<char>, did: Seq<char>) -> Option<Result<Seq<char>, ()>> {
    if has_prefix(did, "did:plc:"@) {
        match url_joined(plc_directory_base, "/"@ + did) {
            Some(u) => Some(Ok(u)),
            None => Some(Err(())),
        }
    } else if has_prefix(did, "did:web:"@) {
        match url_parsed(did_web_location(did.skip(8))) {
            Some(u) => Some(Ok(u)),
            None => Some(Err(())),
        }
    } else {
        None
    }
}

fn strip_prefix_len(s: &str, n: usize) -> (r: String)
    requires
        n <= s@.len(),
    ensures
        r@ == s@.skip(n as int),
{
    let v = crate::text::chars_of(s);
    crate::text::chars_between(&v, n, v.len())
}

/// The URL of a DID's document (`did_document_location`); refused for other DID methods, and
/// where the URL does not parse.
pub fn did_document_url(plc_directory_base: &str, did: &str) -> (r: Result<String, ClientError>)
    ensures
        match did_document_location(plc_directory_base@, did@) {
            None => r matches Err(e) && e matches ClientError::UnsupportedDid(d) && d@ == did@,
            Some(Ok(u)) => r matches Ok(s) && s@ == u,
            Some(Err(())) => r matches Err(e) && e matches ClientError::Url { field: f, value: v, message: _ } && f@
                == "did"@ && v@ == did@,
        },
{
    if starts_with(did, "did:plc:") {
        let mut path = String::from_str("/");
        path.append(did);
        return match join_url(plc_directory_base, path.as_str()) {
            Ok(u) => Ok(u),
            Err(message) => Err(ClientError::Url { field: String::from_str("did"), value: copy_str(did), message }),
        };
    }
    if starts_with(did, "did:web:") {
        proof {
            reveal_strlit("did:web:");
        }
        let domain = strip_prefix_len(did, 8);
        let pieces = split_char(domain.as_str(), ':');
        let ghost views = pieces@.map_values(|p: String| p@);
        let mut location = String::from_str("https://");
        location.append(pieces[0].as_str());
        location.append("/");
        if pieces.len() == 1 {
            location.append(".well-known/did.json");
        } else {
            let mut rest: Vec<String> = Vec::new();
            let mut i: usize = 1;
            while i < pieces.len()
                invariant
                    1 <= i <= pieces@.len(),
                    views == pieces@.map_values(|p: String| p@),
                    rest@.map_values(|p: String| p@) == views.skip(1).take(i - 1),
                decreases pieces@.len() - i,
            {
                let ghost before = rest@;
                rest.push(copy_str(pieces[i].as_str()));
                assert(rest@.map_values(|p: String| p@) =~= before.map_values(|p: String| p@).push(views[i as int]));
                assert(views.skip(1).take(i as int) =~= views.skip(1).take(i - 1).push(views[i as int]));
                i = i + 1;
            }
            assert(views.skip(1).take(pieces@.len() - 1) =~= views.skip(1));
            location.append(join_strings(&rest, "/").as_str());
            location.append("/did.json");
        }
        assert(location@ =~= did_web_location(did@.skip(8)));
        return match parse_url(location.as_str()) {
            Ok(u) => Ok(u),
            Err(message) => Err(ClientError::Url { field: String::from_str("did"), value: copy_str(did), message }),
        };
    }
    Err(ClientError::UnsupportedDid(copy_str(did)))
}

} // verus!
