//! Content negotiation: the headers that a request must carry.

use crate::error::{failure, Error, ErrorKind, ErrorView, Header};
use vstd::prelude::*;
use vstd::string::*;

verus! {

/// The media type of the protocol.
pub const JSON_API_HEADER: &'static str = "application/vnd.api+json";

/// The version of the protocol that a service speaks, as a header writes
/// it: `1.0`, for one.
#[derive(Clone, Debug, PartialEq, Eq)]
pub struct JsonApiVersion(pub String);

/// Whether a header value names the media type of the protocol in the
/// version `version`: it is the media type, alone or followed by the one
/// parameter `version`, whose value is `version`.
pub open spec fn names_json_api(value: Seq<char>, version: Seq<char>) -> bool {
    ||| value == JSON_API_HEADER@
    ||| value == JSON_API_HEADER@ + ";version="@ + version
    ||| value == JSON_API_HEADER@ + "; version="@ + version
}

/// What the check of a header comes to: nothing for a header that names
/// the media type of the protocol, `HeaderMismatch` for one that does not,
/// and for a header that is not there.
pub open spec fn header_checked(header: Header, value: Option<String>, version: Seq<char>) -> Result<
    (),
    ErrorView,
> {
    match value {
        Some(text) => if names_json_api(text@, version) {
            Ok(())
        } else {
            Err(failure(ErrorKind::HeaderMismatch(header), header_name(header), text@))
        },
        None => Err(failure(ErrorKind::HeaderMismatch(header), header_name(header), Seq::empty())),
    }
}

/// The name of a header.
pub open spec fn header_name(header: Header) -> Seq<char> {
    match header {
        Header::ContentType => "Content-Type"@,
        Header::Accept => "Accept"@,
    }
}

fn name_of(header: Header) -> (name: &'static str)
    ensures
        name@ == header_name(header),
{
    match header {
        Header::ContentType => "Content-Type",
        Header::Accept => "Accept",
    }
}

fn check(header: Header, api_version: &JsonApiVersion, value: &Option<String>) -> (r: Result<
    (),
    Error,
>)
    ensures
        match r {
            Ok(()) => header_checked(header, *value, api_version.0@) == Ok::<(), ErrorView>(()),
            Err(e) => header_checked(header, *value, api_version.0@) == Err::<(), ErrorView>(e@),
        },
{
    match value {
        Some(text) => {
            let plain = String::from_str(JSON_API_HEADER);
            let tight = String::from_str(JSON_API_HEADER).concat(";version=").concat(
                api_version.0.as_str(),
            );
            let spaced = String::from_str(JSON_API_HEADER).concat("; version=").concat(
                api_version.0.as_str(),
            );
            if *text == plain || *text == tight || *text == spaced {
                Ok(())
            } else {
                Err(Error::new(ErrorKind::HeaderMismatch(header), name_of(header), text.as_str()))
            }
        },
        None => Err(Error::about(ErrorKind::HeaderMismatch(header), name_of(header))),
    }
}

/// The rules of content negotiation.
pub struct RuleDispatcher;

impl RuleDispatcher {
    /// The `Content-Type` of a request must name the media type of the
    /// protocol.
    #[allow(non_snake_case)]
    pub fn ContentTypeMustBeJsonApi(api_version: &JsonApiVersion, content_type: &Option<String>) -> (r:
        Result<(), Error>)
        ensures
            match r {
                Ok(()) => header_checked(Header::ContentType, *content_type, api_version.0@) == Ok::<
                    (),
                    ErrorView,
                >(()),
                Err(e) => header_checked(Header::ContentType, *content_type, api_version.0@)
                    == Err::<(), ErrorView>(e@),
            },
    {
        check(Header::ContentType, api_version, content_type)
    }

    /// The `Accept` header of a request must name the media type of the
    /// protocol.
    #[allow(non_snake_case)]
    pub fn AcceptHeaderShouldBeJsonApi(api_version: &JsonApiVersion, accept: &Option<String>) -> (r:
        Result<(), Error>)
        ensures
            match r {
                Ok(()) => header_checked(Header::Accept, *accept, api_version.0@) == Ok::<
                    (),
                    ErrorView,
                >(()),
                Err(e) => header_checked(Header::Accept, *accept, api_version.0@) == Err::<
                    (),
                    ErrorView,
                >(e@),
            },
    {
        check(Header::Accept, api_version, accept)
    }
}

/// What the check of both headers comes to: the failure of the
/// `Content-Type`, or else that of the `Accept` header.
pub open spec fn headers_checked(
    content_type: Option<String>,
    accept: Option<String>,
    version: Seq<char>,
) -> Result<(), ErrorView> {
    match header_checked(Header::ContentType, content_type, version) {
        Err(e) => Err(e),
        Ok(()) => header_checked(Header::Accept, accept, version),
    }
}

/// Checks the two headers of a request.
pub fn check_header(
    api_version: &JsonApiVersion,
    content_type: &Option<String>,
    accept: &Option<String>,
) -> (r: Result<(), Error>)
    ensures
        match r {
            Ok(()) => headers_checked(*content_type, *accept, api_version.0@) == Ok::<
                (),
                ErrorView,
            >(()),
            Err(e) => headers_checked(*content_type, *accept, api_version.0@) == Err::<
                (),
                ErrorView,
            >(e@),
        },
{
    RuleDispatcher::ContentTypeMustBeJsonApi(api_version, content_type)?;
    RuleDispatcher::AcceptHeaderShouldBeJsonApi(api_version, accept)
}

} // verus!
