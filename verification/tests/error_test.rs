use rabbithole::error::{Error, ErrorKind, Header, DEFAULT_STATUS};
use rabbithole::rule::{check_header, JsonApiVersion, RuleDispatcher, JSON_API_HEADER};

fn declared(status: Option<&str>) -> Error {
    Error {
        kind: ErrorKind::EntityNotFound,
        status: status.map(|s| s.to_string()),
        subject: String::new(),
        detail: String::new(),
    }
}

#[test]
fn each_kind_declares_its_status() {
    let all = [
        (ErrorKind::MalformedQuery, "400", 400),
        (ErrorKind::FieldNotExist, "400", 400),
        (ErrorKind::UnsupportedComparison, "400", 400),
        (ErrorKind::RelationshipPathNotSupported, "501", 501),
        (ErrorKind::DuplicateId, "409", 409),
        (ErrorKind::InvalidIdentifier, "400", 400),
        (ErrorKind::WrongFieldType, "400", 400),
        (ErrorKind::EntityNotFound, "404", 404),
        (ErrorKind::HeaderMismatch(Header::ContentType), "415", 415),
        (ErrorKind::HeaderMismatch(Header::Accept), "406", 406),
        (ErrorKind::CursorTargetNotFound, "400", 400),
        (ErrorKind::UnsupportedCrossEntityFilter, "501", 501),
    ];
    for (kind, text, number) in all {
        let e = Error::new(kind, "subject", "detail");
        assert_eq!(e.kind, kind);
        assert_eq!(e.subject, "subject");
        assert_eq!(e.detail, "detail");
        assert_eq!(e.status.as_deref(), Some(text));
        assert_eq!(kind.status(), text);
        assert_eq!(e.status_code(), number);
    }
}

#[test]
fn status_is_read_from_three_digits() {
    assert_eq!(declared(Some("404")).status_code(), 404);
    assert_eq!(declared(Some("100")).status_code(), 100);
    assert_eq!(declared(Some("999")).status_code(), 999);
    assert_eq!(declared(Some("200")).status_code(), 200);
}

#[test]
fn status_defaults_to_bad_request() {
    assert_eq!(DEFAULT_STATUS, 400);
    for unreadable in
        ["", "40", "4040", "099", "000", "abc", "4o4", " 404", "404 ", "+44", "-44", "4.4", "٤٠٤", "é4"]
    {
        assert_eq!(declared(Some(unreadable)).status_code(), 400, "{:?}", unreadable);
    }
    assert_eq!(declared(None).status_code(), 400);
}

fn version() -> JsonApiVersion {
    JsonApiVersion("1.0".into())
}

fn header(value: &str) -> Option<String> {
    Some(value.to_string())
}

#[test]
fn headers_that_name_the_media_type() {
    assert_eq!(JSON_API_HEADER, "application/vnd.api+json");
    for good in [
        "application/vnd.api+json",
        "application/vnd.api+json;version=1.0",
        "application/vnd.api+json; version=1.0",
    ] {
        assert_eq!(RuleDispatcher::ContentTypeMustBeJsonApi(&version(), &header(good)), Ok(()));
        assert_eq!(RuleDispatcher::AcceptHeaderShouldBeJsonApi(&version(), &header(good)), Ok(()));
        assert_eq!(check_header(&version(), &header(good), &header(good)), Ok(()));
    }
}

#[test]
fn headers_that_do_not() {
    for bad in [
        "",
        "application/json",
        "application/vnd.api+json;version=1.1",
        "application/vnd.api+json; version=",
        "application/vnd.api+json;",
        "application/vnd.api+json; charset=utf-8",
        "application/vnd.api+json;version=1.0;charset=utf-8",
        "Application/vnd.api+json",
        " application/vnd.api+json",
        "*/*",
    ] {
        let e = RuleDispatcher::ContentTypeMustBeJsonApi(&version(), &header(bad)).unwrap_err();
        assert_eq!(e.kind, ErrorKind::HeaderMismatch(Header::ContentType));
        assert_eq!(e.subject, "Content-Type");
        assert_eq!(e.detail, bad);
        assert_eq!(e.status_code(), 415);
        let e = RuleDispatcher::AcceptHeaderShouldBeJsonApi(&version(), &header(bad)).unwrap_err();
        assert_eq!(e.kind, ErrorKind::HeaderMismatch(Header::Accept));
        assert_eq!(e.subject, "Accept");
        assert_eq!(e.detail, bad);
        assert_eq!(e.status_code(), 406);
    }
}

#[test]
fn header_that_is_not_there() {
    let e = RuleDispatcher::ContentTypeMustBeJsonApi(&version(), &None).unwrap_err();
    assert_eq!(e.kind, ErrorKind::HeaderMismatch(Header::ContentType));
    assert_eq!(e.detail, "");
    let e = RuleDispatcher::AcceptHeaderShouldBeJsonApi(&version(), &None).unwrap_err();
    assert_eq!(e.kind, ErrorKind::HeaderMismatch(Header::Accept));
}

#[test]
fn content_type_is_checked_before_accept() {
    let good = header("application/vnd.api+json");
    let bad = header("text/html");
    assert_eq!(
        check_header(&version(), &bad, &bad).unwrap_err().kind,
        ErrorKind::HeaderMismatch(Header::ContentType)
    );
    assert_eq!(
        check_header(&version(), &good, &bad).unwrap_err().kind,
        ErrorKind::HeaderMismatch(Header::Accept)
    );
    assert_eq!(
        check_header(&version(), &None, &good).unwrap_err().kind,
        ErrorKind::HeaderMismatch(Header::ContentType)
    );
}
