use url_parser::{
    optional_fragment_id, optional_path, optional_port, optional_query, parse_fragment_id,
    parse_host, parse_path, parse_port, parse_query, parse_scheme, parse_url, ErrorKind,
    FragmentId, Host, ParseError, Path, Port, Query, Scheme, URL,
};

fn err(kind: ErrorKind, position: usize) -> ParseError {
    ParseError { kind, position }
}

fn q(k: &str, v: &str) -> Query {
    Query(k.to_string(), v.to_string())
}

#[test]
fn test_parse_scheme() {
    assert_eq!(
        parse_scheme("http://example.com"),
        Ok(("example.com", Scheme::HTTP))
    );
    assert_eq!(
        parse_scheme("https://example.com"),
        Ok(("example.com", Scheme::HTTPS))
    );
}

#[test]
fn test_parse_host() {
    assert_eq!(
        parse_host("host.example.com/a"),
        Ok(("/a", Host("host.example.com".to_string())))
    );
    assert_eq!(
        parse_host("example.com/a"),
        Ok(("/a", Host("example.com".to_string())))
    );
}

#[test]
fn test_parse_port() {
    assert_eq!(parse_port(":0/a"), Ok(("/a", Port(0))));
    assert_eq!(parse_port(":65535/a"), Ok(("/a", Port(65535))));
    assert_eq!(optional_port("/a"), ("/a", None));
}

#[test]
fn test_parse_path() {
    assert_eq!(
        parse_path("/a/b?id=0"),
        Ok(("?id=0", Path("/a/b".to_string())))
    );
    assert_eq!(parse_path("/a?id=0"), Ok(("?id=0", Path("/a".to_string()))));
    assert_eq!(optional_path("?id=0"), ("?id=0", None));
}

#[test]
fn test_parse_query() {
    assert_eq!(parse_query("?a=0#a"), Ok(("#a", vec![q("a", "0")])));
    assert_eq!(
        parse_query("?a=0&b=1#a"),
        Ok(("#a", vec![q("a", "0"), q("b", "1")]))
    );
    assert_eq!(optional_query("#a"), ("#a", None));
}

#[test]
fn test_parse_fragment_id() {
    assert_eq!(
        parse_fragment_id("#a"),
        Ok(("", FragmentId("a".to_string())))
    );
    assert_eq!(optional_fragment_id(""), ("", None));
}

#[test]
fn test_parse_url() {
    assert_eq!(
        parse_url("https://example.com:80/a/b?id=10#Index"),
        Ok((
            "",
            URL {
                scheme: Scheme::HTTPS,
                host: Host("example.com".to_string()),
                port: Some(Port(80)),
                path: Some(Path("/a/b".to_string())),
                query: Some(vec![q("id", "10")]),
                fragment_id: Some(FragmentId("Index".to_string())),
            }
        ))
    );
}

#[test]
fn minimal_url() {
    assert_eq!(
        parse_url("http://example.com"),
        Ok((
            "",
            URL {
                scheme: Scheme::HTTP,
                host: Host("example.com".to_string()),
                port: None,
                path: None,
                query: None,
                fragment_id: None,
            }
        ))
    );
}

#[test]
fn unknown_scheme() {
    assert_eq!(parse_scheme("ftp://x.y"), Err(err(ErrorKind::UnknownScheme, 0)));
    assert_eq!(parse_scheme("//x.y"), Err(err(ErrorKind::UnknownScheme, 0)));
    assert_eq!(parse_url("example.com"), Err(err(ErrorKind::UnknownScheme, 0)));
}

#[test]
fn host_needs_a_dot() {
    assert_eq!(
        parse_host("example.com"),
        Ok(("", Host("example.com".to_string())))
    );
    assert_eq!(parse_host("example"), Err(err(ErrorKind::InvalidHost, 0)));
    assert_eq!(parse_host(".com"), Err(err(ErrorKind::InvalidHost, 0)));
    assert_eq!(parse_host("a.b./x"), Err(err(ErrorKind::InvalidHost, 4)));
    assert_eq!(
        parse_url("http://localhost/a"),
        Err(err(ErrorKind::InvalidHost, 7))
    );
}

#[test]
fn host_final_label_may_hold_digits() {
    assert_eq!(parse_host("a.b2:8"), Ok((":8", Host("a.b2".to_string()))));
}

#[test]
fn port_errors() {
    assert_eq!(parse_port("80"), Err(err(ErrorKind::UnexpectedInput, 0)));
    assert_eq!(
        parse_port(":/a"),
        Err(err(ErrorKind::TrailingDelimiterWithoutBody, 1))
    );
    assert_eq!(parse_port(":65536"), Err(err(ErrorKind::PortOutOfRange, 1)));
    assert_eq!(
        parse_port(":99999999999999999999"),
        Err(err(ErrorKind::PortOutOfRange, 1))
    );
    assert_eq!(parse_port(":007"), Ok(("", Port(7))));
}

#[test]
fn path_errors_and_trailing_slash() {
    assert_eq!(parse_path("a/b"), Err(err(ErrorKind::UnexpectedInput, 0)));
    assert_eq!(
        parse_path("//a"),
        Err(err(ErrorKind::TrailingDelimiterWithoutBody, 1))
    );
    assert_eq!(parse_path("/a/"), Ok(("/", Path("/a".to_string()))));
}

#[test]
fn query_keeps_order_and_duplicates() {
    assert_eq!(
        parse_query("?a=1&a=2"),
        Ok(("", vec![q("a", "1"), q("a", "2")]))
    );
}

#[test]
fn query_errors_and_partial_pairs() {
    assert_eq!(
        parse_query("?"),
        Err(err(ErrorKind::TrailingDelimiterWithoutBody, 1))
    );
    assert_eq!(
        parse_query("?a="),
        Err(err(ErrorKind::TrailingDelimiterWithoutBody, 1))
    );
    assert_eq!(parse_query("a=1"), Err(err(ErrorKind::UnexpectedInput, 0)));
    assert_eq!(parse_query("?a=1&"), Ok(("&", vec![q("a", "1")])));
    assert_eq!(parse_query("?a=1&b"), Ok(("&b", vec![q("a", "1")])));
}

#[test]
fn fragment_errors() {
    assert_eq!(
        parse_fragment_id("#"),
        Err(err(ErrorKind::TrailingDelimiterWithoutBody, 1))
    );
    assert_eq!(
        parse_fragment_id("x"),
        Err(err(ErrorKind::UnexpectedInput, 0))
    );
}

#[test]
fn failed_optional_fields_consume_nothing() {
    assert_eq!(optional_port(":x"), (":x", None));
    assert_eq!(optional_path("/?"), ("/?", None));
    assert_eq!(optional_query("?&"), ("?&", None));
    assert_eq!(optional_fragment_id("#!"), ("#!", None));
}

#[test]
fn url_leaves_trailing_input() {
    let (rest, url) = parse_url("http://example.com? tail").unwrap();
    assert_eq!(rest, "? tail");
    assert_eq!(url.query, None);
    assert_eq!(url.host, Host("example.com".to_string()));
}

#[test]
fn url_optional_fields_drop_one_by_one() {
    let full = parse_url("https://example.com:80/a/b?id=10#Index").unwrap().1;
    let no_fragment = parse_url("https://example.com:80/a/b?id=10").unwrap();
    assert_eq!(no_fragment.0, "");
    assert_eq!(no_fragment.1.fragment_id, None);
    assert_eq!(no_fragment.1.query, full.query);
    let no_query = parse_url("https://example.com:80/a/b").unwrap().1;
    assert_eq!(no_query.query, None);
    assert_eq!(no_query.path, full.path);
    let no_path = parse_url("https://example.com:80").unwrap().1;
    assert_eq!(no_path.path, None);
    assert_eq!(no_path.port, Some(Port(80)));
    let no_port = parse_url("https://example.com").unwrap().1;
    assert_eq!(no_port.port, None);
    assert_eq!(no_port.host, full.host);
    assert_eq!(no_port.scheme, Scheme::HTTPS);
}

#[test]
fn url_decode_is_repeatable() {
    let s = "https://example.com:80/a/b?id=10#Index";
    assert_eq!(parse_url(s), parse_url(s));
    assert_eq!(parse_url("ftp://x"), parse_url("ftp://x"));
}
