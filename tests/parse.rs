use url_split::{parse_url, ErrorKind, Url, UrlError};

fn fields(u: &Url) -> (&str, &str, &str, &str, &str) {
    (&u.scheme, &u.host, &u.port, &u.path, &u.query)
}

fn place(e: &UrlError) -> (ErrorKind, usize, usize) {
    (e.kind, e.at, e.offset)
}

fn err(s: &str) -> UrlError {
    match parse_url(s) {
        Ok(u) => panic!("expected an error for {:?}, got {:?}", s, u),
        Err(e) => e,
    }
}

#[test]
fn parse_url_smoke() {
    let url = parse_url("https://example.com:449/foo/bar?name=moo").unwrap();

    assert_eq!("https", url.scheme);
    assert_eq!("example.com", url.host);
    assert_eq!("449", url.port);
    assert_eq!("/foo/bar", url.path);
    assert_eq!("name=moo", url.query);
}

#[test]
fn no_port_no_query() {
    let u = parse_url("https://example.com/foo").unwrap();
    assert_eq!(fields(&u), ("https", "example.com", "", "/foo", ""));
}

#[test]
fn bracketed_ipv6_host_with_port() {
    let u = parse_url("https://[::1]:8080/").unwrap();
    assert_eq!(fields(&u), ("https", "[::1]", "8080", "/", ""));
}

#[test]
fn no_authority_keeps_rest_as_path() {
    let u = parse_url("mailto:user@example.com").unwrap();
    assert_eq!(fields(&u), ("mailto", "", "", "user@example.com", ""));
}

#[test]
fn empty_input_is_invalid_input() {
    let e = err("");
    assert_eq!(e.kind, ErrorKind::InvalidInput);
    assert_eq!(e.at, 0);
}

#[test]
fn missing_scheme_is_invalid_scheme() {
    let e = err("://nohost");
    assert_eq!(e.kind, ErrorKind::InvalidScheme);
    assert_eq!(e.at, 0);
}

#[test]
fn port_out_of_range() {
    let e = err("https://host:99999/");
    assert_eq!(place(&e), (ErrorKind::InvalidPort, 13, 13));
}

#[test]
fn largest_port_is_accepted() {
    let u = parse_url("http://h:65535/").unwrap();
    assert_eq!(u.port, "65535");
    assert_eq!(err("http://h:65536/").kind, ErrorKind::InvalidPort);
    let u = parse_url("http://h:000000000000000000080/").unwrap();
    assert_eq!(u.port, "000000000000000000080");
}

#[test]
fn non_digit_port() {
    let e = err("http://host:8a/");
    assert_eq!(place(&e), (ErrorKind::InvalidPort, 12, 12));
}

#[test]
fn empty_port_after_colon() {
    let u = parse_url("http://host:/x").unwrap();
    assert_eq!(fields(&u), ("http", "host", "", "/x", ""));
}

#[test]
fn unclosed_bracket_is_invalid_host() {
    let e = err("http://[::1/x");
    assert_eq!(place(&e), (ErrorKind::InvalidHost, 7, 7));
}

#[test]
fn text_after_bracket_is_invalid_host() {
    let e = err("http://[::1]x/");
    assert_eq!(place(&e), (ErrorKind::InvalidHost, 7, 7));
}

#[test]
fn userinfo_is_dropped_at_last_at_sign() {
    let u = parse_url("ftp://user:p@ss@Host.Example:21/file").unwrap();
    assert_eq!(fields(&u), ("ftp", "host.example", "21", "/file", ""));
}

#[test]
fn scheme_and_host_are_lower_cased() {
    let u = parse_url("HTTPS://EXAMPLE.COM/PATH?Q=A").unwrap();
    assert_eq!(fields(&u), ("https", "example.com", "", "/PATH", "Q=A"));
}

#[test]
fn empty_path_with_authority_becomes_slash() {
    let u = parse_url("http://example.com").unwrap();
    assert_eq!(fields(&u), ("http", "example.com", "", "/", ""));
    let u = parse_url("http://example.com?a=b").unwrap();
    assert_eq!(fields(&u), ("http", "example.com", "", "/", "a=b"));
}

#[test]
fn empty_path_without_authority_stays_empty() {
    let u = parse_url("urn:?x").unwrap();
    assert_eq!(fields(&u), ("urn", "", "", "", "x"));
}

#[test]
fn only_first_question_mark_splits() {
    let u = parse_url("http://h/p?a=1?b=2").unwrap();
    assert_eq!(u.path, "/p");
    assert_eq!(u.query, "a=1?b=2");
}

#[test]
fn percent_encoding_is_kept() {
    let u = parse_url("http://h/a%20b?c=%41").unwrap();
    assert_eq!(u.path, "/a%20b");
    assert_eq!(u.query, "c=%41");
}

#[test]
fn surrounding_whitespace_is_ignored() {
    let u = parse_url(" \t https://example.com:449/foo?x \r\n").unwrap();
    assert_eq!(fields(&u), ("https", "example.com", "449", "/foo", "x"));
}

#[test]
fn blank_input_is_invalid_input() {
    let e = err(" \t\n ");
    assert_eq!(e.kind, ErrorKind::InvalidInput);
}

#[test]
fn control_character_is_invalid_input() {
    let e = err("http://ho\u{1}st/");
    assert_eq!(place(&e), (ErrorKind::InvalidInput, 9, 9));
    let e = err("http://h/a\tb");
    assert_eq!(place(&e), (ErrorKind::InvalidInput, 10, 10));
}

#[test]
fn bad_scheme_characters() {
    assert_eq!(err("1http://h/").kind, ErrorKind::InvalidScheme);
    assert_eq!(err("ht_tp://h/").kind, ErrorKind::InvalidScheme);
    assert_eq!(err("example.com").kind, ErrorKind::InvalidScheme);
    assert_eq!(err("  example.com/a:b").at, 2);
}

#[test]
fn scheme_allows_plus_dot_dash() {
    let u = parse_url("svn+SSH.x-y://h/r").unwrap();
    assert_eq!(u.scheme, "svn+ssh.x-y");
}

#[test]
fn error_position_counts_characters() {
    let e = err("h\u{e9}://x");
    assert_eq!(place(&e), (ErrorKind::InvalidScheme, 0, 0));
    let u = parse_url("http://\u{e9}t\u{e9}:8/\u{e9}").unwrap();
    assert_eq!(fields(&u), ("http", "\u{e9}t\u{e9}", "8", "/\u{e9}", ""));
    let e = err("http://\u{e9}:x/");
    assert_eq!(place(&e), (ErrorKind::InvalidPort, 9, 10));
    let e = err(" \u{e9}\u{e9}://x");
    assert_eq!(place(&e), (ErrorKind::InvalidScheme, 1, 1));
    let e = err("a://\u{e9}\u{1}");
    assert_eq!(place(&e), (ErrorKind::InvalidInput, 5, 6));
}

fn reassemble(u: &Url) -> String {
    format!("{}://{}:{}{}?{}", u.scheme, u.host, u.port, u.path, u.query)
}

#[test]
fn full_form_round_trip() {
    let input = "HTTP://Example.COM:8080/a/b?c=d";
    let u = parse_url(input).unwrap();
    assert_eq!(reassemble(&u), "http://example.com:8080/a/b?c=d");
    let u = parse_url("https://example.com:449/foo/bar?name=moo").unwrap();
    assert_eq!(reassemble(&u), "https://example.com:449/foo/bar?name=moo");
    let u = parse_url("HTTP://[::AB]:80/x?y").unwrap();
    assert_eq!(reassemble(&u), "http://[::ab]:80/x?y");
}

#[test]
fn reparse_is_stable() {
    let first = parse_url("  Git+SSH://u@Host.Org:22/repo.git?x=1?y  ").unwrap();
    let second = parse_url(&reassemble(&first)).unwrap();
    assert_eq!(fields(&first), fields(&second));
    assert_eq!(fields(&second), ("git+ssh", "host.org", "22", "/repo.git", "x=1?y"));
}
