use rbrowser::url::{Scheme, Url, UrlError};

#[test]
fn new_url() {
    let url = Url::new("http://example.org/path").unwrap();
    assert_eq!(Scheme::Http, url.scheme);
    assert_eq!("example.org", url.host);
    assert_eq!(80, url.port);
    assert_eq!("/path", url.path);
}

#[test]
fn new_https_url() {
    let url = Url::new("https://example.org/path").unwrap();
    assert_eq!(Scheme::Https, url.scheme);
    assert_eq!("example.org", url.host);
    assert_eq!(443, url.port);
    assert_eq!("/path", url.path);
}

#[test]
fn new_url_with_custom_port() {
    let url = Url::new("http://example.org:8080/path").unwrap();
    assert_eq!("example.org", url.host);
    assert_eq!(8080, url.port);
    assert_eq!("/path", url.path);
}

#[test]
fn new_url_without_path() {
    let url = Url::new("http://example.org").unwrap();
    assert_eq!("/", url.path);
}

#[test]
fn new_url_without_scheme() {
    let result = Url::new("example.org");
    assert!(result.is_err());
}

#[test]
fn new_url_with_scheme_only() {
    let result = Url::new("http://");
    assert!(result.is_err());
}

#[test]
fn to_string_with_http() {
    let url = Url::new("http://example.org/path").unwrap();
    assert_eq!("http://example.org:80/path", url.to_string());
}

#[test]
fn to_string_with_https() {
    let url = Url::new("https://example.org/path").unwrap();
    assert_eq!("https://example.org:443/path", url.to_string());
}

#[test]
fn url_errors_by_kind() {
    assert_eq!(Err(UrlError::UnknownScheme), Url::new("example.org"));
    assert_eq!(Err(UrlError::UnknownScheme), Url::new("ftp://example.org"));
    assert_eq!(Err(UrlError::UnknownScheme), Url::new("HTTP://example.org"));
    assert_eq!(Err(UrlError::NoHost), Url::new("http://"));
    assert_eq!(Err(UrlError::NoHost), Url::new("ftp://"));
    assert_eq!(Err(UrlError::InvalidPort), Url::new("http://example.org:port/"));
    assert_eq!(Err(UrlError::InvalidPort), Url::new("http://example.org:65536/"));
    assert_eq!(Err(UrlError::InvalidPort), Url::new("http://example.org:/"));
    assert_eq!(Err(UrlError::InvalidPort), Url::new("http://example.org:-1/"));
    assert_eq!(Err(UrlError::InvalidPort), Url::new("http://example.org:80:80/"));
}

#[test]
fn url_error_messages() {
    assert_eq!("Invalid data url: ',' missing", UrlError::InvalidDataUrlFormat.to_string());
    assert_eq!("Invalid port", UrlError::InvalidPort.to_string());
    assert_eq!("Missing host", UrlError::NoHost.to_string());
    assert_eq!("Unknown scheme, must be http or https", UrlError::UnknownScheme.to_string());
}

#[test]
fn url_port_edges() {
    assert_eq!(65535, Url::new("http://example.org:65535").unwrap().port);
    assert_eq!(0, Url::new("http://example.org:0").unwrap().port);
    assert_eq!(80, Url::new("http://example.org:+80").unwrap().port);
    assert_eq!(80, Url::new("https://example.org:00080/x").unwrap().port);
    assert_eq!(443, Url::new("https://example.org").unwrap().port);
}

#[test]
fn url_splits_at_first_separators() {
    let url = Url::new("http://example.org/a://b/c:d").unwrap();
    assert_eq!("example.org", url.host);
    assert_eq!("/a://b/c:d", url.path);
    let url = Url::new("http:///path").unwrap();
    assert_eq!("", url.host);
    assert_eq!("/path", url.path);
    let url = Url::new("https://h\u{f6}st:8443").unwrap();
    assert_eq!("h\u{f6}st", url.host);
    assert_eq!(8443, url.port);
}

#[test]
fn url_round_trip() {
    for text in [
        "http://example.org",
        "http://example.org/path",
        "https://example.org:8080/a/b?c=d",
        "http://:81/",
        "https://example.org:+0443",
    ] {
        let url = Url::new(text).unwrap();
        let formatted = url.to_string();
        let port = format!(":{}/", url.port);
        assert!(formatted.contains(&port));
        assert_eq!(url, Url::new(&formatted).unwrap());
    }
}

#[test]
fn scheme_ports_and_names() {
    assert_eq!(80, Scheme::Http.default_port());
    assert_eq!(443, Scheme::Https.default_port());
    assert_eq!("http", Scheme::Http.to_string());
    assert_eq!("https", Scheme::Https.to_string());
}

#[test]
fn url_clone_is_equal() {
    let url = Url::new("https://example.org:8080/path").unwrap();
    assert_eq!(url, url.clone());
}
