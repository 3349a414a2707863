use rbrowser::request::Request;
use rbrowser::url::Url;

#[test]
fn build() {
    let request = Request::new(Url::new("http://example.com").unwrap());
    let expected = "GET / HTTP/1.1\r\n\
                    Host: example.com\r\n\
                    Connection: close\r\n\r\n";
    assert_eq!(expected, request.build());
}

#[test]
fn build_with_custom_header() {
    let mut request = Request::new(Url::new("http://example.com").unwrap());
    request.header("Header-A", "A");
    let expected = "GET / HTTP/1.1\r\n\
                    Host: example.com\r\n\
                    Connection: close\r\n\
                    Header-A: A\r\n\r\n";
    assert_eq!(expected, request.build());
}

#[test]
fn build_overwrites_header_in_place() {
    let mut request = Request::new(Url::new("https://example.com:8443/a/b?c").unwrap());
    request.header("Accept-Encoding", "identity");
    request.header("Header-A", "A");
    request.header("Accept-Encoding", "gzip");
    request.header("header-a", "a");
    let expected = "GET /a/b?c HTTP/1.1\r\n\
                    Host: example.com\r\n\
                    Connection: close\r\n\
                    Accept-Encoding: gzip\r\n\
                    Header-A: A\r\n\
                    header-a: a\r\n\r\n";
    assert_eq!(expected, request.build());
}

#[test]
fn request_keeps_its_url() {
    let url = Url::new("http://example.com/x").unwrap();
    let request = Request::new(url.clone());
    assert_eq!(url, request.url);
}

#[test]
fn build_has_each_header_once() {
    let mut request = Request::new(Url::new("http://example.com").unwrap());
    request.header("User-Agent", "rbrowser");
    let expected = "GET / HTTP/1.1\r\n\
                    Host: example.com\r\n\
                    Connection: close\r\n\
                    User-Agent: rbrowser\r\n\r\n";
    let built = request.build();
    assert_eq!(expected, built);
    assert_eq!(1, built.matches("User-Agent: rbrowser\r\n").count());
}
