use rbrowser::url::{Url, UrlError};
use rbrowser::url_parser::{UrlParser, UrlType};

#[test]
fn parse_http_url() {
    let result = UrlParser::parse("http://example.com").unwrap();
    let expected = Url::new("http://example.com").unwrap();
    match result {
        UrlType::Http(url) => assert_eq!(expected, url),
        _ => assert!(false),
    }
}

#[test]
fn parse_https_url() {
    let result = UrlParser::parse("https://example.com").unwrap();
    let expected = Url::new("https://example.com").unwrap();
    match result {
        UrlType::Http(url) => assert_eq!(expected, url),
        _ => assert!(false),
    }
}

#[test]
fn parse_viewsource_url() {
    let result = UrlParser::parse("view-source:http://example.com").unwrap();
    let expected = Url::new("http://example.com").unwrap();
    match result {
        UrlType::ViewSource(url) => assert_eq!(expected, url),
        _ => assert!(false),
    }
}

#[test]
fn parse_data_url() {
    let result = UrlParser::parse("data:text/html,test").unwrap();
    match result {
        UrlType::Data {
            mediatype,
            base64,
            data,
        } => {
            assert_eq!(Some("text/html".to_string()), mediatype);
            assert_eq!(false, base64);
            assert_eq!("test", data);
        }
        _ => assert!(false),
    }
}

#[test]
fn parse_data_url_with_base64_set() {
    let result = UrlParser::parse("data:image/gif;base64,image").unwrap();
    match result {
        UrlType::Data {
            mediatype,
            base64,
            data,
        } => {
            assert_eq!(Some("image/gif".to_string()), mediatype);
            assert_eq!(true, base64);
            assert_eq!("image", data);
        }
        _ => assert!(false),
    }
}

#[test]
fn parse_data_url_with_no_data() {
    let result = UrlParser::parse("data:,").unwrap();
    match result {
        UrlType::Data {
            mediatype,
            base64,
            data,
        } => {
            assert_eq!(None, mediatype);
            assert_eq!(false, base64);
            assert_eq!("", data);
        }
        _ => assert!(false),
    }
}

#[test]
fn parse_invalid_data_url() {
    assert!(UrlParser::parse("data:nodata").is_err());
}

#[test]
fn parse_url_with_unknown_scheme() {
    assert!(UrlParser::parse("mailto:x@y.com").is_err());
}

fn data_parts(input: &str) -> (Option<String>, bool, String) {
    match UrlParser::parse(input).unwrap() {
        UrlType::Data {
            mediatype,
            base64,
            data,
        } => (mediatype, base64, data),
        _ => panic!("no data url"),
    }
}

#[test]
fn data_url_examples() {
    assert_eq!(
        (Some("text/html".to_string()), false, "hello".to_string()),
        data_parts("data:text/html,hello")
    );
    assert_eq!(
        (Some("image/gif".to_string()), true, "ABC".to_string()),
        data_parts("data:image/gif;base64,ABC")
    );
    assert_eq!((None, false, "".to_string()), data_parts("data:,"));
    assert_eq!((None, true, "QQ==".to_string()), data_parts("data:;base64,QQ=="));
    assert_eq!(
        (Some("text/plain".to_string()), false, "a,b,c".to_string()),
        data_parts("data:text/plain,a,b,c")
    );
    assert_eq!(
        (Some("text/plain;base64x".to_string()), false, "a".to_string()),
        data_parts("data:text/plain;base64x,a")
    );
}

#[test]
fn url_type_errors_by_kind() {
    assert!(matches!(
        UrlParser::parse("data:nodata"),
        Err(UrlError::InvalidDataUrlFormat)
    ));
    assert!(matches!(
        UrlParser::parse("mailto:x@y.com"),
        Err(UrlError::UnknownScheme)
    ));
    assert!(matches!(UrlParser::parse(""), Err(UrlError::UnknownScheme)));
    assert!(matches!(UrlParser::parse("http://"), Err(UrlError::NoHost)));
    assert!(matches!(
        UrlParser::parse("view-source:example.org"),
        Err(UrlError::UnknownScheme)
    ));
    assert!(matches!(
        UrlParser::parse("view-source:https://example.org:x"),
        Err(UrlError::InvalidPort)
    ));
    assert!(matches!(
        UrlParser::parse_data_url("text/html"),
        Err(UrlError::InvalidDataUrlFormat)
    ));
}

#[test]
fn url_type_names_what_to_fetch() {
    let url = Url::new("https://example.org/x").unwrap();
    assert_eq!(
        Some(&url),
        UrlParser::parse("https://example.org/x").unwrap().url()
    );
    assert_eq!(
        Some(&url),
        UrlParser::parse("view-source:https://example.org/x")
            .unwrap()
            .url()
    );
    assert_eq!(None, UrlParser::parse("data:,x").unwrap().url());
}
