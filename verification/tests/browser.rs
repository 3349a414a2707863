use rbrowser::browser::Browser;
use rbrowser::url_parser::UrlParser;

#[test]
fn get_body() {
    let result = Browser::get_body("start<body>text</body>end");
    assert_eq!("text", result);
}

#[test]
fn get_body_from_empty_string() {
    assert_eq!("", Browser::get_body(""));
}

#[test]
fn get_body_from_string_without_body_tags() {
    assert_eq!("test", Browser::get_body("test"));
}

#[test]
fn get_body_from_string_without_closed_body() {
    let result = Browser::get_body("start<body>text");
    assert_eq!("text", result);
}

#[test]
fn remove_tags() {
    assert_eq!("test", Browser::remove_tags("<b>test</b>"));
}

#[test]
fn remove_tags_from_empty_string() {
    assert_eq!("", Browser::remove_tags(""));
}

#[test]
fn replace_greater_than_entities() {
    assert_eq!(">", Browser::replace_entities("&gt;"));
}

#[test]
fn replace_less_than_entities() {
    assert_eq!("<", Browser::replace_entities("&lt;"));
}

#[test]
fn replace_entities_in_empty_string() {
    assert_eq!("", Browser::replace_entities(""));
}

#[test]
fn get_body_edges() {
    assert_eq!("", Browser::get_body("<body>"));
    assert_eq!("", Browser::get_body("<body></body>"));
    assert_eq!("a", Browser::get_body("<body>a</body>b</body>"));
    assert_eq!("a<body>b", Browser::get_body("x<body>a<body>b</body>"));
    assert_eq!("text", Browser::get_body("</body><body>text</body>"));
    assert_eq!("text", Browser::get_body("</body><body>text"));
    assert_eq!("x</body>y", Browser::get_body("x</body>y"));
    assert_eq!(
        "<BODY>x</BODY>",
        Browser::get_body("<BODY>x</BODY>")
    );
    assert_eq!("\u{e4}\u{2603}", Browser::get_body("\u{fc}<body>\u{e4}\u{2603}</body>"));
}

#[test]
fn remove_tags_edges() {
    assert_eq!("ab", Browser::remove_tags("a<i x='1'>b"));
    assert_eq!("a", Browser::remove_tags("a<unclosed"));
    assert_eq!("ab", Browser::remove_tags("a>b"));
    assert_eq!("b", Browser::remove_tags("<<a>b"));
    assert_eq!("b", Browser::remove_tags("<a>>b"));
    assert_eq!("&lt;b&gt;", Browser::remove_tags("&lt;b&gt;"));
}

#[test]
fn replace_entities_edges() {
    assert_eq!("a < b > c", Browser::replace_entities("a &lt; b &gt; c"));
    assert_eq!("<<>>", Browser::replace_entities("&lt;&lt;&gt;&gt;"));
    assert_eq!("&lt", Browser::replace_entities("&lt"));
    assert_eq!("&amp;lt;", Browser::replace_entities("&amp;lt;"));
    assert_eq!("&<", Browser::replace_entities("&&lt;"));
    assert_eq!("&g<t;", Browser::replace_entities("&g&lt;t;"));
    assert_eq!("&LT;", Browser::replace_entities("&LT;"));
}

#[test]
fn replace_chars_goes_from_left_to_right() {
    let chars = |s: &str| s.chars().collect::<Vec<char>>();
    assert_eq!(
        chars("ba"),
        Browser::replace_chars(&chars("aaa"), &chars("aa"), &chars("b"))
    );
    assert_eq!(
        chars("xyzxyz"),
        Browser::replace_chars(&chars("aa"), &chars("a"), &chars("xyz"))
    );
    assert_eq!(
        chars("bc"),
        Browser::replace_chars(&chars("abc"), &chars("a"), &chars(""))
    );
    assert_eq!(
        chars("abc"),
        Browser::replace_chars(&chars("abc"), &chars(""), &chars("x"))
    );
    assert_eq!(
        chars("aa"),
        Browser::replace_chars(&chars("aa"), &chars("aaa"), &chars("x"))
    );
}

#[test]
fn lex_page() {
    assert_eq!(
        "1 < 2",
        Browser::lex("<html><head><title>t</title></head><body><p>1 &lt; 2</p></body></html>")
    );
    assert_eq!("plain", Browser::lex("plain"));
    assert_eq!(
        "<b>",
        Browser::lex("<body>&lt;b&gt;</body>")
    );
}

#[test]
fn load_by_kind() {
    let page = "<html><body><b>bold</b> &amp; &gt;</body></html>";
    let http = UrlParser::parse("http://example.org").unwrap();
    assert_eq!("bold &amp; >", Browser::load(&http, page));
    let source = UrlParser::parse("view-source:http://example.org").unwrap();
    assert_eq!(page, Browser::load(&source, page));
    let data = UrlParser::parse("data:text/html,<i>inline</i> &lt;").unwrap();
    assert_eq!("inline <", Browser::load(&data, page));
}
