use rbrowser::request_handler::{
    Cache, Hop, Lookup, RedirectError, RequestHandler, RequestHandler2, MAX_REDIRECTS,
};
use rbrowser::response::{HttpStatus, Response};
use rbrowser::url::{Scheme, Url, UrlError};

fn response(status: &str, headers: &str, body: &str) -> Response {
    let bytes = format!("HTTP/1.1 {}\r\n{}\r\n{}", status, headers, body);
    Response::new(bytes.as_bytes()).unwrap()
}

fn follow(state: RequestHandler2, response: Response) -> RequestHandler2 {
    match state.request(response) {
        Hop::Follow(next) => next,
        other => panic!("not followed: {:?}", other),
    }
}

#[test]
fn fetch_starts_without_redirects() {
    let url = Url::new("http://example.org/start").unwrap();
    let state = RequestHandler2::new(url.clone());
    assert_eq!(url, state.url);
    assert_eq!(0, state.redirect_count);
    assert_eq!(5, MAX_REDIRECTS);
}

#[test]
fn fetch_asks_for_gzip() {
    let state = RequestHandler2::new(Url::new("http://example.org/start").unwrap());
    let request = state.build_request();
    assert_eq!(
        "GET /start HTTP/1.1\r\n\
         Host: example.org\r\n\
         Connection: close\r\n\
         Accept-Encoding: gzip\r\n\r\n",
        request.build()
    );
}

#[test]
fn other_response_ends_fetch() {
    let state = RequestHandler2::new(Url::new("http://example.org/").unwrap());
    match state.request(response("200 OK", "Location: /ignored\r\n", "page")) {
        Hop::Done(response) => {
            assert_eq!(HttpStatus::OK, response.status);
            assert_eq!("page", response.body);
        }
        other => panic!("not done: {:?}", other),
    }
    let state = RequestHandler2::new(Url::new("http://example.org/").unwrap());
    assert!(matches!(
        state.request(response("404 Not Found", "", "")),
        Hop::Done(_)
    ));
    let state = RequestHandler2::new(Url::new("http://example.org/").unwrap());
    assert!(matches!(
        state.request(response("303 See Other", "Location: /x\r\n", "")),
        Hop::Done(_)
    ));
}

#[test]
fn redirect_to_path_keeps_server() {
    let state = RequestHandler2::new(Url::new("https://example.org:8443/old?x").unwrap());
    let next = follow(
        state,
        response("301 Moved Permanently", "Location: /new/place\r\n", ""),
    );
    assert_eq!(Scheme::Https, next.url.scheme);
    assert_eq!("example.org", next.url.host);
    assert_eq!(8443, next.url.port);
    assert_eq!("/new/place", next.url.path);
    assert_eq!(1, next.redirect_count);
}

#[test]
fn redirect_to_url_changes_server() {
    let state = RequestHandler2::new(Url::new("http://example.org/old").unwrap());
    let next = follow(
        state,
        response("302 Found", "LOCATION: https://example.com/new\r\n", ""),
    );
    assert_eq!(Url::new("https://example.com/new").unwrap(), next.url);
    assert_eq!(1, next.redirect_count);
}

#[test]
fn redirect_without_location_fails() {
    let state = RequestHandler2::new(Url::new("http://example.org/").unwrap());
    assert!(matches!(
        state.request(response("307 Temporary Redirect", "Server: x\r\n", "")),
        Hop::Failed(RedirectError::MissingLocation)
    ));
}

#[test]
fn redirect_to_invalid_location_fails() {
    let state = RequestHandler2::new(Url::new("http://example.org/").unwrap());
    assert!(matches!(
        state.request(response("308 Permanent Redirect", "Location: elsewhere\r\n", "")),
        Hop::Failed(RedirectError::InvalidLocation(UrlError::UnknownScheme))
    ));
    let state = RequestHandler2::new(Url::new("http://example.org/").unwrap());
    assert!(matches!(
        state.request(response("301 Moved", "Location: http://h:x/\r\n", "")),
        Hop::Failed(RedirectError::InvalidLocation(UrlError::InvalidPort))
    ));
    let state = RequestHandler2::new(Url::new("http://example.org/").unwrap());
    assert!(matches!(
        state.request(response("301 Moved", "Location:\r\n", "")),
        Hop::Failed(RedirectError::InvalidLocation(UrlError::UnknownScheme))
    ));
}

#[test]
fn endless_redirects_stop_after_five_hops() {
    let mut state = RequestHandler2::new(Url::new("http://example.org/0").unwrap());
    let mut requests = 0;
    let last = loop {
        requests += 1;
        let headers = format!("Location: /{}\r\n", requests);
        let body = format!("redirect {}", requests);
        match state.request(response("302 Found", &headers, &body)) {
            Hop::Follow(next) => {
                assert_eq!(requests, next.redirect_count);
                assert_eq!(format!("/{}", requests), next.url.path);
                state = next;
            }
            Hop::Done(response) => break response,
            Hop::Failed(e) => panic!("failed: {:?}", e),
        }
        assert!(requests < 100);
    };
    assert_eq!(6, requests);
    assert!(last.is_redirect());
    assert_eq!("redirect 6", last.body);
}

#[test]
fn cache_round_trip() {
    let stored = response("200 OK", "Cache-Control: max-age=60\r\n", "the body\r\nof it");
    let now = 1_700_000_000;
    let entry = Cache::save(&stored, now);
    assert_eq!("1700000060\r\nthe body\r\nof it", entry);
    assert_eq!(Some("the body\r\nof it".to_string()), Cache::get(&entry, now));
    assert_eq!(
        Some("the body\r\nof it".to_string()),
        Cache::get(&entry, now + 59)
    );
    assert_eq!(None, Cache::get(&entry, now + 60));
    assert_eq!(None, Cache::get(&entry, now + 61));
    assert_eq!(None, Cache::get(&entry, u64::MAX));
}

#[test]
fn cache_entry_without_lifetime_is_stale() {
    let stored = response("200 OK", "", "body");
    assert_eq!("5\r\nbody", Cache::save(&stored, 5));
    assert_eq!(None, Cache::get("5\r\nbody", 5));
    assert_eq!(Some("body".to_string()), Cache::get("5\r\nbody", 4));
}

#[test]
fn cache_entry_at_the_end_of_time() {
    let stored = response("200 OK", "Cache-Control: max-age=4294967295\r\n", "b");
    let entry = Cache::save(&stored, u64::MAX);
    assert_eq!("18446744078004518910\r\nb", entry);
    assert_eq!(None, Cache::get(&entry, 0));
    let entry = Cache::save(&stored, u64::MAX - 4294967295);
    assert_eq!("18446744073709551615\r\nb", entry);
    assert_eq!(Some("b".to_string()), Cache::get(&entry, u64::MAX - 1));
    assert_eq!(None, Cache::get(&entry, u64::MAX));
}

#[test]
fn malformed_cache_entry_is_a_miss() {
    assert_eq!(None, Cache::get("", 0));
    assert_eq!(None, Cache::get("10", 0));
    assert_eq!(None, Cache::get("10\nbody", 0));
    assert_eq!(None, Cache::get("\r\nbody", 0));
    assert_eq!(None, Cache::get("ten\r\nbody", 0));
    assert_eq!(None, Cache::get("10 \r\nbody", 0));
    assert_eq!(None, Cache::get("-10\r\nbody", 0));
    assert_eq!(None, Cache::get("18446744073709551616\r\nbody", 0));
    assert_eq!(None, Cache::get("1\r", 0));
    assert_eq!(Some("".to_string()), Cache::get("10\r\n", 0));
    assert_eq!(Some("body".to_string()), Cache::get("+10\r\nbody", 0));
    assert_eq!(Some("a\r\nb".to_string()), Cache::get("10\r\na\r\nb", 9));
}

#[test]
fn cache_file_name_goes_by_url() {
    let url = Url::new("http://example.org/path").unwrap();
    let same = Url::new("http://example.org:80/path").unwrap();
    let other = Url::new("https://example.org/path").unwrap();
    let name = Cache::file_name(&url);
    assert_eq!(format!("{}.txt", Cache::calculate_hash(&url)), name);
    assert_eq!(name, Cache::file_name(&same));
    assert_ne!(name, Cache::file_name(&other));
    assert_ne!(
        Cache::calculate_hash(&url),
        Cache::calculate_hash(&Url::new("http://example.org/path2").unwrap())
    );
    assert_eq!("rbrowser", Cache::directory_name());
}

#[test]
fn request_is_served_from_fresh_cache() {
    let url = Url::new("http://example.org/").unwrap();
    match RequestHandler::request(&url, Some("100\r\ncached"), 99) {
        Lookup::Cached(body) => assert_eq!("cached", body),
        other => panic!("not cached: {:?}", other),
    }
}

#[test]
fn request_is_fetched_on_miss() {
    let url = Url::new("http://example.org/").unwrap();
    for cached in [None, Some("100\r\ncached"), Some("garbage")] {
        match RequestHandler::request(&url, cached, 100) {
            Lookup::Fetch(state) => {
                assert_eq!(url, state.url);
                assert_eq!(0, state.redirect_count);
            }
            other => panic!("not fetched: {:?}", other),
        }
    }
}

#[test]
fn delivery_holds_entry_for_cacheable_response() {
    let delivery = RequestHandler::deliver(
        response("200 OK", "Cache-Control: max-age=60\r\n", "body"),
        1000,
    );
    assert_eq!("body", delivery.body);
    assert_eq!(Some("1060\r\nbody".to_string()), delivery.entry);
    let delivery = RequestHandler::deliver(response("200 OK", "", "body"), 1000);
    assert_eq!("body", delivery.body);
    assert_eq!(None, delivery.entry);
    let delivery = RequestHandler::deliver(
        response("200 OK", "Cache-Control: max-age=0\r\n", "body"),
        1000,
    );
    assert_eq!(None, delivery.entry);
}
