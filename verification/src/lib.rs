//! The protocol engine of a small web browser: URLs, HTTP/1.1 requests and
//! responses, redirects, and a cache with expiry.

pub mod browser;
pub mod chars;
pub mod codec;
pub mod headers;
pub mod number;
pub mod request;
pub mod request_handler;
pub mod response;
pub mod text;
pub mod url;
pub mod url_parser;
