//! HTTP messages: methods, versions, requests, responses and header parsing.
pub mod headers;
pub mod method;
pub mod request;
pub mod response;
pub mod version;

pub use method::HttpMethod;
pub use request::Request;
pub use response::HttpResponse;
pub use version::Version;
