//! The core of a small HTTP/1.1 server: the text of one request goes in, the
//! bytes of one response come out.
//!
//! [`HttpRequest`] reads a request, [`HttpResponse`] builds a response and
//! writes it out, and a [`Dispatcher`] holds the middleware, the routes and
//! the static directories of an application and answers requests with them.
//! Sockets, threads and files are left to the caller.

pub mod assoc;
pub mod headers;
pub mod httprequest;
pub mod httpresponse;
pub mod middleware;
pub mod reader;
pub mod routes;
pub mod server;
pub mod static_files;
pub mod text;

pub use crate::httprequest::HttpRequest;
pub use crate::httprequest::MalformedRequest;
pub use crate::httpresponse::HttpResponse;
pub use crate::middleware::MiddlewareChain;
pub use crate::reader::RequestBuffer;
pub use crate::routes::RouteTable;
pub use crate::server::Dispatcher;
pub use crate::static_files::StaticRouteTable;
