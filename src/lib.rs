//! A minimal HTTP/1.1 request parser and response model.
pub mod parse;
pub mod response;
pub mod wire;

pub use parse::{feed_header_line, insert_header, is_header_end, parse_header_line, parse_request, parse_request_line};
pub use response::Response;
pub use wire::{HttpError, Method, Request, Status};
