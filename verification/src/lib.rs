//! Protocol engine of a Gopher server: the request-line decoder, the menu
//! item wire codec, the response serializer and the bounded admission set
//! for connections whose request has not been read yet.

pub mod bounded_futures_unordered;
pub mod buffer;
pub mod handler;
pub mod menu;
pub mod request;
pub mod request_stream;
pub mod response;
pub mod text;
pub mod types;
