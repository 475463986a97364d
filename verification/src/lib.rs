//! The request engine of a minimal HTTP/1.1 server: it parses one request,
//! picks a handler from a fixed, ordered routing table and serialises one
//! response. Everything here works on bytes that the caller has read from, or
//! will write to, a connection; no function of this crate performs I/O.

pub mod text;
pub mod request;
pub mod response;
pub mod route;
pub mod files;
pub mod connection;
