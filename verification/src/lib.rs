//! Core of a code-navigation tool for Python projects: a persistent daemon
//! drives a type-checker's LSP server and answers framed JSON-RPC requests
//! from short-lived command-line clients over a local socket.
//!
//! This crate holds the verified logic: the wire codec (JSON values, the
//! JSON-RPC envelope, `Content-Length` framing), the request and response
//! schema, the LSP-client bookkeeping (request correlation, open-once
//! document tracking), the client pool, the retry and lifecycle policies,
//! and the per-method handler logic. Process management and socket I/O
//! live outside the crate and hand plain values in and out.

pub mod strutil;
pub mod numbers;
pub mod json;
pub mod protocol;
pub mod framing;
pub mod transport;
pub mod documents;
pub mod pool;
pub mod lsp_types;
pub mod retry;
pub mod detection;
pub mod positions;
pub mod navigation;
pub mod params;
pub mod handlers;
pub mod members;
pub mod lsp_client;
pub mod client_logic;
pub mod output;

