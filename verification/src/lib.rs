//! Terminal snapshots for "TRMNL Console" private plugins: the SBuffer encoding of a
//! terminal screen and its HTML rendering, the webhook payload that carries it and how
//! sending it fails, the merge semantics of a self-hosted webhook endpoint, and the
//! decisions of the virtual terminal that captures the screen.
pub mod text;
pub mod sbuffer;
pub mod demo;
pub mod json;
pub mod json_parse;
pub mod payload;
pub mod relay;
pub mod webhook;
pub mod terminal_subprocess;
pub mod virtual_terminal;
pub mod preview;
