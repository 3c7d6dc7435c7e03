//! Session-level protocol engine for a streaming request/response framework.
//!
//! A client issues a request naming a service and an action with a payload;
//! the server streams results back as items terminated by completion,
//! rejection or failure, and supports mid-stream suspension and later
//! resumption through an opaque task identifier.
//!
//! The crate is organised in layers:
//!
//! * [`value`]: the structured wire values (a small JSON-shaped tree) that
//!   payloads and items are made of;
//! * [`json`]: the textual grammar, one verified parser and one verified
//!   printer for it;
//! * [`codec`]: the typed message vocabulary (`Input`, `Output`, `Error`)
//!   and the rules that turn one wire message into a typed value;
//! * [`session`]: the `Context` that binds one transport channel (`Flow`)
//!   and one per-connection `Session`, exposing phase-scoped receive and
//!   send operations;
//! * [`laws`] and [`roundtrip`]: the properties of the codec and of the
//!   phase rules, stated once for all inputs and proved.

pub mod codec;
pub mod json;
pub mod laws;
pub mod roundtrip;
pub mod session;
pub mod value;

pub use codec::{Either, Error, Input, Output, Request, TaskId};
pub use session::{Builder, Context, DefaultBuilder, Flow, FlowError, Session};
pub use value::Value;
