//! The per-connection protocol engine.
//!
//! A `Context` exclusively owns one transport channel (`Flow`) and one
//! application `Session` for a connection's lifetime. It exposes the
//! phase-scoped receive operations and `send`; which receive wrapper the
//! caller invokes is the phase signal, and the decoded message is then
//! re-validated against that phase, so an out-of-phase message fails
//! with `UnexpectedState` instead of being coerced.
//!
//! The pure phase rules live in `spec_start_filter` and
//! `spec_stream_filter`; the transport outcome rules in `spec_recv`.
//! Each receive operation performs exactly one `pull` and no `push`, and
//! a closed transport surfaces as `ConnectionClosed`.

use vstd::prelude::*;

use crate::codec::{
    in_res_view, spec_decode, decode_input, wf_grequest, wf_input, Either, Error, GError, GInput,
    GRequest, Input, Output, Request, TaskId, encode_output,
};

verus! {

/// Why the transport failed.
#[derive(Clone, Debug, PartialEq)]
pub struct FlowError {
    pub message: String,
}

/// Abstract duplex channel carrying whole text messages (the external
/// transport). `pull` blocks until one full message arrives, yields
/// `None` on graceful close and fails on a transport fault; `push`
/// transmits one full message. Implementations decide everything else:
/// the protocol states what holds whatever they return.
pub trait Flow {
    fn pull(&mut self) -> Result<Option<String>, FlowError>;

    fn push(&mut self, text: String) -> Result<(), FlowError>;
}

/// Opaque per-connection application state.
pub trait Session: 'static {
}

/// Shared factory capability producing one fresh `Session` per incoming
/// connection.
pub trait Builder<T: Session>: Send + Sync + 'static {
    fn build(&self) -> T;
}

/// Builds a session by that type's default-initialization contract.
pub struct DefaultBuilder;

impl<T: Session + Default> Builder<T> for DefaultBuilder {
    fn build(&self) -> (r: T)
        ensures
            call_ensures(T::default, (), r),
    {
        T::default()
    }
}

/// What one pulled transport outcome means, before any phase rule:
/// closed is `ConnectionClosed`, a fault is `ConnectorFail` with its
/// cause, a message means what `spec_decode` says.
pub open spec fn spec_recv(pulled: Result<Option<Seq<char>>, Seq<char>>) -> Result<
    GInput,
    GError,
> {
    match pulled {
        Ok(Some(text)) => spec_decode(text),
        Ok(None) => Err(GError::ConnectionClosed),
        Err(cause) => Err(GError::ConnectorFail(cause)),
    }
}

/// A transport outcome, seen mathematically.
pub open spec fn pulled_view(p: Result<Option<String>, FlowError>) -> Result<
    Option<Seq<char>>,
    Seq<char>,
> {
    match p {
        Ok(Some(text)) => Ok(Some(text@)),
        Ok(None) => Ok(None),
        Err(e) => Err(e.message@),
    }
}

/// The start-of-cycle phase rule: only `Request` and `Resume` are legal;
/// a decoded `Next` or `Suspend` is phase-illegal, and every error
/// passes through unchanged.
pub open spec fn spec_start_filter(r: Result<GInput, GError>) -> Result<
    Either<(Seq<char>, GRequest), TaskId>,
    GError,
> {
    match r {
        Ok(GInput::Request(service, q)) => Ok(Either::Left((service, q))),
        Ok(GInput::Resume(id)) => Ok(Either::Right(id)),
        Ok(_) => Err(GError::UnexpectedState),
        Err(e) => Err(e),
    }
}

/// The mid-stream phase rule: only `Next` and `Suspend` are legal.
pub open spec fn spec_stream_filter(r: Result<GInput, GError>) -> Result<
    Either<Option<GRequest>, ()>,
    GError,
> {
    match r {
        Ok(GInput::Next(o)) => Ok(Either::Left(o)),
        Ok(GInput::Suspend) => Ok(Either::Right(())),
        Ok(_) => Err(GError::UnexpectedState),
        Err(e) => Err(e),
    }
}

/// A start-phase outcome, seen mathematically.
pub open spec fn start_res_view(r: Result<Either<(String, Request), TaskId>, Error>) -> Result<
    Either<(Seq<char>, GRequest), TaskId>,
    GError,
> {
    match r {
        Ok(Either::Left(p)) => Ok(Either::Left((p.0@, p.1@))),
        Ok(Either::Right(id)) => Ok(Either::Right(id)),
        Err(e) => Err(e@),
    }
}

/// A stream-phase outcome, seen mathematically.
pub open spec fn stream_res_view(r: Result<Either<Option<Request>, ()>, Error>) -> Result<
    Either<Option<GRequest>, ()>,
    GError,
> {
    match r {
        Ok(Either::Left(Some(q))) => Ok(Either::Left(Some(q@))),
        Ok(Either::Left(None)) => Ok(Either::Left(None)),
        Ok(Either::Right(u)) => Ok(Either::Right(u)),
        Err(e) => Err(e@),
    }
}

/// Maps a transport fault to the protocol error, the cause's message
/// carried unchanged.
pub fn connector_fail(e: FlowError) -> (r: Error)
    ensures
        r@ == GError::ConnectorFail(e.message@),
{
    Error::ConnectorFail(e.message)
}

/// Turns what the transport handed back into the one decode outcome it
/// means. If the transport reported closed, the result is exactly
/// `ConnectionClosed`.
pub fn input_from_pulled(pulled: Result<Option<String>, FlowError>) -> (r: Result<Input, Error>)
    ensures
        in_res_view(r) == spec_recv(pulled_view(pulled)),
        r matches Ok(i) ==> wf_input(i@),
{
    match pulled {
        Ok(Some(text)) => decode_input(text.as_str()),
        Ok(None) => Err(Error::ConnectionClosed),
        Err(e) => Err(connector_fail(e)),
    }
}

/// Applies the start-of-cycle phase rule to one decode outcome.
pub fn start_filter(r: Result<Input, Error>) -> (out: Result<
    Either<(String, Request), TaskId>,
    Error,
>)
    ensures
        start_res_view(out) == spec_start_filter(in_res_view(r)),
{
    match r {
        Ok(Input::Request(service, q)) => Ok(Either::Left((service, q))),
        Ok(Input::Resume(id)) => Ok(Either::Right(id)),
        Ok(_) => Err(Error::UnexpectedState),
        Err(e) => Err(e),
    }
}

/// Applies the mid-stream phase rule to one decode outcome.
pub fn stream_filter(r: Result<Input, Error>) -> (out: Result<Either<Option<Request>, ()>, Error>)
    ensures
        stream_res_view(out) == spec_stream_filter(in_res_view(r)),
{
    match r {
        Ok(Input::Next(o)) => Ok(Either::Left(o)),
        Ok(Input::Suspend) => Ok(Either::Right(())),
        Ok(_) => Err(Error::UnexpectedState),
        Err(e) => Err(e),
    }
}

/// Binds one client connection to one session. The session is reached
/// directly through the public field: the context acts as the session
/// for ordinary access while owning the protocol operations.
pub struct Context<T: Session, R: Flow> {
    pub client: R,
    pub session: T,
}

impl<T: Session, R: Flow> Context<T, R> {
    /// Takes ownership of both collaborators; performs no transport work.
    pub fn new(client: R, session: T) -> (c: Context<T, R>)
        ensures
            c.client == client,
            c.session == session,
    {
        Context { client, session }
    }

    /// Pulls and decodes one message: one `pull`, no `push`. Whatever the
    /// transport returned, the result is `spec_recv` of it: closed means
    /// `ConnectionClosed`, a fault means `ConnectorFail`, and a message
    /// means exactly what `spec_decode` says of its text.
    pub fn recv(&mut self) -> (r: Result<Input, Error>)
        ensures
            final(self).session == old(self).session,
            exists|p: Result<Option<Seq<char>>, Seq<char>>|
                in_res_view(r) == #[trigger] spec_recv(p),
            r matches Ok(i) ==> wf_input(i@),
    {
        let pulled = self.client.pull();
        let r = input_from_pulled(pulled);
        proof {
            assert(in_res_view(r) == spec_recv(pulled_view(pulled)));
        }
        r
    }

    /// Receives at the start of a task cycle: a new request or a
    /// resumption. A decoded `Next` or `Suspend` is structurally valid
    /// but phase-illegal here, so it fails with `UnexpectedState`;
    /// decode and transport errors pass through unchanged.
    pub fn recv_request_or_resume(&mut self) -> (out: Result<
        Either<(String, Request), TaskId>,
        Error,
    >)
        ensures
            final(self).session == old(self).session,
            exists|p: Result<Option<Seq<char>>, Seq<char>>|
                start_res_view(out) == #[trigger] spec_start_filter(spec_recv(p)),
            out matches Ok(e) ==> (e matches Either::Left(p) ==> p.0@.len() > 0 && wf_grequest(
                p.1@,
            )),
    {
        let r = self.recv();
        let ghost p = choose|p: Result<Option<Seq<char>>, Seq<char>>|
            in_res_view(r) == #[trigger] spec_recv(p);
        let out = start_filter(r);
        proof {
            assert(start_res_view(out) == spec_start_filter(spec_recv(p)));
        }
        out
    }

    /// Receives while a task is streaming: the next-item request or a
    /// suspension. A decoded `Request` or `Resume` fails with
    /// `UnexpectedState`; decode and transport errors pass through
    /// unchanged.
    pub fn recv_next_or_suspend(&mut self) -> (out: Result<Either<Option<Request>, ()>, Error>)
        ensures
            final(self).session == old(self).session,
            exists|p: Result<Option<Seq<char>>, Seq<char>>|
                stream_res_view(out) == #[trigger] spec_stream_filter(spec_recv(p)),
            out matches Ok(e) ==> (e matches Either::Left(q) ==> (q matches Some(r)
                ==> wf_grequest(r@))),
    {
        let r = self.recv();
        let ghost p = choose|p: Result<Option<Seq<char>>, Seq<char>>|
            in_res_view(r) == #[trigger] spec_recv(p);
        let out = stream_filter(r);
        proof {
            assert(stream_res_view(out) == spec_stream_filter(spec_recv(p)));
        }
        out
    }

    /// Encodes one server message canonically and pushes it: one `push`,
    /// no `pull`. A transport fault surfaces as `ConnectorFail` with its
    /// cause.
    pub fn send(&mut self, out: &Output) -> (r: Result<(), Error>)
        ensures
            final(self).session == old(self).session,
            r matches Err(e) ==> e@ is ConnectorFail,
    {
        let text = encode_output(out);
        match self.client.push(text) {
            Ok(()) => Ok(()),
            Err(e) => Err(connector_fail(e)),
        }
    }
}

} // verus!
