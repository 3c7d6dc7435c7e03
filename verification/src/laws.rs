//! The laws of the codec and of the phase rules, stated and proved once
//! for all inputs.

use vstd::prelude::*;

use crate::codec::{
    evt_cancel, evt_next, evt_request, evt_resume, evt_suspend, g_task_id, key_action, key_data,
    key_event, key_payload, key_service, lookup, request_tree, spec_decode, spec_validate,
    GError, GInput, GRequest, TaskId,
};
use crate::json::parse_text;
use crate::session::{spec_recv, spec_start_filter, spec_stream_filter};
use crate::value::GValue;

verus! {

/// A text outside the wire grammar, or one whose top level is not an
/// object, always decodes to `IllegalJsonFormat` — and to nothing else.
pub proof fn lemma_malformed_text_is_illegal_json(s: Seq<char>)
    ensures
        parse_text(s) is None ==> spec_decode(s) == Err::<GInput, GError>(
            GError::IllegalJsonFormat,
        ),
        forall|v: GValue|
            parse_text(s) == Some(v) && !(v is Obj) ==> spec_decode(s) == Err::<GInput, GError>(
                GError::IllegalJsonFormat,
            ),
{
}

/// The phase rules: at the start of a cycle only `Request` and `Resume`
/// pass, mid-stream only `Next` and `Suspend` pass; everything else that
/// decoded is `UnexpectedState`, and every error passes through both
/// filters unchanged.
pub proof fn lemma_phase_rules(
    o: Option<GRequest>,
    service: Seq<char>,
    q: GRequest,
    id: TaskId,
    e: GError,
)
    ensures
        spec_start_filter(Ok(GInput::Next(o))) == Err::<
            crate::codec::Either<(Seq<char>, GRequest), TaskId>,
            GError,
        >(GError::UnexpectedState),
        spec_start_filter(Ok(GInput::Suspend)) == Err::<
            crate::codec::Either<(Seq<char>, GRequest), TaskId>,
            GError,
        >(GError::UnexpectedState),
        spec_stream_filter(Ok(GInput::Request(service, q))) == Err::<
            crate::codec::Either<Option<GRequest>, ()>,
            GError,
        >(GError::UnexpectedState),
        spec_stream_filter(Ok(GInput::Resume(id))) == Err::<
            crate::codec::Either<Option<GRequest>, ()>,
            GError,
        >(GError::UnexpectedState),
        spec_start_filter(Err(e)) == Err::<
            crate::codec::Either<(Seq<char>, GRequest), TaskId>,
            GError,
        >(e),
        spec_stream_filter(Err(e)) == Err::<crate::codec::Either<Option<GRequest>, ()>, GError>(
            e,
        ),
{
}

/// The five legal event names are pairwise distinct from `cancel`.
proof fn lemma_cancel_name_distinct()
    ensures
        evt_cancel() != evt_request(),
        evt_cancel() != evt_next(),
        evt_cancel() != evt_resume(),
        evt_cancel() != evt_suspend(),
{
    assert(evt_cancel().len() == 6);
    assert(evt_request().len() == 7);
    assert(evt_next().len() == 4);
    assert(evt_suspend().len() == 7);
    assert(evt_cancel()[0] == 'c');
    assert(evt_resume()[0] == 'r');
}

/// A `cancel` event never yields an `Input`: whatever else the message
/// holds and whichever phase asked, it fails with `Canceled`.
pub proof fn lemma_cancel_fails_in_any_phase(m: Seq<(Seq<char>, GValue)>)
    requires
        lookup(m, key_event()) == Some(GValue::Text(evt_cancel())),
    ensures
        spec_validate(GValue::Obj(m)) == Err::<GInput, GError>(GError::Canceled),
        spec_start_filter(spec_validate(GValue::Obj(m))) == Err::<
            crate::codec::Either<(Seq<char>, GRequest), TaskId>,
            GError,
        >(GError::Canceled),
        spec_stream_filter(spec_validate(GValue::Obj(m))) == Err::<
            crate::codec::Either<Option<GRequest>, ()>,
            GError,
        >(GError::Canceled),
{
    lemma_cancel_name_distinct();
}

/// An event name outside the vocabulary is always reported by name,
/// never ignored.
pub proof fn lemma_unknown_event_reported(m: Seq<(Seq<char>, GValue)>, name: Seq<char>)
    requires
        lookup(m, key_event()) == Some(GValue::Text(name)),
        name != evt_request(),
        name != evt_next(),
        name != evt_resume(),
        name != evt_suspend(),
        name != evt_cancel(),
    ensures
        spec_validate(GValue::Obj(m)) == Err::<GInput, GError>(GError::IllegalEventName(name)),
{
}

/// Task handles: a negative number is `IllegalTaskId`; text and null are
/// not numeric at all, so they are `IllegalDataFormat`.
pub proof fn lemma_task_id_rules(lex: Seq<char>, t: Seq<char>)
    ensures
        lex.len() > 0 && lex[0] == '-' ==> g_task_id(GValue::Num(lex)) == Err::<TaskId, GError>(
            GError::IllegalTaskId,
        ),
        g_task_id(GValue::Text(t)) == Err::<TaskId, GError>(GError::IllegalDataFormat),
        g_task_id(GValue::Null) == Err::<TaskId, GError>(GError::IllegalDataFormat),
{
    if lex.len() > 0 && lex[0] == '-' {
        assert(!crate::value::is_digit(lex[0]));
    }
}

/// A closed transport means exactly `ConnectionClosed`.
pub proof fn lemma_closed_flow_is_connection_closed()
    ensures
        spec_recv(Ok(None)) == Err::<GInput, GError>(GError::ConnectionClosed),
{
}

/// The request wire tree reads back as the request it was built from:
/// encoding a well-formed request and validating the decoded tree gives
/// `Input::Request` with the same service, action and payload.
pub proof fn lemma_request_tree_round_trip(service: Seq<char>, q: GRequest)
    requires
        service.len() > 0,
        q.action.len() > 0,
        q.payload is Obj,
    ensures
        spec_validate(request_tree(service, q)) == Ok::<GInput, GError>(
            GInput::Request(service, q),
        ),
{
    reveal_with_fuel(lookup, 4);
    let m = request_tree(service, q)->Obj_0;
    assert(key_event().len() == 5);
    assert(key_data().len() == 4);
    assert(key_service().len() == 7);
    assert(key_action().len() == 6);
    assert(key_payload().len() == 7);
    assert(key_service()[0] == 's');
    assert(key_payload()[0] == 'p');
    assert(evt_request().len() == 7);
    assert(evt_next().len() == 4);
    assert(evt_resume().len() == 6);
    assert(evt_suspend().len() == 7);
    assert(evt_request()[2] == 'q');
    assert(evt_suspend()[2] == 's');
    assert(m.subrange(1, m.len() as int)[0] == m[1]);
    assert(lookup(m, key_event()) == Some(GValue::Text(evt_request())));
    assert(lookup(m, key_data()) == Some(m[1].1));
    let d = m[1].1->Obj_0;
    assert(d.subrange(1, d.len() as int)[0] == d[1]);
    assert(d.subrange(1, d.len() as int).subrange(
        1,
        d.subrange(1, d.len() as int).len() as int,
    )[0] == d[2]);
    assert(lookup(d, key_service()) == Some(GValue::Text(service)));
    assert(lookup(d, key_action()) == Some(GValue::Text(q.action)));
    assert(lookup(d, key_payload()) == Some(q.payload));
    assert(spec_validate(request_tree(service, q)) == Ok::<GInput, GError>(
        GInput::Request(service, GRequest { action: q.action, payload: q.payload }),
    ));
    assert(q == GRequest { action: q.action, payload: q.payload });
}

} // verus!
