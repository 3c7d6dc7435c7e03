//! The typed message vocabulary and the wire codec.
//!
//! `decode_input` turns one client text into exactly one `Input`, or the
//! one `Error` that names what was wrong with it; `spec_decode` states
//! which, for every text. `encode_output` writes the canonical text of a
//! server message: exactly the fields of the message, no extras.
//!
//! Client event grammar: `request` (data: object with non-empty `service`
//! and `action` strings and a `payload` object), `next` (data absent,
//! null, or an object with non-empty `action` and a `payload` object),
//! `resume` (data: a non-negative integer task handle), `suspend` (no
//! data needed), `cancel` (never a value: always the `Canceled` error).
//! Any other event name is reported, never ignored. In objects the first
//! occurrence of a key counts.

use vstd::prelude::*;
use vstd::string::StringExecFns;

use crate::json::{parse_text, parse_text_chars, chars_of, to_text};
use crate::value::{
    is_digit, membs_view, vals_view, wf_value, enc_value, GValue, Member, Value,
};

verus! {

broadcast use vstd::std_specs::vec::axiom_vec_index_decreases, vstd::seq::axiom_seq_index_decreases;

/// Opaque handle naming a suspended unit of work. The protocol transports
/// it and never interprets it.
pub type TaskId = usize;

/// What a client asks of a service: an action and its payload (always a
/// structured object).
#[derive(Debug, PartialEq)]
pub struct Request {
    pub action: String,
    pub payload: Value,
}

/// One decoded client message. No malformed `Input` can exist: every
/// deviation surfaces as an `Error` at decode time.
#[derive(Debug, PartialEq)]
pub enum Input {
    /// A new task: service name and request.
    Request(String, Request),
    /// Ask for the next item, optionally re-parameterized.
    Next(Option<Request>),
    /// Pause the running task.
    Suspend,
    /// Resume the suspended task with this handle.
    Resume(TaskId),
}

/// One server message to encode.
#[derive(Debug, PartialEq)]
pub enum Output {
    Ready,
    Item(Value),
    Done,
    Reject(String),
    Fail(String),
    Suspended(TaskId),
}

/// The one error vocabulary of the protocol engine.
#[derive(Clone, Debug, PartialEq)]
pub enum Error {
    IllegalJsonFormat,
    IllegalEventType,
    IllegalEventName(String),
    IllegalDataFormat,
    IllegalRequestFormat,
    IllegalTaskId,
    DataNotProvided,
    UnexpectedState,
    Canceled,
    CannotSuspend,
    ServiceNotFound,
    WorkerNotFound,
    ConnectionClosed,
    ConnectorFail(String),
    WorkerFailed(String),
}

/// One of two.
#[derive(Debug, PartialEq)]
pub enum Either<A, B> {
    Left(A),
    Right(B),
}

// ---- mathematical shadows -------------------------------------------------

pub struct GRequest {
    pub action: Seq<char>,
    pub payload: GValue,
}

pub enum GInput {
    Request(Seq<char>, GRequest),
    Next(Option<GRequest>),
    Suspend,
    Resume(TaskId),
}

pub enum GError {
    IllegalJsonFormat,
    IllegalEventType,
    IllegalEventName(Seq<char>),
    IllegalDataFormat,
    IllegalRequestFormat,
    IllegalTaskId,
    DataNotProvided,
    UnexpectedState,
    Canceled,
    CannotSuspend,
    ServiceNotFound,
    WorkerNotFound,
    ConnectionClosed,
    ConnectorFail(Seq<char>),
    WorkerFailed(Seq<char>),
}

impl View for Request {
    type V = GRequest;

    open spec fn view(&self) -> GRequest {
        GRequest { action: self.action@, payload: self.payload@ }
    }
}

impl View for Input {
    type V = GInput;

    open spec fn view(&self) -> GInput {
        match self {
            Input::Request(s, r) => GInput::Request(s@, r@),
            Input::Next(o) => GInput::Next(
                match o {
                    Some(r) => Some(r@),
                    None => None,
                },
            ),
            Input::Suspend => GInput::Suspend,
            Input::Resume(id) => GInput::Resume(*id),
        }
    }
}

impl View for Error {
    type V = GError;

    open spec fn view(&self) -> GError {
        match self {
            Error::IllegalJsonFormat => GError::IllegalJsonFormat,
            Error::IllegalEventType => GError::IllegalEventType,
            Error::IllegalEventName(n) => GError::IllegalEventName(n@),
            Error::IllegalDataFormat => GError::IllegalDataFormat,
            Error::IllegalRequestFormat => GError::IllegalRequestFormat,
            Error::IllegalTaskId => GError::IllegalTaskId,
            Error::DataNotProvided => GError::DataNotProvided,
            Error::UnexpectedState => GError::UnexpectedState,
            Error::Canceled => GError::Canceled,
            Error::CannotSuspend => GError::CannotSuspend,
            Error::ServiceNotFound => GError::ServiceNotFound,
            Error::WorkerNotFound => GError::WorkerNotFound,
            Error::ConnectionClosed => GError::ConnectionClosed,
            Error::ConnectorFail(c) => GError::ConnectorFail(c@),
            Error::WorkerFailed(c) => GError::WorkerFailed(c@),
        }
    }
}

/// A decode outcome, seen mathematically.
pub open spec fn in_res_view(r: Result<Input, Error>) -> Result<GInput, GError> {
    match r {
        Ok(i) => Ok(i@),
        Err(e) => Err(e@),
    }
}

// ---- the event grammar, as sequences --------------------------------------

pub open spec fn key_event() -> Seq<char> {
    seq!['e', 'v', 'e', 'n', 't']
}

pub open spec fn key_data() -> Seq<char> {
    seq!['d', 'a', 't', 'a']
}

pub open spec fn key_service() -> Seq<char> {
    seq!['s', 'e', 'r', 'v', 'i', 'c', 'e']
}

pub open spec fn key_action() -> Seq<char> {
    seq!['a', 'c', 't', 'i', 'o', 'n']
}

pub open spec fn key_payload() -> Seq<char> {
    seq!['p', 'a', 'y', 'l', 'o', 'a', 'd']
}

pub open spec fn evt_request() -> Seq<char> {
    seq!['r', 'e', 'q', 'u', 'e', 's', 't']
}

pub open spec fn evt_next() -> Seq<char> {
    seq!['n', 'e', 'x', 't']
}

pub open spec fn evt_resume() -> Seq<char> {
    seq!['r', 'e', 's', 'u', 'm', 'e']
}

pub open spec fn evt_suspend() -> Seq<char> {
    seq!['s', 'u', 's', 'p', 'e', 'n', 'd']
}

pub open spec fn evt_cancel() -> Seq<char> {
    seq!['c', 'a', 'n', 'c', 'e', 'l']
}

/// First value under `key`, if any: the first occurrence of a key counts.
pub open spec fn lookup(members: Seq<(Seq<char>, GValue)>, key: Seq<char>) -> Option<GValue>
    decreases members.len(),
{
    if members.len() == 0 {
        None
    } else if members[0].0 == key {
        Some(members[0].1)
    } else {
        lookup(members.subrange(1, members.len() as int), key)
    }
}

/// A non-empty run of decimal digits.
pub open spec fn is_digits(s: Seq<char>) -> bool {
    s.len() > 0 && forall|i: int| 0 <= i < s.len() ==> is_digit(#[trigger] s[i])
}

/// The number a run of decimal digits names.
pub open spec fn digits_val(s: Seq<char>) -> int
    decreases s.len(),
{
    if s.len() == 0 {
        0
    } else {
        digits_val(s.subrange(0, s.len() - 1)) * 10 + (s[s.len() - 1] as int - '0' as int)
    }
}

/// How a task handle decodes: only a plain run of digits that fits the
/// handle range is one; a negative, fractional, exponent-written or
/// oversized number is `IllegalTaskId`, anything non-numeric is
/// `IllegalDataFormat`.
pub open spec fn g_task_id(v: GValue) -> Result<TaskId, GError> {
    match v {
        GValue::Num(lex) => if is_digits(lex) {
            if digits_val(lex) > usize::MAX as int {
                Err(GError::IllegalTaskId)
            } else {
                Ok(digits_val(lex) as usize)
            }
        } else {
            Err(GError::IllegalTaskId)
        },
        _ => Err(GError::IllegalDataFormat),
    }
}

/// A well-formed request: a named action and a structured, well-formed
/// payload object.
pub open spec fn wf_grequest(r: GRequest) -> bool {
    r.action.len() > 0 && r.payload is Obj && wf_value(r.payload)
}

/// No malformed input exists: a decoded message names a non-empty
/// service where one is due, and carries a structurally valid payload.
pub open spec fn wf_input(i: GInput) -> bool {
    match i {
        GInput::Request(service, r) => service.len() > 0 && wf_grequest(r),
        GInput::Next(o) => match o {
            Some(r) => wf_grequest(r),
            None => true,
        },
        GInput::Suspend => true,
        GInput::Resume(_) => true,
    }
}

proof fn lemma_lookup_wf(m: Seq<(Seq<char>, GValue)>, key: Seq<char>)
    requires
        forall|i: int| 0 <= i < m.len() ==> wf_value((#[trigger] m[i]).1),
    ensures
        lookup(m, key) matches Some(x) ==> wf_value(x),
    decreases m.len(),
{
    if m.len() > 0 && m[0].0 != key {
        let sub = m.subrange(1, m.len() as int);
        assert forall|i: int| 0 <= i < sub.len() implies wf_value((#[trigger] sub[i]).1) by {
            assert(sub[i] == m[i + 1]);
        }
        lemma_lookup_wf(sub, key);
    }
}

/// A non-empty text under `key`, or the request-format error.
pub open spec fn g_name_field(m: Seq<(Seq<char>, GValue)>, key: Seq<char>) -> Result<
    Seq<char>,
    GError,
> {
    match lookup(m, key) {
        Some(GValue::Text(s)) => if s.len() > 0 {
            Ok(s)
        } else {
            Err(GError::IllegalRequestFormat)
        },
        _ => Err(GError::IllegalRequestFormat),
    }
}

/// The request rules for a `request` data object: non-empty `service`
/// and `action` strings, and an object `payload`.
pub open spec fn g_request(m: Seq<(Seq<char>, GValue)>) -> Result<(Seq<char>, GRequest), GError> {
    match g_name_field(m, key_service()) {
        Ok(service) => match g_name_field(m, key_action()) {
            Ok(action) => match lookup(m, key_payload()) {
                Some(GValue::Obj(p)) => Ok(
                    (service, GRequest { action, payload: GValue::Obj(p) }),
                ),
                _ => Err(GError::IllegalRequestFormat),
            },
            Err(e) => Err(e),
        },
        Err(e) => Err(e),
    }
}

/// The request rules for a `next` data object: as for `request`, but a
/// follow-up names no service.
pub open spec fn g_next_request(m: Seq<(Seq<char>, GValue)>) -> Result<GRequest, GError> {
    match g_name_field(m, key_action()) {
        Ok(action) => match lookup(m, key_payload()) {
            Some(GValue::Obj(p)) => Ok(GRequest { action, payload: GValue::Obj(p) }),
            _ => Err(GError::IllegalRequestFormat),
        },
        Err(e) => Err(e),
    }
}

/// What one well-parsed wire value means: exactly one of the five legal
/// events with a structurally valid payload, or the one error that names
/// the deviation.
pub open spec fn spec_validate(v: GValue) -> Result<GInput, GError> {
    match v {
        GValue::Obj(m) => match lookup(m, key_event()) {
            Some(GValue::Text(name)) => if name == evt_request() {
                match lookup(m, key_data()) {
                    Some(GValue::Obj(d)) => match g_request(d) {
                        Ok((service, r)) => Ok(GInput::Request(service, r)),
                        Err(e) => Err(e),
                    },
                    Some(_) => Err(GError::IllegalDataFormat),
                    None => Err(GError::DataNotProvided),
                }
            } else if name == evt_next() {
                match lookup(m, key_data()) {
                    Some(GValue::Obj(d)) => match g_next_request(d) {
                        Ok(r) => Ok(GInput::Next(Some(r))),
                        Err(e) => Err(e),
                    },
                    Some(GValue::Null) => Ok(GInput::Next(None)),
                    Some(_) => Err(GError::IllegalDataFormat),
                    None => Ok(GInput::Next(None)),
                }
            } else if name == evt_resume() {
                match lookup(m, key_data()) {
                    Some(d) => match g_task_id(d) {
                        Ok(id) => Ok(GInput::Resume(id)),
                        Err(e) => Err(e),
                    },
                    None => Err(GError::DataNotProvided),
                }
            } else if name == evt_suspend() {
                Ok(GInput::Suspend)
            } else if name == evt_cancel() {
                Err(GError::Canceled)
            } else {
                Err(GError::IllegalEventName(name))
            },
            Some(_) => Err(GError::IllegalEventType),
            None => Err(GError::IllegalEventType),
        },
        _ => Err(GError::IllegalJsonFormat),
    }
}

/// What one client text means: a text outside the grammar, or one whose
/// top level is not an object, is `IllegalJsonFormat`; otherwise the
/// meaning of its value.
pub open spec fn spec_decode(s: Seq<char>) -> Result<GInput, GError> {
    match parse_text(s) {
        Some(v) => spec_validate(v),
        None => Err(GError::IllegalJsonFormat),
    }
}

/// A deep copy of a value, equal to the original in every contract.
pub fn clone_value(v: &Value) -> (r: Value)
    ensures
        r@ == v@,
    decreases v, 1int, 0int,
{
    match v {
        Value::Null => Value::Null,
        Value::Bool(b) => Value::Bool(*b),
        Value::Num(s) => Value::Num(s.clone()),
        Value::Text(s) => Value::Text(s.clone()),
        Value::Arr(items) => {
            let mut out: Vec<Value> = Vec::new();
            clone_items(items, 0, &mut out);
            proof {
                assert(vals_view(out) =~= vals_view(*items));
            }
            Value::Arr(out)
        },
        Value::Obj(members) => {
            let mut out: Vec<Member> = Vec::new();
            clone_members(members, 0, &mut out);
            proof {
                assert(membs_view(out) =~= membs_view(*members));
            }
            Value::Obj(out)
        },
    }
}

fn clone_items(items: &Vec<Value>, i: usize, out: &mut Vec<Value>)
    requires
        i <= items@.len(),
    ensures
        vals_view(*final(out)) == vals_view(*old(out)) + vals_view(*items).subrange(
            i as int,
            items@.len() as int,
        ),
    decreases items, 0int, items@.len() - i,
{
    let ghost whole = vals_view(*items);
    if i < items.len() {
        let c = clone_value(&items[i]);
        let ghost prev = vals_view(*out);
        out.push(c);
        proof {
            assert(vals_view(*out) =~= prev.push(whole[i as int]));
        }
        clone_items(items, i + 1, out);
        proof {
            assert(whole.subrange(i as int, whole.len() as int) =~= seq![whole[i as int]]
                + whole.subrange(i as int + 1, whole.len() as int));
            assert(vals_view(*out) =~= prev + whole.subrange(i as int, whole.len() as int));
        }
    } else {
        proof {
            assert(whole.subrange(i as int, whole.len() as int) =~= Seq::<GValue>::empty());
            assert(vals_view(*out) =~= vals_view(*out) + Seq::<GValue>::empty());
        }
    }
}

fn clone_members(members: &Vec<Member>, i: usize, out: &mut Vec<Member>)
    requires
        i <= members@.len(),
    ensures
        membs_view(*final(out)) == membs_view(*old(out)) + membs_view(*members).subrange(
            i as int,
            members@.len() as int,
        ),
    decreases members, 0int, members@.len() - i,
{
    let ghost whole = membs_view(*members);
    if i < members.len() {
        let c = clone_value(&members[i].val);
        let k = members[i].key.clone();
        let ghost prev = membs_view(*out);
        out.push(Member { key: k, val: c });
        proof {
            assert(membs_view(*out) =~= prev.push(whole[i as int]));
        }
        clone_members(members, i + 1, out);
        proof {
            assert(whole.subrange(i as int, whole.len() as int) =~= seq![whole[i as int]]
                + whole.subrange(i as int + 1, whole.len() as int));
            assert(membs_view(*out) =~= prev + whole.subrange(i as int, whole.len() as int));
        }
    } else {
        proof {
            assert(whole.subrange(i as int, whole.len() as int) =~= Seq::<(
                Seq<char>,
                GValue,
            )>::empty());
            assert(membs_view(*out) =~= membs_view(*out) + Seq::<(Seq<char>, GValue)>::empty());
        }
    }
}

/// First member under `key`, if any.
fn lookup_member<'a>(members: &'a Vec<Member>, key: &String) -> (r: Option<&'a Value>)
    ensures
        match r {
            Some(v) => lookup(membs_view(*members), key@) == Some(v@),
            None => lookup(membs_view(*members), key@) is None,
        },
{
    let ghost mv = membs_view(*members);
    let mut idx: usize = 0;
    proof {
        assert(mv.subrange(0, mv.len() as int) =~= mv);
    }
    loop
        invariant
            idx <= members@.len(),
            mv == membs_view(*members),
            lookup(mv, key@) == lookup(mv.subrange(idx as int, mv.len() as int), key@),
        decreases members@.len() - idx,
    {
        let ghost sub = mv.subrange(idx as int, mv.len() as int);
        if idx >= members.len() {
            proof {
                assert(sub.len() == 0);
            }
            return None;
        }
        proof {
            assert(sub[0] == mv[idx as int]);
            assert(sub.subrange(1, sub.len() as int) =~= mv.subrange(
                idx as int + 1,
                mv.len() as int,
            ));
        }
        if members[idx].key == *key {
            return Some(&members[idx].val);
        }
        idx = idx + 1;
    }
}

proof fn lemma_digits_val_nonneg(s: Seq<char>)
    requires
        forall|i: int| 0 <= i < s.len() ==> is_digit(#[trigger] s[i]),
    ensures
        digits_val(s) >= 0,
    decreases s.len(),
{
    if s.len() > 0 {
        lemma_digits_val_nonneg(s.subrange(0, s.len() - 1));
    }
}

proof fn lemma_digits_val_mono(s: Seq<char>, k: int)
    requires
        forall|i: int| 0 <= i < s.len() ==> is_digit(#[trigger] s[i]),
        0 <= k <= s.len(),
    ensures
        digits_val(s.subrange(0, k)) <= digits_val(s),
    decreases s.len() - k,
{
    if k == s.len() {
        assert(s.subrange(0, k) =~= s);
    } else {
        lemma_digits_val_mono(s, k + 1);
        let t = s.subrange(0, k + 1);
        assert(t.subrange(0, t.len() - 1) =~= s.subrange(0, k));
        lemma_digits_val_nonneg(s.subrange(0, k));
        assert(digits_val(t) == digits_val(s.subrange(0, k)) * 10 + (t[t.len() - 1] as int
            - '0' as int));
        assert(digits_val(s.subrange(0, k)) <= digits_val(t)) by (nonlinear_arith)
            requires
                digits_val(t) == digits_val(s.subrange(0, k)) * 10 + (t[t.len() - 1] as int
                    - '0' as int),
                digits_val(s.subrange(0, k)) >= 0,
                '0' as int <= t[t.len() - 1] as int <= '9' as int,
        ;
    }
}

/// The task handle a wire value names, or why it names none.
fn task_id_of(v: &Value) -> (r: Result<TaskId, Error>)
    ensures
        match r {
            Ok(id) => g_task_id(v@) == Ok::<TaskId, GError>(id),
            Err(e) => g_task_id(v@) == Err::<TaskId, GError>(e@),
        },
{
    match v {
        Value::Num(lex) => {
            proof {
                assert(v@ == GValue::Num(lex@));
            }
            let cs = chars_of(lex.as_str());
            if cs.len() == 0 {
                return Err(Error::IllegalTaskId);
            }
            let mut acc: usize = 0;
            let mut idx: usize = 0;
            proof {
                assert(lex@.subrange(0, 0) =~= Seq::<char>::empty());
            }
            while idx < cs.len()
                invariant
                    idx <= cs@.len(),
                    cs@ == lex@,
                    cs@.len() > 0,
                    v@ == GValue::Num(lex@),
                    forall|t: int| 0 <= t < idx ==> is_digit(#[trigger] lex@[t]),
                    acc as int == digits_val(lex@.subrange(0, idx as int)),
                decreases cs@.len() - idx,
            {
                let c = cs[idx];
                if !('0' <= c && c <= '9') {
                    proof {
                        assert(!is_digit(lex@[idx as int]));
                        assert(!is_digits(lex@));
                    }
                    return Err(Error::IllegalTaskId);
                }
                let d = (c as u32 - '0' as u32) as usize;
                if acc > (usize::MAX - d) / 10 {
                    proof {
                        let pre = lex@.subrange(0, idx as int + 1);
                        assert(pre.subrange(0, pre.len() - 1) =~= lex@.subrange(0, idx as int));
                        assert(digits_val(pre) == acc as int * 10 + d as int);
                        assert(acc as int * 10 + d as int > usize::MAX as int) by (nonlinear_arith)
                            requires
                                acc as int > (usize::MAX as int - d as int) / 10,
                                0 <= d as int <= 9,
                                acc as int >= 0,
                        ;
                        if is_digits(lex@) {
                            lemma_digits_val_mono(lex@, idx as int + 1);
                        }
                    }
                    return Err(Error::IllegalTaskId);
                }
                proof {
                    let q = (usize::MAX - d) as int / 10;
                    assert(q * 10 <= usize::MAX as int - d as int) by (nonlinear_arith)
                        requires
                            q == (usize::MAX as int - d as int) / 10,
                            0 <= d as int <= 9,
                    ;
                    assert(acc as int * 10 <= q * 10) by (nonlinear_arith)
                        requires
                            acc as int <= q,
                            acc as int >= 0,
                    ;
                    let pre = lex@.subrange(0, idx as int + 1);
                    assert(pre.subrange(0, pre.len() - 1) =~= lex@.subrange(0, idx as int));
                    assert(pre[pre.len() - 1] == lex@[idx as int]);
                }
                acc = acc * 10 + d;
                idx = idx + 1;
            }
            proof {
                assert(lex@.subrange(0, idx as int) =~= lex@);
                assert(is_digits(lex@));
            }
            Ok(acc)
        },
        _ => Err(Error::IllegalDataFormat),
    }
}

/// A non-empty text under `key`, by the request field rules.
fn name_field(d: &Vec<Member>, key: &String) -> (r: Result<String, Error>)
    ensures
        match r {
            Ok(s) => g_name_field(membs_view(*d), key@) == Ok::<Seq<char>, GError>(s@),
            Err(e) => g_name_field(membs_view(*d), key@) == Err::<Seq<char>, GError>(e@),
        },
{
    match lookup_member(d, key) {
        Some(Value::Text(s)) => {
            if s.as_str().is_empty() {
                Err(Error::IllegalRequestFormat)
            } else {
                Ok(s.clone())
            }
        },
        Some(_) => Err(Error::IllegalRequestFormat),
        None => Err(Error::IllegalRequestFormat),
    }
}

/// The `request` data rules, executably.
fn request_of(d: &Vec<Member>) -> (r: Result<(String, Request), Error>)
    ensures
        match r {
            Ok(p) => g_request(membs_view(*d)) == Ok::<(Seq<char>, GRequest), GError>(
                (p.0@, p.1@),
            ),
            Err(e) => g_request(membs_view(*d)) == Err::<(Seq<char>, GRequest), GError>(e@),
        },
{
    let k_service = String::from_str("service");
    let k_action = String::from_str("action");
    let k_payload = String::from_str("payload");
    proof {
        reveal_strlit("service");
        reveal_strlit("action");
        reveal_strlit("payload");
        assert(k_service@ =~= key_service());
        assert(k_action@ =~= key_action());
        assert(k_payload@ =~= key_payload());
    }
    let service = match name_field(d, &k_service) {
        Ok(s) => s,
        Err(e) => {
            return Err(e);
        },
    };
    let action = match name_field(d, &k_action) {
        Ok(s) => s,
        Err(e) => {
            return Err(e);
        },
    };
    match lookup_member(d, &k_payload) {
        Some(pv) => match pv {
            Value::Obj(_) => Ok(
                (service, Request { action, payload: clone_value(pv) }),
            ),
            _ => Err(Error::IllegalRequestFormat),
        },
        None => Err(Error::IllegalRequestFormat),
    }
}

/// The `next` data rules: a follow-up names no service.
fn next_request_of(d: &Vec<Member>) -> (r: Result<Request, Error>)
    ensures
        match r {
            Ok(p) => g_next_request(membs_view(*d)) == Ok::<GRequest, GError>(p@),
            Err(e) => g_next_request(membs_view(*d)) == Err::<GRequest, GError>(e@),
        },
{
    let k_action = String::from_str("action");
    let k_payload = String::from_str("payload");
    proof {
        reveal_strlit("action");
        reveal_strlit("payload");
        assert(k_action@ =~= key_action());
        assert(k_payload@ =~= key_payload());
    }
    let action = match name_field(d, &k_action) {
        Ok(s) => s,
        Err(e) => {
            return Err(e);
        },
    };
    match lookup_member(d, &k_payload) {
        Some(pv) => match pv {
            Value::Obj(_) => Ok(Request { action, payload: clone_value(pv) }),
            _ => Err(Error::IllegalRequestFormat),
        },
        None => Err(Error::IllegalRequestFormat),
    }
}

/// What one well-parsed wire value means, executably: exactly what
/// `spec_validate` says it means.
pub fn input_of_value(v: &Value) -> (r: Result<Input, Error>)
    ensures
        in_res_view(r) == spec_validate(v@),
        wf_value(v@) ==> (r matches Ok(i) ==> wf_input(i@)),
{
    match v {
        Value::Obj(m) => {
            let k_event = String::from_str("event");
            let k_data = String::from_str("data");
            proof {
                reveal_strlit("event");
                reveal_strlit("data");
                assert(k_event@ =~= key_event());
                assert(k_data@ =~= key_data());
            }
            match lookup_member(m, &k_event) {
                Some(Value::Text(name)) => {
                    let e_request = String::from_str("request");
                    let e_next = String::from_str("next");
                    let e_resume = String::from_str("resume");
                    let e_suspend = String::from_str("suspend");
                    let e_cancel = String::from_str("cancel");
                    proof {
                        reveal_strlit("request");
                        reveal_strlit("next");
                        reveal_strlit("resume");
                        reveal_strlit("suspend");
                        reveal_strlit("cancel");
                        assert(e_request@ =~= evt_request());
                        assert(e_next@ =~= evt_next());
                        assert(e_resume@ =~= evt_resume());
                        assert(e_suspend@ =~= evt_suspend());
                        assert(e_cancel@ =~= evt_cancel());
                    }
                    if *name == e_request {
                        match lookup_member(m, &k_data) {
                            Some(dv) => match dv {
                                Value::Obj(d) => match request_of(d) {
                                    Ok((service, req)) => {
                                        proof {
                                            if wf_value(v@) {
                                                lemma_lookup_wf(membs_view(*m), key_data());
                                                lemma_lookup_wf(membs_view(*d), key_payload());
                                            }
                                        }
                                        Ok(Input::Request(service, req))
                                    },
                                    Err(e) => Err(e),
                                },
                                _ => Err(Error::IllegalDataFormat),
                            },
                            None => Err(Error::DataNotProvided),
                        }
                    } else if *name == e_next {
                        match lookup_member(m, &k_data) {
                            Some(dv) => match dv {
                                Value::Obj(d) => match next_request_of(d) {
                                    Ok(req) => {
                                        proof {
                                            if wf_value(v@) {
                                                lemma_lookup_wf(membs_view(*m), key_data());
                                                lemma_lookup_wf(membs_view(*d), key_payload());
                                            }
                                        }
                                        Ok(Input::Next(Some(req)))
                                    },
                                    Err(e) => Err(e),
                                },
                                Value::Null => Ok(Input::Next(None)),
                                _ => Err(Error::IllegalDataFormat),
                            },
                            None => Ok(Input::Next(None)),
                        }
                    } else if *name == e_resume {
                        match lookup_member(m, &k_data) {
                            Some(dv) => match task_id_of(dv) {
                                Ok(id) => Ok(Input::Resume(id)),
                                Err(e) => Err(e),
                            },
                            None => Err(Error::DataNotProvided),
                        }
                    } else if *name == e_suspend {
                        Ok(Input::Suspend)
                    } else if *name == e_cancel {
                        Err(Error::Canceled)
                    } else {
                        Err(Error::IllegalEventName(name.clone()))
                    }
                },
                Some(_) => Err(Error::IllegalEventType),
                None => Err(Error::IllegalEventType),
            }
        },
        _ => Err(Error::IllegalJsonFormat),
    }
}

/// Decodes one client text: returns exactly what `spec_decode` denotes
/// for it, an `Input` or the error naming the deviation. Never panics on
/// any text.
pub fn decode_input(text: &str) -> (r: Result<Input, Error>)
    ensures
        in_res_view(r) == spec_decode(text@),
        r matches Ok(i) ==> wf_input(i@),
{
    let cs = chars_of(text);
    match parse_text_chars(&cs) {
        Some(v) => input_of_value(&v),
        None => Err(Error::IllegalJsonFormat),
    }
}

// ---- the server-to-client encoding ----------------------------------------

pub enum GOutput {
    Ready,
    Item(GValue),
    Done,
    Reject(Seq<char>),
    Fail(Seq<char>),
    Suspended(TaskId),
}

impl View for Output {
    type V = GOutput;

    open spec fn view(&self) -> GOutput {
        match self {
            Output::Ready => GOutput::Ready,
            Output::Item(v) => GOutput::Item(v@),
            Output::Done => GOutput::Done,
            Output::Reject(m) => GOutput::Reject(m@),
            Output::Fail(m) => GOutput::Fail(m@),
            Output::Suspended(id) => GOutput::Suspended(*id),
        }
    }
}

pub open spec fn evt_ready() -> Seq<char> {
    seq!['r', 'e', 'a', 'd', 'y']
}

pub open spec fn evt_item() -> Seq<char> {
    seq!['i', 't', 'e', 'm']
}

pub open spec fn evt_done() -> Seq<char> {
    seq!['d', 'o', 'n', 'e']
}

pub open spec fn evt_reject() -> Seq<char> {
    seq!['r', 'e', 'j', 'e', 'c', 't']
}

pub open spec fn evt_fail() -> Seq<char> {
    seq!['f', 'a', 'i', 'l']
}

pub open spec fn evt_suspended() -> Seq<char> {
    seq!['s', 'u', 's', 'p', 'e', 'n', 'd', 'e', 'd']
}

pub open spec fn digit_char(d: int) -> char {
    if d == 0 {
        '0'
    } else if d == 1 {
        '1'
    } else if d == 2 {
        '2'
    } else if d == 3 {
        '3'
    } else if d == 4 {
        '4'
    } else if d == 5 {
        '5'
    } else if d == 6 {
        '6'
    } else if d == 7 {
        '7'
    } else if d == 8 {
        '8'
    } else {
        '9'
    }
}

/// The decimal lexeme of a non-negative number, most significant digit
/// first, no sign and no leading zero.
pub open spec fn dec_lexeme_of(n: int) -> Seq<char>
    decreases n when n >= 0
{
    if n < 10 {
        seq![digit_char(n)]
    } else {
        dec_lexeme_of(n / 10).push(digit_char(n % 10))
    }
}

/// The wire tree of one server message: exactly these fields, no extras.
pub open spec fn out_tree(o: GOutput) -> GValue {
    match o {
        GOutput::Ready => GValue::Obj(seq![(key_event(), GValue::Text(evt_ready()))]),
        GOutput::Item(v) => GValue::Obj(
            seq![(key_event(), GValue::Text(evt_item())), (key_data(), v)],
        ),
        GOutput::Done => GValue::Obj(seq![(key_event(), GValue::Text(evt_done()))]),
        GOutput::Reject(m) => GValue::Obj(
            seq![(key_event(), GValue::Text(evt_reject())), (key_data(), GValue::Text(m))],
        ),
        GOutput::Fail(m) => GValue::Obj(
            seq![(key_event(), GValue::Text(evt_fail())), (key_data(), GValue::Text(m))],
        ),
        GOutput::Suspended(id) => GValue::Obj(
            seq![
                (key_event(), GValue::Text(evt_suspended())),
                (key_data(), GValue::Num(dec_lexeme_of(id as int))),
            ],
        ),
    }
}

/// The canonical text of one server message.
pub open spec fn spec_encode_output(o: GOutput) -> Seq<char> {
    enc_value(out_tree(o))
}

fn write_digits(n: usize, out: &mut String)
    ensures
        final(out)@ == old(out)@ + dec_lexeme_of(n as int),
    decreases n,
{
    let ghost base = out@;
    if n >= 10 {
        write_digits(n / 10, out);
    }
    let m = n % 10;
    let c = if m == 0 {
        '0'
    } else if m == 1 {
        '1'
    } else if m == 2 {
        '2'
    } else if m == 3 {
        '3'
    } else if m == 4 {
        '4'
    } else if m == 5 {
        '5'
    } else if m == 6 {
        '6'
    } else if m == 7 {
        '7'
    } else if m == 8 {
        '8'
    } else {
        '9'
    };
    proof {
        assert(c == digit_char(n as int % 10));
    }
    crate::json::push_char(out, c);
    proof {
        if n < 10 {
            assert(out@ =~= base + seq![digit_char(n as int)]);
        } else {
            assert(out@ =~= base + dec_lexeme_of(n as int));
        }
    }
}

/// The decimal text of a task handle.
pub fn task_id_text(id: TaskId) -> (r: String)
    ensures
        r@ == dec_lexeme_of(id as int),
{
    let mut out = String::new();
    write_digits(id, &mut out);
    proof {
        assert(out@ =~= dec_lexeme_of(id as int));
    }
    out
}

/// Encodes one server message: exactly the canonical text that
/// `spec_encode_output` denotes, no extra fields, no whitespace.
pub fn encode_output(o: &Output) -> (r: String)
    ensures
        r@ == spec_encode_output(o@),
{
    let k_event = String::from_str("event");
    let k_data = String::from_str("data");
    proof {
        reveal_strlit("event");
        reveal_strlit("data");
        assert(k_event@ =~= key_event());
        assert(k_data@ =~= key_data());
    }
    let mut ms: Vec<Member> = Vec::new();
    match o {
        Output::Ready => {
            let name = String::from_str("ready");
            proof {
                reveal_strlit("ready");
                assert(name@ =~= evt_ready());
            }
            ms.push(Member { key: k_event, val: Value::Text(name) });
            proof {
                assert(membs_view(ms) =~= seq![(key_event(), GValue::Text(evt_ready()))]);
            }
        },
        Output::Item(v) => {
            let name = String::from_str("item");
            proof {
                reveal_strlit("item");
                assert(name@ =~= evt_item());
            }
            ms.push(Member { key: k_event, val: Value::Text(name) });
            ms.push(Member { key: k_data, val: clone_value(v) });
            proof {
                assert(membs_view(ms) =~= seq![
                    (key_event(), GValue::Text(evt_item())),
                    (key_data(), v@),
                ]);
            }
        },
        Output::Done => {
            let name = String::from_str("done");
            proof {
                reveal_strlit("done");
                assert(name@ =~= evt_done());
            }
            ms.push(Member { key: k_event, val: Value::Text(name) });
            proof {
                assert(membs_view(ms) =~= seq![(key_event(), GValue::Text(evt_done()))]);
            }
        },
        Output::Reject(msg) => {
            let name = String::from_str("reject");
            proof {
                reveal_strlit("reject");
                assert(name@ =~= evt_reject());
            }
            ms.push(Member { key: k_event, val: Value::Text(name) });
            ms.push(Member { key: k_data, val: Value::Text(msg.clone()) });
            proof {
                assert(membs_view(ms) =~= seq![
                    (key_event(), GValue::Text(evt_reject())),
                    (key_data(), GValue::Text(msg@)),
                ]);
            }
        },
        Output::Fail(msg) => {
            let name = String::from_str("fail");
            proof {
                reveal_strlit("fail");
                assert(name@ =~= evt_fail());
            }
            ms.push(Member { key: k_event, val: Value::Text(name) });
            ms.push(Member { key: k_data, val: Value::Text(msg.clone()) });
            proof {
                assert(membs_view(ms) =~= seq![
                    (key_event(), GValue::Text(evt_fail())),
                    (key_data(), GValue::Text(msg@)),
                ]);
            }
        },
        Output::Suspended(id) => {
            let name = String::from_str("suspended");
            proof {
                reveal_strlit("suspended");
                assert(name@ =~= evt_suspended());
            }
            ms.push(Member { key: k_event, val: Value::Text(name) });
            ms.push(Member { key: k_data, val: Value::Num(task_id_text(*id)) });
            proof {
                assert(membs_view(ms) =~= seq![
                    (key_event(), GValue::Text(evt_suspended())),
                    (key_data(), GValue::Num(dec_lexeme_of(*id as int))),
                ]);
            }
        },
    }
    let tree = Value::Obj(ms);
    proof {
        assert(tree@ == out_tree(o@));
    }
    to_text(&tree)
}

/// The wire tree of a client request, as a client writes it.
pub open spec fn request_tree(service: Seq<char>, r: GRequest) -> GValue {
    GValue::Obj(
        seq![
            (key_event(), GValue::Text(evt_request())),
            (
                key_data(),
                GValue::Obj(
                    seq![
                        (key_service(), GValue::Text(service)),
                        (key_action(), GValue::Text(r.action)),
                        (key_payload(), r.payload),
                    ],
                ),
            ),
        ],
    )
}

/// Encodes a client request: the canonical text of `request_tree`. The
/// server never sends one; clients and tests do, and decoding it hands
/// the request back.
pub fn encode_request(service: &String, req: &Request) -> (r: String)
    ensures
        r@ == enc_value(request_tree(service@, req@)),
{
    let k_event = String::from_str("event");
    let k_data = String::from_str("data");
    let k_service = String::from_str("service");
    let k_action = String::from_str("action");
    let k_payload = String::from_str("payload");
    let e_request = String::from_str("request");
    proof {
        reveal_strlit("event");
        reveal_strlit("data");
        reveal_strlit("service");
        reveal_strlit("action");
        reveal_strlit("payload");
        reveal_strlit("request");
        assert(k_event@ =~= key_event());
        assert(k_data@ =~= key_data());
        assert(k_service@ =~= key_service());
        assert(k_action@ =~= key_action());
        assert(k_payload@ =~= key_payload());
        assert(e_request@ =~= evt_request());
    }
    let mut inner: Vec<Member> = Vec::new();
    inner.push(Member { key: k_service, val: Value::Text(service.clone()) });
    inner.push(Member { key: k_action, val: Value::Text(req.action.clone()) });
    inner.push(Member { key: k_payload, val: clone_value(&req.payload) });
    proof {
        assert(membs_view(inner) =~= seq![
            (key_service(), GValue::Text(service@)),
            (key_action(), GValue::Text(req@.action)),
            (key_payload(), req@.payload),
        ]);
    }
    let data_val = Value::Obj(inner);
    let mut ms: Vec<Member> = Vec::new();
    ms.push(Member { key: k_event, val: Value::Text(e_request) });
    ms.push(Member { key: k_data, val: data_val });
    proof {
        assert(membs_view(ms) =~= seq![
            (key_event(), GValue::Text(evt_request())),
            (
                key_data(),
                GValue::Obj(
                    seq![
                        (key_service(), GValue::Text(service@)),
                        (key_action(), GValue::Text(req@.action)),
                        (key_payload(), req@.payload),
                    ],
                ),
            ),
        ]);
    }
    let tree = Value::Obj(ms);
    proof {
        assert(tree@ == request_tree(service@, req@));
    }
    to_text(&tree)
}

} // verus!
