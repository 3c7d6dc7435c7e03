use mould::value::Member;
use mould::{
    Builder, Context, DefaultBuilder, Either, Error, Flow, FlowError, Output, Request, Session,
    Value,
};

/// A transport double: hands out a script of incoming messages, then
/// reports the channel closed; records everything sent.
struct ScriptFlow {
    incoming: Vec<String>,
    next: usize,
    pulls: usize,
    sent: Vec<String>,
    fail_pulls: bool,
}

impl ScriptFlow {
    fn of(messages: &[&str]) -> ScriptFlow {
        ScriptFlow {
            incoming: messages.iter().map(|m| m.to_string()).collect(),
            next: 0,
            pulls: 0,
            sent: Vec::new(),
            fail_pulls: false,
        }
    }
}

impl Flow for ScriptFlow {
    fn pull(&mut self) -> Result<Option<String>, FlowError> {
        self.pulls += 1;
        if self.fail_pulls {
            return Err(FlowError { message: "wire cut".to_string() });
        }
        if self.next < self.incoming.len() {
            let msg = self.incoming[self.next].clone();
            self.next += 1;
            Ok(Some(msg))
        } else {
            Ok(None)
        }
    }

    fn push(&mut self, text: String) -> Result<(), FlowError> {
        self.sent.push(text);
        Ok(())
    }
}

#[derive(Default)]
struct Counter {
    served: usize,
}

impl Session for Counter {}

fn item_n(n: usize) -> Output {
    Output::Item(Value::Obj(vec![Member {
        key: "n".to_string(),
        val: Value::Num(n.to_string()),
    }]))
}

#[test]
fn builder_makes_fresh_sessions() {
    let builder = DefaultBuilder;
    let s: Counter = builder.build();
    assert_eq!(s.served, 0);
}

#[test]
fn next_is_illegal_at_task_start() {
    let flow = ScriptFlow::of(&["{\"event\":\"next\"}"]);
    let mut ctx = Context::new(flow, Counter::default());
    assert_eq!(ctx.recv_request_or_resume(), Err(Error::UnexpectedState));
}

#[test]
fn resume_is_illegal_mid_stream() {
    let flow = ScriptFlow::of(&["{\"event\":\"resume\",\"data\":5}"]);
    let mut ctx = Context::new(flow, Counter::default());
    assert_eq!(ctx.recv_next_or_suspend(), Err(Error::UnexpectedState));
}

#[test]
fn cancel_fails_in_both_phases() {
    let flow = ScriptFlow::of(&["{\"event\":\"cancel\"}", "{\"event\":\"cancel\"}"]);
    let mut ctx = Context::new(flow, Counter::default());
    assert_eq!(ctx.recv_request_or_resume(), Err(Error::Canceled));
    assert_eq!(ctx.recv_next_or_suspend(), Err(Error::Canceled));
}

#[test]
fn closed_flow_is_connection_closed_and_nothing_more_moves() {
    let flow = ScriptFlow::of(&[]);
    let mut ctx = Context::new(flow, Counter::default());
    assert_eq!(ctx.recv(), Err(Error::ConnectionClosed));
    assert_eq!(ctx.client.pulls, 1);
    assert_eq!(ctx.client.sent.len(), 0);
}

#[test]
fn transport_fault_is_connector_fail() {
    let mut flow = ScriptFlow::of(&[]);
    flow.fail_pulls = true;
    let mut ctx = Context::new(flow, Counter::default());
    assert_eq!(
        ctx.recv(),
        Err(Error::ConnectorFail("wire cut".to_string()))
    );
}

#[test]
fn a_full_task_cycle_streams_three_items() {
    let flow = ScriptFlow::of(&[
        "{\"event\":\"request\",\"data\":{\"service\":\"library\",\"action\":\"find\",\"payload\":{}}}",
        "{\"event\":\"next\"}",
        "{\"event\":\"next\"}",
        "{\"event\":\"next\"}",
        "{\"event\":\"next\"}",
    ]);
    let mut ctx = Context::new(flow, Counter::default());
    match ctx.recv_request_or_resume() {
        Ok(Either::Left((service, req))) => {
            assert_eq!(service, "library");
            assert_eq!(req.action, "find");
        }
        other => panic!("expected a request, got {:?}", other),
    }
    ctx.send(&Output::Ready).unwrap();
    for n in 0..3usize {
        match ctx.recv_next_or_suspend() {
            Ok(Either::Left(None)) => {}
            other => panic!("expected a plain next, got {:?}", other),
        }
        ctx.send(&item_n(n)).unwrap();
        ctx.session.served += 1;
    }
    ctx.send(&Output::Done).unwrap();
    // a fourth `next` without a new request is out of phase
    assert_eq!(ctx.recv_request_or_resume(), Err(Error::UnexpectedState));
    assert_eq!(ctx.session.served, 3);
    assert_eq!(
        ctx.client.sent,
        vec![
            "{\"event\":\"ready\"}".to_string(),
            "{\"event\":\"item\",\"data\":{\"n\":0}}".to_string(),
            "{\"event\":\"item\",\"data\":{\"n\":1}}".to_string(),
            "{\"event\":\"item\",\"data\":{\"n\":2}}".to_string(),
            "{\"event\":\"done\"}".to_string(),
        ]
    );
}

#[test]
fn suspend_then_resume_carries_the_handle_unchanged() {
    let flow = ScriptFlow::of(&[
        "{\"event\":\"request\",\"data\":{\"service\":\"library\",\"action\":\"find\",\"payload\":{}}}",
        "{\"event\":\"suspend\"}",
    ]);
    let mut ctx = Context::new(flow, Counter::default());
    assert!(matches!(ctx.recv_request_or_resume(), Ok(Either::Left(_))));
    ctx.send(&Output::Ready).unwrap();
    match ctx.recv_next_or_suspend() {
        Ok(Either::Right(())) => {}
        other => panic!("expected a suspension, got {:?}", other),
    }
    ctx.send(&Output::Suspended(41)).unwrap();
    assert_eq!(
        ctx.client.sent.last().unwrap(),
        "{\"event\":\"suspended\",\"data\":41}"
    );

    // a later connection resumes the task by the same handle
    let flow2 = ScriptFlow::of(&["{\"event\":\"resume\",\"data\":41}"]);
    let mut ctx2 = Context::new(flow2, Counter::default());
    match ctx2.recv_request_or_resume() {
        Ok(Either::Right(id)) => assert_eq!(id, 41),
        other => panic!("expected a resumption, got {:?}", other),
    }
}

#[test]
fn re_parameterized_next_reaches_the_caller() {
    let flow = ScriptFlow::of(&[
        "{\"event\":\"next\",\"data\":{\"action\":\"page\",\"payload\":{\"from\":10}}}",
    ]);
    let mut ctx = Context::new(flow, Counter::default());
    match ctx.recv_next_or_suspend() {
        Ok(Either::Left(Some(req))) => {
            assert_eq!(req.action, "page");
            assert_eq!(
                req.payload,
                Value::Obj(vec![Member {
                    key: "from".to_string(),
                    val: Value::Num("10".to_string()),
                }])
            );
        }
        other => panic!("expected a re-parameterized next, got {:?}", other),
    }
    let _ = Request { action: "page".to_string(), payload: Value::Obj(vec![]) };
}
