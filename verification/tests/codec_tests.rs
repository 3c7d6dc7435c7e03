use mould::codec::{clone_value, decode_input, encode_output, encode_request};
use mould::json::to_text;
use mould::value::Member;
use mould::{Error, Input, Output, Request, Value};

fn member(key: &str, val: Value) -> Member {
    Member { key: key.to_string(), val }
}

fn obj(members: Vec<Member>) -> Value {
    Value::Obj(members)
}

fn payload_x1() -> Value {
    obj(vec![member("x", Value::Num("1".to_string()))])
}

#[test]
fn item_encodes_exactly() {
    let out = Output::Item(payload_x1());
    assert_eq!(encode_output(&out), "{\"event\":\"item\",\"data\":{\"x\":1}}");
}

#[test]
fn plain_outputs_encode_exactly() {
    assert_eq!(encode_output(&Output::Ready), "{\"event\":\"ready\"}");
    assert_eq!(encode_output(&Output::Done), "{\"event\":\"done\"}");
    assert_eq!(
        encode_output(&Output::Reject("no such service".to_string())),
        "{\"event\":\"reject\",\"data\":\"no such service\"}"
    );
    assert_eq!(
        encode_output(&Output::Fail("boom".to_string())),
        "{\"event\":\"fail\",\"data\":\"boom\"}"
    );
    assert_eq!(
        encode_output(&Output::Suspended(12034)),
        "{\"event\":\"suspended\",\"data\":12034}"
    );
    assert_eq!(
        encode_output(&Output::Suspended(0)),
        "{\"event\":\"suspended\",\"data\":0}"
    );
}

#[test]
fn request_round_trips_through_the_wire() {
    let payload = obj(vec![
        member("query", Value::Text("all".to_string())),
        member(
            "limits",
            Value::Arr(vec![Value::Num("10".to_string()), Value::Null, Value::Bool(true)]),
        ),
        member("nested", obj(vec![member("deep", obj(vec![]))])),
    ]);
    let req = Request { action: "find".to_string(), payload: clone_value(&payload) };
    let text = encode_request(&"library".to_string(), &req);
    match decode_input(&text) {
        Ok(Input::Request(service, got)) => {
            assert_eq!(service, "library");
            assert_eq!(got.action, "find");
            assert_eq!(got.payload, payload);
        }
        other => panic!("expected a request back, got {:?}", other),
    }
}

#[test]
fn request_with_odd_text_round_trips() {
    let payload = obj(vec![member(
        "note",
        Value::Text("a\"b\\c\nd\te \u{8}f\u{c}g h\u{e9}llo \u{4e16}\u{754c}".to_string()),
    )]);
    let req = Request { action: "echo".to_string(), payload: clone_value(&payload) };
    let text = encode_request(&"s".to_string(), &req);
    match decode_input(&text) {
        Ok(Input::Request(_, got)) => assert_eq!(got.payload, payload),
        other => panic!("expected a request back, got {:?}", other),
    }
}

#[test]
fn number_lexemes_travel_unchanged() {
    let payload = obj(vec![
        member("a", Value::Num("-12.5e3".to_string())),
        member("b", Value::Num("0".to_string())),
        member("c", Value::Num("1.5".to_string())),
    ]);
    let text = to_text(&payload);
    assert_eq!(text, "{\"a\":-12.5e3,\"b\":0,\"c\":1.5}");
}

#[test]
fn malformed_text_is_illegal_json() {
    assert_eq!(decode_input("not json at all"), Err(Error::IllegalJsonFormat));
    assert_eq!(decode_input(""), Err(Error::IllegalJsonFormat));
    assert_eq!(decode_input("{\"event\":\"next\""), Err(Error::IllegalJsonFormat));
    assert_eq!(decode_input("{\"event\":\"next\"}}"), Err(Error::IllegalJsonFormat));
    assert_eq!(decode_input("{\"event\":'next'}"), Err(Error::IllegalJsonFormat));
    assert_eq!(decode_input("{event:\"next\"}"), Err(Error::IllegalJsonFormat));
    assert_eq!(decode_input("[1,2]"), Err(Error::IllegalJsonFormat));
    assert_eq!(decode_input("\"next\""), Err(Error::IllegalJsonFormat));
    assert_eq!(decode_input("{\"a\":01}"), Err(Error::IllegalJsonFormat));
    assert_eq!(decode_input("{\"a\":[1,]}"), Err(Error::IllegalJsonFormat));
}

#[test]
fn event_field_rules() {
    assert_eq!(decode_input("{}"), Err(Error::IllegalEventType));
    assert_eq!(decode_input("{\"data\":{}}"), Err(Error::IllegalEventType));
    assert_eq!(decode_input("{\"event\":5}"), Err(Error::IllegalEventType));
    assert_eq!(decode_input("{\"event\":null}"), Err(Error::IllegalEventType));
    assert_eq!(
        decode_input("{\"event\":\"bogus\"}"),
        Err(Error::IllegalEventName("bogus".to_string()))
    );
}

#[test]
fn request_data_rules() {
    assert_eq!(decode_input("{\"event\":\"request\"}"), Err(Error::DataNotProvided));
    assert_eq!(
        decode_input("{\"event\":\"request\",\"data\":7}"),
        Err(Error::IllegalDataFormat)
    );
    assert_eq!(
        decode_input("{\"event\":\"request\",\"data\":null}"),
        Err(Error::IllegalDataFormat)
    );
    assert_eq!(
        decode_input("{\"event\":\"request\",\"data\":{\"action\":\"a\",\"payload\":{}}}"),
        Err(Error::IllegalRequestFormat)
    );
    assert_eq!(
        decode_input(
            "{\"event\":\"request\",\"data\":{\"service\":\"\",\"action\":\"a\",\"payload\":{}}}"
        ),
        Err(Error::IllegalRequestFormat)
    );
    assert_eq!(
        decode_input(
            "{\"event\":\"request\",\"data\":{\"service\":\"s\",\"action\":\"a\",\"payload\":3}}"
        ),
        Err(Error::IllegalRequestFormat)
    );
    let ok = decode_input(
        "{\"event\":\"request\",\"data\":{\"service\":\"s\",\"action\":\"a\",\"payload\":{}}}",
    );
    assert_eq!(
        ok,
        Ok(Input::Request(
            "s".to_string(),
            Request { action: "a".to_string(), payload: obj(vec![]) }
        ))
    );
}

#[test]
fn next_data_rules() {
    assert_eq!(decode_input("{\"event\":\"next\"}"), Ok(Input::Next(None)));
    assert_eq!(decode_input("{\"event\":\"next\",\"data\":null}"), Ok(Input::Next(None)));
    assert_eq!(
        decode_input("{\"event\":\"next\",\"data\":5}"),
        Err(Error::IllegalDataFormat)
    );
    assert_eq!(
        decode_input("{\"event\":\"next\",\"data\":{\"action\":\"more\",\"payload\":{}}}"),
        Ok(Input::Next(Some(Request { action: "more".to_string(), payload: obj(vec![]) })))
    );
    assert_eq!(
        decode_input("{\"event\":\"next\",\"data\":{\"payload\":{}}}"),
        Err(Error::IllegalRequestFormat)
    );
}

#[test]
fn resume_data_rules() {
    assert_eq!(decode_input("{\"event\":\"resume\",\"data\":5}"), Ok(Input::Resume(5)));
    assert_eq!(decode_input("{\"event\":\"resume\",\"data\":0}"), Ok(Input::Resume(0)));
    assert_eq!(
        decode_input("{\"event\":\"resume\",\"data\":-1}"),
        Err(Error::IllegalTaskId)
    );
    assert_eq!(
        decode_input("{\"event\":\"resume\",\"data\":\"x\"}"),
        Err(Error::IllegalDataFormat)
    );
    assert_eq!(
        decode_input("{\"event\":\"resume\",\"data\":null}"),
        Err(Error::IllegalDataFormat)
    );
    assert_eq!(
        decode_input("{\"event\":\"resume\",\"data\":1.5}"),
        Err(Error::IllegalTaskId)
    );
    assert_eq!(
        decode_input("{\"event\":\"resume\",\"data\":1e3}"),
        Err(Error::IllegalTaskId)
    );
    assert_eq!(decode_input("{\"event\":\"resume\"}"), Err(Error::DataNotProvided));
    // one digit past the largest handle
    assert_eq!(
        decode_input("{\"event\":\"resume\",\"data\":18446744073709551616}"),
        Err(Error::IllegalTaskId)
    );
    assert_eq!(
        decode_input("{\"event\":\"resume\",\"data\":18446744073709551615}"),
        Ok(Input::Resume(usize::MAX))
    );
}

#[test]
fn suspend_and_cancel() {
    assert_eq!(decode_input("{\"event\":\"suspend\"}"), Ok(Input::Suspend));
    assert_eq!(decode_input("{\"event\":\"cancel\"}"), Err(Error::Canceled));
    assert_eq!(decode_input("{\"event\":\"cancel\",\"data\":{}}"), Err(Error::Canceled));
}

#[test]
fn whitespace_and_field_order_are_tolerated() {
    assert_eq!(
        decode_input(" {\n\t\"event\" :\r \"suspend\" } "),
        Ok(Input::Suspend)
    );
    assert_eq!(
        decode_input("{\"data\":5,\"event\":\"resume\"}"),
        Ok(Input::Resume(5))
    );
}

#[test]
fn first_key_occurrence_counts() {
    assert_eq!(
        decode_input("{\"event\":\"suspend\",\"event\":\"cancel\"}"),
        Ok(Input::Suspend)
    );
}

#[test]
fn unicode_escapes_decode() {
    assert_eq!(decode_input("{\"event\":\"\\u006eext\"}"), Ok(Input::Next(None)));
    assert_eq!(decode_input("{\"event\":\"\\u0073uspend\"}"), Ok(Input::Suspend));
    // a surrogate pair names one character
    let text = "{\"event\":\"request\",\"data\":{\"service\":\"s\",\"action\":\"\\uD83D\\uDE00\",\"payload\":{}}}";
    match decode_input(text) {
        Ok(Input::Request(_, req)) => assert_eq!(req.action, "\u{1F600}"),
        other => panic!("expected a request, got {:?}", other),
    }
}

#[test]
fn bad_unicode_escapes_are_illegal_json() {
    // lone high surrogate, lone low surrogate, bad hex, truncated escape
    assert_eq!(
        decode_input("{\"event\":\"\\uD83Dx\"}"),
        Err(Error::IllegalJsonFormat)
    );
    assert_eq!(
        decode_input("{\"event\":\"\\uDE00\"}"),
        Err(Error::IllegalJsonFormat)
    );
    assert_eq!(
        decode_input("{\"event\":\"\\u00zz\"}"),
        Err(Error::IllegalJsonFormat)
    );
    assert_eq!(decode_input("{\"event\":\"\\u00\"}"), Err(Error::IllegalJsonFormat));
}

#[test]
fn control_characters_travel_escaped() {
    assert_eq!(
        encode_output(&Output::Reject("a\u{1}b\u{1f}c\u{8}\u{c}\n".to_string())),
        "{\"event\":\"reject\",\"data\":\"a\\u0001b\\u001fc\\b\\f\\n\"}"
    );
    let payload = obj(vec![member("note", Value::Text("\u{0}\u{1}\u{1f} ok".to_string()))]);
    let req = Request { action: "echo".to_string(), payload: clone_value(&payload) };
    let text = encode_request(&"s".to_string(), &req);
    match decode_input(&text) {
        Ok(Input::Request(_, got)) => assert_eq!(got.payload, payload),
        other => panic!("expected a request back, got {:?}", other),
    }
}

#[test]
fn escapes_decode_to_their_characters() {
    let text = "{\"event\":\"request\",\"data\":{\"service\":\"s\",\"action\":\"a\\n\\t\\\"b\\\\\\/\",\"payload\":{}}}";
    match decode_input(text) {
        Ok(Input::Request(_, req)) => assert_eq!(req.action, "a\n\t\"b\\/"),
        other => panic!("expected a request, got {:?}", other),
    }
}
