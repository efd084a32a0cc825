use mozaic::message::{Message, Payload, TakeError, TAG_DATA, TAG_TICK};
use mozaic::types::Data;

fn data_payload(value: &str) -> Payload {
    Payload::Data(Data { value: String::from(value) })
}

#[test]
fn exploration() {
    let mut maybe = Message::wrap(data_payload("333"));
    let result = match maybe.take_as(TAG_DATA) {
        Ok(Payload::Data(d)) => Some(d.value),
        _ => None,
    };
    assert_eq!(result, Some(String::from("333")));

    let result = match maybe.take_as(TAG_DATA) {
        Ok(Payload::Data(d)) => Some(d.value),
        _ => None,
    };
    assert_eq!(result, None);
}

#[test]
fn wrap_records_the_tag() {
    let m = Message::wrap(data_payload("x"));
    assert_eq!(m.tag(), TAG_DATA);
    let t = Message::wrap(Payload::Tick);
    assert_eq!(t.tag(), TAG_TICK);
}

#[test]
fn take_fails_closed_on_tag_mismatch() {
    let mut m = Message::wrap(data_payload("x"));
    assert_eq!(m.take_as(TAG_TICK), Err(TakeError::TagMismatch));
    // the payload is still there after the refused recovery
    assert!(matches!(m.take_as(TAG_DATA), Ok(Payload::Data(_))));
}

#[test]
fn second_take_reports_empty() {
    let mut m = Message::wrap(Payload::Tick);
    assert!(m.take_as(TAG_TICK).is_ok());
    assert_eq!(m.take_as(TAG_TICK), Err(TakeError::Empty));
    // the tag stays readable after the payload is gone
    assert_eq!(m.tag(), TAG_TICK);
}

#[test]
fn borrow_leaves_the_payload_in_place() {
    let m = Message::wrap(data_payload("keep"));
    match m.borrow_as(TAG_DATA) {
        Ok(Payload::Data(d)) => assert_eq!(d.value, "keep"),
        other => panic!("unexpected: {:?}", other),
    }
    match m.borrow_as(TAG_DATA) {
        Ok(Payload::Data(d)) => assert_eq!(d.value, "keep"),
        other => panic!("unexpected: {:?}", other),
    }
    assert!(matches!(m.borrow_as(TAG_TICK), Err(TakeError::TagMismatch)));
}

#[test]
fn tag_for_agrees_with_wrap() {
    let p = Payload::Tick;
    let t = Message::tag_for(&p);
    let m = Message::wrap(p);
    assert_eq!(m.tag(), t);
}
