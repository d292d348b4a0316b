use mikrotik_api::call::{
    ArrayListCall, AsyncCall, CallError, OneShotCall, StreamPoll, StreamingCall,
};
use mikrotik_api::error::DeserializerError;
use mikrotik_api::model::Response;

#[test]
fn one_shot_first_reply_wins_and_done_once() {
    let mut call = OneShotCall::new();
    call.push_reply(Ok(Response::Fatal("first".to_string()))).unwrap();
    call.push_reply(Ok(Response::Fatal("second".to_string()))).unwrap();
    assert_eq!(call.done(), Ok(()));
    assert_eq!(call.done(), Err(CallError::DoneAlreadyHappened));
    assert_eq!(
        call.push_reply(Ok(Response::Done)),
        Err(CallError::DoneAlreadyHappened)
    );
    match call.take_result() {
        Ok(Ok(Response::Fatal(m))) => assert_eq!(m, "first"),
        _ => panic!("expected the first reply"),
    }
}

#[test]
fn one_shot_not_done_has_no_result() {
    let call = OneShotCall::new();
    assert!(matches!(call.take_result(), Err(CallError::NotDone)));
    let mut empty = OneShotCall::new();
    empty.done().unwrap();
    assert!(matches!(empty.take_result(), Ok(Ok(Response::Done))));
}

#[test]
fn array_keeps_every_item_in_order() {
    let mut call = ArrayListCall::new();
    call.push_reply(Err(DeserializerError::MissingWord)).unwrap();
    call.push_reply(Ok(Response::Done)).unwrap();
    assert!(matches!(ArrayListCall::new().take_result(), Err(CallError::NotDone)));
    call.done().unwrap();
    assert_eq!(call.done(), Err(CallError::DoneAlreadyHappened));
    let items = call.take_result().unwrap();
    assert_eq!(items.len(), 2);
    assert!(matches!(items[0], Err(DeserializerError::MissingWord)));
}

#[test]
fn stream_delivers_before_done_then_ends() {
    let mut call = StreamingCall::new();
    assert!(matches!(call.next_item(), StreamPoll::Pending));
    call.push_reply(Ok(Response::Fatal("a".to_string()))).unwrap();
    assert!(matches!(call.next_item(), StreamPoll::Item(Ok(Response::Fatal(ref m))) if m == "a"));
    call.push_reply(Ok(Response::Done)).unwrap();
    call.done().unwrap();
    assert_eq!(call.done(), Err(CallError::DoneAlreadyHappened));
    assert!(matches!(call.next_item(), StreamPoll::Item(Ok(Response::Done))));
    assert!(matches!(call.next_item(), StreamPoll::End));
}
