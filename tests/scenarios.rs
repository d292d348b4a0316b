use mikrotik_api::call::StreamPoll;
use mikrotik_api::client::{
    array_outcome, cancel_command, encode_text_command, login_command, login_outcome,
    one_shot_outcome, typed_item,
};
use mikrotik_api::codec::encode_sentence;
use mikrotik_api::error::Error;
use mikrotik_api::fields::Attributes;
use mikrotik_api::model::{ActiveUser, Response, TrapCategory};
use mikrotik_api::table::{Action, CallKind, Sink, TagTable};

fn words(ws: &[&str]) -> Vec<Vec<u8>> {
    ws.iter().map(|w| w.as_bytes().to_vec()).collect()
}

#[test]
fn tiny_login_round_trip() {
    let sent = login_command(1, "admin", "").unwrap();
    assert_eq!(sent, encode_sentence(&words(&["/login", ".tag=1", "=name=admin", "=password="])));
    let mut table = TagTable::new();
    let (tag, id) = table.register(CallKind::OneShot, 1).unwrap();
    assert_eq!(tag, 1);
    assert_eq!(table.dispatch(&words(&["!done", ".tag=1"])), Action::Completed(id));
    let item = match table.take_finished(id) {
        Some(Sink::OneShot(c)) => c.take_result().unwrap(),
        _ => panic!("no finished one-shot call"),
    };
    assert!(login_outcome(item).is_ok());
    assert!(!table.contains_tag(1));
}

#[test]
fn login_refused_by_trap() {
    let mut table = TagTable::new();
    let (_, id) = table.register(CallKind::OneShot, 5).unwrap();
    table.dispatch(&words(&["!trap", ".tag=5", "=message=invalid user name or password (6)"]));
    table.dispatch(&words(&["!done", ".tag=5"]));
    let item = match table.take_finished(id) {
        Some(Sink::OneShot(c)) => c.take_result().unwrap(),
        _ => panic!("no finished one-shot call"),
    };
    match login_outcome(item) {
        Err(Error::Remote { category, message }) => {
            assert_eq!(category, None);
            assert_eq!(message, "invalid user name or password (6)");
        }
        other => panic!("unexpected {:?}", other),
    }
}

#[test]
fn one_shot_identity() {
    let sent = encode_text_command("/system/identity/print", 7, &[]).unwrap();
    assert_eq!(sent, encode_sentence(&words(&["/system/identity/print", ".tag=7"])));
    let mut table = TagTable::new();
    let (tag, id) = table.register(CallKind::OneShot, 7).unwrap();
    assert_eq!(tag, 7);
    assert_eq!(table.dispatch(&words(&["!re", ".tag=7", "=name=MainRouter"])), Action::Delivered(id));
    assert_eq!(table.dispatch(&words(&["!done", ".tag=7"])), Action::Completed(id));
    let item = match table.take_finished(id) {
        Some(Sink::OneShot(c)) => c.take_result().unwrap(),
        _ => panic!("no finished one-shot call"),
    };
    let attrs: Attributes = one_shot_outcome(item).unwrap();
    assert_eq!(attrs.get(b"name").unwrap(), &b"MainRouter".to_vec());
}

#[test]
fn trap_on_array_call() {
    let mut table = TagTable::new();
    let (_, id) = table.register(CallKind::ArrayList, 9).unwrap();
    table.dispatch(&words(&["!trap", ".tag=9", "=category=1", "=message=bad argument"]));
    table.dispatch(&words(&["!done", ".tag=9"]));
    let items = match table.take_finished(id) {
        Some(Sink::ArrayList(c)) => c.take_result().unwrap(),
        _ => panic!("no finished array call"),
    };
    match array_outcome::<Attributes>(items) {
        Err(Error::Remote { category, message }) => {
            assert_eq!(category, Some(TrapCategory::ArgumentValueFailure));
            assert_eq!(message, "bad argument");
        }
        other => panic!("unexpected {:?}", other.map(|v| v.len())),
    }
}

#[test]
fn array_call_collects_replies_in_order() {
    let mut table = TagTable::new();
    let (_, id) = table.register(CallKind::ArrayList, 11).unwrap();
    table.dispatch(&words(&["!re", ".tag=11", "=name=ether1"]));
    table.dispatch(&words(&["!re", ".tag=11", "=name=ether2"]));
    table.dispatch(&words(&["!done", ".tag=11"]));
    let items = match table.take_finished(id) {
        Some(Sink::ArrayList(c)) => c.take_result().unwrap(),
        _ => panic!("no finished array call"),
    };
    let list = array_outcome::<Attributes>(items).unwrap();
    assert_eq!(list.len(), 2);
    assert_eq!(list[0].get(b"name").unwrap(), &b"ether1".to_vec());
    assert_eq!(list[1].get(b"name").unwrap(), &b"ether2".to_vec());
}

#[test]
fn streaming_with_cancel() {
    let mut table = TagTable::new();
    let (tag, id) = table.register(CallKind::Streaming, 42).unwrap();
    assert_eq!(tag, 42);
    let login = "=.id=*1";
    table.dispatch(&words(&["!re", ".tag=42", login, "=name=admin", "=when=jan/01 10:00:00", "=address=10.0.0.2", "=via=api", "=group=full", "=radius=false"]));
    table.dispatch(&words(&["!re", ".tag=42", "=.id=*1", "=.dead=true"]));
    let mut users = Vec::new();
    for _ in 0..2 {
        match table.next_stream_item(id) {
            StreamPoll::Item(item) => users.push(typed_item::<ActiveUser>(item).unwrap()),
            _ => panic!("missing stream item"),
        }
    }
    assert!(matches!(table.next_stream_item(id), StreamPoll::Pending));
    match &users[0] {
        Response::Reply(ActiveUser::Active { name, via, .. }) => {
            assert_eq!(name, "admin");
            assert_eq!(via, "api");
        }
        other => panic!("unexpected {:?}", other),
    }
    assert!(matches!(&users[1], Response::Reply(ActiveUser::Dead(id)) if id == "*1"));

    let (cancel_tag, _) = table.register(CallKind::OneShot, 99).unwrap();
    assert_eq!(cancel_tag, 99);
    assert_eq!(
        cancel_command(99, 42),
        encode_sentence(&words(&["/cancel", ".tag=99", "=tag=42"]))
    );
    table.dispatch(&words(&["!trap", ".tag=42", "=category=2", "=message=interrupted"]));
    table.dispatch(&words(&["!done", ".tag=42"]));
    assert!(!table.contains_tag(42));
    match table.next_stream_item(id) {
        StreamPoll::Item(Ok(Response::Trap { category, message })) => {
            assert_eq!(category, Some(TrapCategory::CommandExecutionInterrupted));
            assert_eq!(message, "interrupted");
        }
        _ => panic!("expected the trap item"),
    }
    assert!(matches!(table.next_stream_item(id), StreamPoll::End));
}

#[test]
fn fatal_broadcast() {
    let mut table = TagTable::new();
    let (_, id3) = table.register(CallKind::OneShot, 3).unwrap();
    let (_, id4) = table.register(CallKind::ArrayList, 4).unwrap();
    let action = table.dispatch(&words(&["!fatal", "connection terminated by administrator"]));
    assert_eq!(action, Action::Fatal);
    assert!(!table.contains_tag(3));
    assert!(!table.contains_tag(4));
    let item = match table.take_finished(id3) {
        Some(Sink::OneShot(c)) => c.take_result().unwrap(),
        _ => panic!("no finished one-shot call"),
    };
    match one_shot_outcome::<Attributes>(item) {
        Err(Error::Fatal(m)) => assert_eq!(m, "connection terminated by administrator"),
        _ => panic!("expected a fatal error"),
    }
    let items = match table.take_finished(id4) {
        Some(Sink::ArrayList(c)) => c.take_result().unwrap(),
        _ => panic!("no finished array call"),
    };
    match array_outcome::<Attributes>(items) {
        Err(Error::Fatal(m)) => assert_eq!(m, "connection terminated by administrator"),
        _ => panic!("expected a fatal error"),
    }
}

#[test]
fn second_done_for_same_tag_is_discarded() {
    let mut table = TagTable::new();
    let (_, id) = table.register(CallKind::OneShot, 8).unwrap();
    assert_eq!(table.dispatch(&words(&["!done", ".tag=8"])), Action::Completed(id));
    assert_eq!(table.dispatch(&words(&["!done", ".tag=8"])), Action::Discarded);
}

#[test]
fn replies_go_only_to_their_tag() {
    let mut table = TagTable::new();
    let (_, a) = table.register(CallKind::Streaming, 100).unwrap();
    let (_, b) = table.register(CallKind::Streaming, 200).unwrap();
    assert_eq!(table.dispatch(&words(&["!re", ".tag=100", "=n=1"])), Action::Delivered(a));
    assert_eq!(table.dispatch(&words(&["!re", ".tag=100", "=n=2"])), Action::Delivered(a));
    assert!(matches!(table.next_stream_item(b), StreamPoll::Pending));
    for expected in [b"1".to_vec(), b"2".to_vec()] {
        match table.next_stream_item(a) {
            StreamPoll::Item(Ok(Response::Reply(attrs))) => {
                assert_eq!(attrs.get(b"n").unwrap(), &expected)
            }
            _ => panic!("expected a reply"),
        }
    }
}

#[test]
fn unknown_tag_and_bad_frames_are_discarded() {
    let mut table = TagTable::new();
    table.register(CallKind::OneShot, 1).unwrap();
    assert_eq!(table.dispatch(&words(&["!re", ".tag=2", "=a=b"])), Action::Discarded);
    assert_eq!(table.dispatch(&words(&["!re", "=a=b"])), Action::Discarded);
    assert_eq!(table.dispatch(&words(&["!bogus", ".tag=1"])), Action::Discarded);
    assert_eq!(table.dispatch(&words(&[])), Action::Discarded);
    assert!(table.contains_tag(1));
}

#[test]
fn tags_are_distinct_and_in_range() {
    let mut table = TagTable::new();
    let mut tags = Vec::new();
    for _ in 0..5 {
        tags.push(table.register(CallKind::OneShot, 65534).unwrap().0);
    }
    assert_eq!(tags, vec![65534, 1, 2, 3, 4]);
    assert_eq!(table.next_tag(0), Some(5));
}

#[test]
fn fatal_overrides_a_reply_already_received() {
    let mut table = TagTable::new();
    let (_, id3) = table.register(CallKind::OneShot, 3).unwrap();
    let (_, id4) = table.register(CallKind::Streaming, 4).unwrap();
    table.dispatch(&words(&["!re", ".tag=3", "=name=MainRouter"]));
    table.dispatch(&words(&["!re", ".tag=4", "=n=1"]));
    assert_eq!(
        table.dispatch(&words(&["!fatal", "connection terminated by administrator"])),
        Action::Fatal
    );
    let item = match table.take_finished(id3) {
        Some(Sink::OneShot(c)) => c.take_result().unwrap(),
        _ => panic!("no finished one-shot call"),
    };
    match one_shot_outcome::<Attributes>(item) {
        Err(Error::Fatal(m)) => assert_eq!(m, "connection terminated by administrator"),
        _ => panic!("expected a fatal error"),
    }
    assert!(matches!(table.next_stream_item(id4), StreamPoll::Item(Ok(Response::Reply(_)))));
    match table.next_stream_item(id4) {
        StreamPoll::Item(Ok(Response::Fatal(m))) => {
            assert_eq!(m, "connection terminated by administrator")
        }
        _ => panic!("expected the fatal item"),
    }
    assert!(matches!(table.next_stream_item(id4), StreamPoll::End));
}

#[test]
fn read_failure_poisons_every_call() {
    let mut table = TagTable::new();
    let (_, a) = table.register(CallKind::ArrayList, 20).unwrap();
    table.dispatch(&words(&["!re", ".tag=20", "=name=ether1"]));
    table.fail_all("end of stream".to_string());
    assert!(!table.contains_tag(20));
    let items = match table.take_finished(a) {
        Some(Sink::ArrayList(c)) => c.take_result().unwrap(),
        _ => panic!("no finished array call"),
    };
    match array_outcome::<Attributes>(items) {
        Err(Error::Fatal(m)) => assert_eq!(m, "end of stream"),
        _ => panic!("expected a fatal error"),
    }
}

#[test]
fn trap_after_reply_wins_on_one_shot() {
    let mut table = TagTable::new();
    let (_, id) = table.register(CallKind::OneShot, 12).unwrap();
    table.dispatch(&words(&["!re", ".tag=12", "=name=x"]));
    table.dispatch(&words(&["!trap", ".tag=12", "=message=failure"]));
    table.dispatch(&words(&["!re", ".tag=12", "=name=y"]));
    table.dispatch(&words(&["!done", ".tag=12"]));
    let item = match table.take_finished(id) {
        Some(Sink::OneShot(c)) => c.take_result().unwrap(),
        _ => panic!("no finished one-shot call"),
    };
    assert!(matches!(one_shot_outcome::<Attributes>(item), Err(Error::Remote { .. })));
}
