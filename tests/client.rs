use mikrotik_api::client::{
    array_outcome, attribute_bytes, encode_command, login_outcome, one_shot_outcome, register_call,
    write_attribute, write_digits, write_tag_word,
};
use mikrotik_api::codec::encode_sentence;
use mikrotik_api::error::Error;
use mikrotik_api::fields::Attributes;
use mikrotik_api::model::{fold_responses, Response, SystemResources, TrapCategory};
use mikrotik_api::table::{read_tag, CallKind, TagTable};

#[test]
fn attribute_word_framing_rules() {
    assert_eq!(write_attribute(b"?type", b""), b"?type".to_vec());
    assert_eq!(write_attribute(b"?type", b"ether"), b"?type=ether".to_vec());
    assert_eq!(write_attribute(b".proplist", b"name"), b".proplist=name".to_vec());
    assert_eq!(write_attribute(b"=.proplist", b"name,mtu"), b"=.proplist=name,mtu".to_vec());
    assert_eq!(write_attribute(b"name", b"admin"), b"=name=admin".to_vec());
    assert_eq!(write_attribute(b"password", b""), b"=password=".to_vec());
}

#[test]
fn tag_words_and_digits() {
    assert_eq!(write_digits(0), b"0".to_vec());
    assert_eq!(write_digits(42), b"42".to_vec());
    assert_eq!(write_digits(65535), b"65535".to_vec());
    assert_eq!(write_tag_word(7), b".tag=7".to_vec());
    assert_eq!(read_tag(&write_tag_word(65534)), Some(65534));
    assert_eq!(read_tag(b".tag=70000"), None);
    assert_eq!(read_tag(b".tag="), None);
    assert_eq!(read_tag(b"=tag=1"), None);
}

#[test]
fn command_with_attributes() {
    let attrs = attribute_bytes(&[("?disabled", "false"), (".proplist", "name")]);
    let bytes = encode_command(b"/interface/print", 12, &attrs).unwrap();
    let expected: Vec<Vec<u8>> = vec![
        b"/interface/print".to_vec(),
        b".tag=12".to_vec(),
        b"?disabled=false".to_vec(),
        b".proplist=name".to_vec(),
    ];
    assert_eq!(bytes, encode_sentence(&expected));
}

#[test]
fn random_tags_stay_in_range() {
    let mut table = TagTable::new();
    for _ in 0..50 {
        let (tag, _) = register_call(&mut table, CallKind::Streaming).unwrap();
        assert!((1..=65534).contains(&tag));
    }
}

#[test]
fn withdraw_frees_the_tag() {
    let mut table = TagTable::new();
    let (tag, _) = table.register(CallKind::OneShot, 30).unwrap();
    assert!(table.withdraw(tag).is_some());
    assert!(!table.contains_tag(tag));
    assert!(table.withdraw(tag).is_none());
    assert_eq!(table.next_tag(30), Some(30));
}

#[test]
fn outcomes_of_terminal_items() {
    assert!(login_outcome(Ok(Response::Done)).is_ok());
    assert!(matches!(
        one_shot_outcome::<Attributes>(Ok(Response::Done)),
        Err(Error::NoReply)
    ));
    assert!(matches!(
        one_shot_outcome::<SystemResources>(Ok(Response::Reply(Attributes::from_pairs(Vec::new())))),
        Err(Error::Deserialize(_))
    ));
    match one_shot_outcome::<Attributes>(Ok(Response::Trap {
        category: Some(TrapCategory::GeneralFailure),
        message: "no such command".to_string(),
    })) {
        Err(Error::Remote { category, message }) => {
            assert_eq!(category, Some(TrapCategory::GeneralFailure));
            assert_eq!(message, "no such command");
        }
        _ => panic!("expected a remote error"),
    }
}

#[test]
fn fold_stops_at_done_and_keeps_first_trap() {
    let folded = fold_responses(vec![
        Response::Reply(1),
        Response::Reply(2),
        Response::Done,
        Response::Reply(3),
    ]);
    assert!(matches!(folded, Response::Reply(ref v) if *v == vec![1, 2]));
    let trapped = fold_responses(vec![
        Response::Reply(1),
        Response::Trap { category: None, message: "x".to_string() },
        Response::Fatal("y".to_string()),
    ]);
    assert!(matches!(trapped, Response::Trap { ref message, .. } if message == "x"));
    assert!(matches!(fold_responses::<u8>(Vec::new()), Response::Reply(ref v) if v.is_empty()));
    assert!(matches!(Response::Reply(5u8).into_result(), Ok(5)));
}

#[test]
fn array_error_is_first_undecodable_item() {
    let items = vec![
        Ok(Response::Reply(Attributes::from_pairs(vec![(b".id".to_vec(), b"*1".to_vec())]))),
        Ok(Response::Reply(Attributes::from_pairs(vec![(b"x".to_vec(), b"1".to_vec())]))),
        Err(mikrotik_api::error::DeserializerError::MissingWord),
    ];
    match array_outcome::<mikrotik_api::model::InterfaceChange>(items) {
        Err(Error::Deserialize(mikrotik_api::error::DeserializerError::MissingField(k))) => {
            assert_eq!(k, ".id")
        }
        _ => panic!("expected the second item's error"),
    }
}
