use mikrotik_api::de::{deserialize_sentence, reply_kind_of, word_part, ReplyKind, SentenceDeserializer};
use mikrotik_api::error::DeserializerError;
use mikrotik_api::fields::{parse_bool, parse_text, parse_unsigned, Attributes, FromAttributes};
use mikrotik_api::model::{
    ActiveUser, ActiveUserRaw, Interface, InterfaceChange, InterfaceMTU, Response,
    SystemResources, TrapCategory,
};

fn words(ws: &[&str]) -> Vec<Vec<u8>> {
    ws.iter().map(|w| w.as_bytes().to_vec()).collect()
}

fn attrs(pairs: &[(&str, &str)]) -> Attributes {
    Attributes::from_pairs(
        pairs.iter().map(|(k, v)| (k.as_bytes().to_vec(), v.as_bytes().to_vec())).collect(),
    )
}

#[test]
fn mtu_polymorphism() {
    assert_eq!(InterfaceMTU::from_value(b"auto"), Some(InterfaceMTU::Auto));
    assert_eq!(InterfaceMTU::from_value(b"1420"), Some(InterfaceMTU::Value(1420)));
    assert_eq!(InterfaceMTU::from_value(b"abc"), None);
    assert_eq!(InterfaceMTU::from_value(b"65536"), None);
}

fn interface_pairs(mtu: &str) -> Vec<(&str, &str)> {
    vec![
        (".id", "*1"), ("name", "ether1"), ("type", "ether"), ("mtu", mtu),
        ("actual-mtu", "1500"), ("link-downs", "0"), ("rx-byte", "100"), ("tx-byte", "200"),
        ("rx-packet", "3"), ("tx-packet", "4"), ("tx-queue-drop", "0"), ("fp-rx-byte", "0"),
        ("fp-tx-byte", "0"), ("fp-rx-packet", "0"), ("fp-tx-packet", "0"), ("running", "true"),
        ("disabled", "false"), ("rx-drop", "7"), ("unknown-key", "ignored"),
    ]
}

#[test]
fn interface_mtu_field_decodes_both_forms() {
    let auto = Interface::from_attributes(attrs(&interface_pairs("auto"))).unwrap();
    assert_eq!(auto.mtu, InterfaceMTU::Auto);
    assert_eq!(auto.name, "ether1");
    assert_eq!(auto.rx_drop, Some(7));
    assert_eq!(auto.tx_drop, None);
    assert_eq!(auto.last_link_up, None);
    assert!(auto.running);
    assert!(!auto.slave);
    let fixed = Interface::from_attributes(attrs(&interface_pairs("1420"))).unwrap();
    assert_eq!(fixed.mtu, InterfaceMTU::Value(1420));
}

#[test]
fn interface_bad_mtu_names_the_field() {
    match Interface::from_attributes(attrs(&interface_pairs("abc"))) {
        Err(DeserializerError::InvalidValue { key, value }) => {
            assert_eq!(key, "mtu");
            assert_eq!(value, b"abc".to_vec());
        }
        other => panic!("unexpected {:?}", other.map(|i| i.name)),
    }
}

#[test]
fn system_resources_decode() {
    let a = attrs(&[
        ("uptime", "1w2d"), ("version", "7.1"), ("build-time", "Jan/01/2022"),
        ("factory-software", "6.0"), ("free-memory", "1000"), ("total-memory", "2000"),
        ("cpu", "ARM"), ("cpu-count", "4"), ("cpu-load", "12"), ("free-hdd-space", "300"),
        ("total-hdd-space", "400"), ("architecture-name", "arm64"), ("board-name", "RB5009"),
        ("platform", "MikroTik"),
    ]);
    let r = SystemResources::from_attributes(a).unwrap();
    assert_eq!(r.cpu_count, 4);
    assert_eq!(r.cpu_load, 12);
    assert_eq!(r.total_memory, 2000);
    assert_eq!(r.board_name, "RB5009");
}

#[test]
fn missing_required_field() {
    match SystemResources::from_attributes(attrs(&[("uptime", "1d")])) {
        Err(DeserializerError::MissingField(k)) => assert_eq!(k, "version"),
        other => panic!("unexpected {:?}", other.map(|r| r.uptime)),
    }
}

#[test]
fn integer_out_of_range_is_invalid() {
    let a = attrs(&[
        ("uptime", "1w2d"), ("version", "7.1"), ("build-time", "b"), ("factory-software", "f"),
        ("free-memory", "1"), ("total-memory", "2"), ("cpu", "c"), ("cpu-count", "256"),
    ]);
    match SystemResources::from_attributes(a) {
        Err(DeserializerError::InvalidValue { key, value }) => {
            assert_eq!(key, "cpu-count");
            assert_eq!(value, b"256".to_vec());
        }
        other => panic!("unexpected {:?}", other.map(|r| r.uptime)),
    }
}

#[test]
fn active_user_projection() {
    let dead = ActiveUser::from_attributes(attrs(&[(".id", "*5"), (".dead", "true")])).unwrap();
    assert!(matches!(dead, ActiveUser::Dead(ref id) if id == "*5"));
    match ActiveUser::from_attributes(attrs(&[(".id", "*5"), ("when", "now"), ("name", "bob")])) {
        Err(DeserializerError::MissingField(k)) => assert_eq!(k, "address"),
        other => panic!("unexpected {:?}", other),
    }
    let raw = ActiveUserRaw::from_attributes(attrs(&[(".id", "*6")])).unwrap();
    assert!(!raw.is_dead);
    assert_eq!(raw.radius, None);
}

#[test]
fn interface_change_needs_id() {
    let c = InterfaceChange::from_attributes(attrs(&[(".id", "*9")])).unwrap();
    assert_eq!(c.id, "*9");
    assert!(matches!(
        InterfaceChange::from_attributes(attrs(&[])),
        Err(DeserializerError::MissingField(_))
    ));
}

#[test]
fn scalar_parsers() {
    assert_eq!(parse_unsigned(b"0", 10), Some(0));
    assert_eq!(parse_unsigned(b"007", 10), Some(7));
    assert_eq!(parse_unsigned(b"11", 10), None);
    assert_eq!(parse_unsigned(b"", 10), None);
    assert_eq!(parse_unsigned(b"+5", 10), None);
    assert_eq!(parse_unsigned(b" 5", 10), None);
    assert_eq!(parse_unsigned(b"18446744073709551615", u64::MAX), Some(u64::MAX));
    assert_eq!(parse_unsigned(b"18446744073709551616", u64::MAX), None);
    assert_eq!(parse_bool(b"true"), Some(true));
    assert_eq!(parse_bool(b"false"), Some(false));
    assert_eq!(parse_bool(b"yes"), None);
    assert_eq!(parse_text("žluť".as_bytes()), Some("žluť".to_string()));
    assert_eq!(parse_text(&[0xFF, 0xFE]), None);
}

#[test]
fn attribute_split_on_first_inner_equals() {
    assert_eq!(word_part(b"=key=a=b"), Some((b"key".to_vec(), b"a=b".to_vec())));
    assert_eq!(word_part(b"=key="), Some((b"key".to_vec(), Vec::new())));
    assert_eq!(word_part(b"=novalue"), None);
    assert_eq!(word_part(b"plain"), None);
}

#[test]
fn reply_kinds() {
    assert_eq!(reply_kind_of(b"!done"), Some(ReplyKind::Done));
    assert_eq!(reply_kind_of(b"!re"), Some(ReplyKind::Reply));
    assert_eq!(reply_kind_of(b"!trap"), Some(ReplyKind::Trap));
    assert_eq!(reply_kind_of(b"!fatal"), Some(ReplyKind::Fatal));
    assert_eq!(reply_kind_of(b"!reply"), None);
}

#[test]
fn tag_words_are_skipped_anywhere() {
    let ws = words(&["!re", "=a=1", ".tag=4", "=b=2"]);
    match deserialize_sentence(&ws).unwrap() {
        Response::Reply(a) => {
            assert_eq!(a.len(), 2);
            assert_eq!(a.get(b"b").unwrap(), &b"2".to_vec());
        }
        other => panic!("unexpected {:?}", other),
    }
    let rest = words(&[".tag=1", "=x=y"]);
    let mut de = SentenceDeserializer::new(&rest);
    assert_eq!(de.read_word().unwrap(), &b"=x=y".to_vec());
    assert!(de.read_word().is_none());
    assert!(de.inner().is_empty());
}

#[test]
fn first_value_of_repeated_key_wins() {
    let a = attrs(&[("k", "first"), ("k", "second")]);
    assert_eq!(a.get(b"k").unwrap(), &b"first".to_vec());
}

#[test]
fn sentence_errors() {
    assert!(matches!(deserialize_sentence(&[]), Err(DeserializerError::MissingWord)));
    assert!(matches!(
        deserialize_sentence(&words(&["!what"])),
        Err(DeserializerError::UnknownReplyKind(w)) if w == b"!what".to_vec()
    ));
    assert!(matches!(
        deserialize_sentence(&words(&["!re", ".tag=1", "bad"])),
        Err(DeserializerError::MalformedAttribute(w)) if w == b"bad".to_vec()
    ));
    assert!(matches!(
        deserialize_sentence(&words(&["!trap", "=category=9", "=message=x"])),
        Err(DeserializerError::InvalidValue { .. })
    ));
    assert!(matches!(
        deserialize_sentence(&words(&["!trap", "=category=1"])),
        Err(DeserializerError::MissingField(k)) if k == "message"
    ));
    assert!(matches!(deserialize_sentence(&words(&["!fatal"])), Err(DeserializerError::MissingWord)));
    let custom = DeserializerError::custom("boom".to_string());
    assert!(matches!(custom, DeserializerError::Custom(m) if m == "boom"));
}

#[test]
fn trap_and_fatal_values() {
    match deserialize_sentence(&words(&["!trap", ".tag=2", "=category=7", "=message=ret"])).unwrap() {
        Response::Trap { category, message } => {
            assert_eq!(category, Some(TrapCategory::ReturnValue));
            assert_eq!(message, "ret");
        }
        other => panic!("unexpected {:?}", other),
    }
    match deserialize_sentence(&words(&["!fatal", "bye"])).unwrap() {
        Response::Fatal(m) => assert_eq!(m, "bye"),
        other => panic!("unexpected {:?}", other),
    }
    assert!(matches!(deserialize_sentence(&words(&["!done", ".tag=2"])).unwrap(), Response::Done));
    assert_eq!(TrapCategory::from_code(0), Some(TrapCategory::MissingItemOrCommand));
    assert_eq!(TrapCategory::from_code(8), None);
}

#[test]
fn fatal_message_skips_attribute_and_tag_words() {
    match deserialize_sentence(&words(&["!fatal", "=extra=1", ".tag=3", "going down"])).unwrap() {
        Response::Fatal(m) => assert_eq!(m, "going down"),
        other => panic!("unexpected {:?}", other),
    }
    assert!(matches!(
        deserialize_sentence(&words(&["!fatal", "=only=attrs"])),
        Err(DeserializerError::MissingWord)
    ));
}
