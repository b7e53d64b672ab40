use kvs::codec::{command_from_object, frame_remove, frame_set, same_command};
use kvs::common::{frame_failure, frame_get, frame_success, request_from_object};
use kvs::ledger::saturating_sum;
use kvs::{
    decode_command, encode_command, encode_request, encode_response, encode_round_trip, load,
    next_request, value_of_record, Command, CommandPos, Index, KvError, Request, Response,
};

fn put(key: &str, value: &str) -> Command {
    Command::Put { key: key.to_string(), value: value.to_string() }
}

fn assert_round_trip(cmd: Command) {
    let text = encode_command(&cmd).unwrap();
    let back = decode_command(text.as_bytes()).unwrap();
    match (cmd, back) {
        (Command::Put { key: k1, value: v1 }, Command::Put { key: k2, value: v2 }) => {
            assert_eq!(k1, k2);
            assert_eq!(v1, v2);
        }
        (Command::Remove { key: k1 }, Command::Remove { key: k2 }) => assert_eq!(k1, k2),
        _ => panic!("the variant changed"),
    }
}

#[test]
fn set_record_has_the_documented_text() {
    assert_eq!(encode_command(&put("a", "b")).unwrap(), "{\"Set\":{\"key\":\"a\",\"value\":\"b\"}}");
}

#[test]
fn remove_record_has_the_documented_text() {
    let cmd = Command::Remove { key: "a".to_string() };
    assert_eq!(encode_command(&cmd).unwrap(), "{\"Remove\":{\"key\":\"a\"}}");
}

#[test]
fn strings_are_escaped_as_json() {
    assert_eq!(
        encode_command(&put("q\"uote", "line\nbreak")).unwrap(),
        "{\"Set\":{\"key\":\"q\\\"uote\",\"value\":\"line\\nbreak\"}}"
    );
}

#[test]
fn frames_wrap_the_quoted_strings() {
    assert_eq!(frame_set("\"k\"", "\"v\""), "{\"Set\":{\"key\":\"k\",\"value\":\"v\"}}");
    assert_eq!(frame_remove("\"k\""), "{\"Remove\":{\"key\":\"k\"}}");
    assert_eq!(frame_get("\"k\""), "{\"Get\":{\"key\":\"k\"}}");
    assert_eq!(frame_success(None), "{\"Ok\":null}");
    assert_eq!(frame_success(Some("\"v\"")), "{\"Ok\":\"v\"}");
    assert_eq!(frame_failure("\"m\""), "{\"Err\":\"m\"}");
}

#[test]
fn commands_round_trip() {
    assert_round_trip(put("key", "value"));
    assert_round_trip(put("", ""));
    assert_round_trip(put("with \"quotes\" and \\ backslash", "tab\there\nnewline"));
    assert_round_trip(put("ünïcödé ✓", "日本語 \u{1F600}"));
    assert_round_trip(put("{\"Set\":{}}", "}}{{"));
    assert_round_trip(Command::Remove { key: "gone".to_string() });
    assert_round_trip(Command::Remove { key: "\u{0}\u{1f}".to_string() });
}

#[test]
fn decode_accepts_only_the_two_shapes() {
    assert!(matches!(decode_command(b"{\"Get\":{\"key\":\"a\"}}"), Err(KvError::Serde(_))));
    assert!(matches!(decode_command(b"{\"Set\":{\"key\":\"a\"}}"), Err(KvError::Serde(_))));
    assert!(matches!(
        decode_command(b"{\"Remove\":{\"key\":\"a\",\"value\":\"b\"}}"),
        Err(KvError::Serde(_))
    ));
    assert!(matches!(decode_command(b"{}"), Err(KvError::Serde(_))));
    assert!(matches!(decode_command(b""), Err(KvError::Serde(_))));
    assert!(matches!(decode_command(b"   "), Err(KvError::Serde(_))));
    assert!(matches!(decode_command(b"null"), Err(KvError::Serde(_))));
    assert!(matches!(decode_command(b"{\"Set\":{\"key\":1,\"value\":\"b\"}}"), Err(KvError::Serde(_))));
    assert!(matches!(decode_command(b"{\"Set\":{\"key\":\"a\",\"value\":\"b\"}"), Err(KvError::Serde(_))));
}

#[test]
fn decode_wants_exactly_one_record() {
    let one = b"{\"Remove\":{\"key\":\"a\"}}";
    assert!(matches!(decode_command(one), Ok(Command::Remove { .. })));
    let padded = b" {\"Remove\":{\"key\":\"a\"}} \n";
    assert!(matches!(decode_command(padded), Ok(Command::Remove { .. })));
    let two = b"{\"Remove\":{\"key\":\"a\"}}{\"Remove\":{\"key\":\"b\"}}";
    assert!(matches!(decode_command(two), Err(KvError::Serde(_))));
    let trailing = b"{\"Remove\":{\"key\":\"a\"}}x";
    assert!(matches!(decode_command(trailing), Err(KvError::Serde(_))));
}

#[test]
fn value_of_record_yields_the_value_of_a_set() {
    let r = value_of_record(b"{\"Set\":{\"key\":\"a\",\"value\":\"the value\"}}");
    assert_eq!(r.unwrap(), Some("the value".to_string()));
    let r = value_of_record(b"{\"Remove\":{\"key\":\"a\"}}");
    assert!(matches!(r, Err(KvError::UnexpectedCommandType)));
    let r = value_of_record(b"[1,2]");
    assert!(matches!(r, Err(KvError::Serde(_))));
}

#[test]
fn parsed_objects_are_read_by_tag_and_fields() {
    let field = |n: &str, v: &str| (n.to_string(), v.to_string());
    let object = vec![("Set".to_string(), vec![field("key", "k"), field("value", "v")])];
    assert!(matches!(command_from_object(&object), Some(Command::Put { key, value }) if key == "k" && value == "v"));
    assert!(matches!(request_from_object(&object), Some(Request::Put { key, value }) if key == "k" && value == "v"));
    let object = vec![("Remove".to_string(), vec![field("key", "k")])];
    assert!(matches!(command_from_object(&object), Some(Command::Remove { key }) if key == "k"));
    assert!(matches!(request_from_object(&object), Some(Request::Remove { key }) if key == "k"));
    let object = vec![("Get".to_string(), vec![field("key", "k")])];
    assert!(command_from_object(&object).is_none());
    assert!(matches!(request_from_object(&object), Some(Request::Get { key }) if key == "k"));
    let object = vec![("Set".to_string(), vec![field("value", "v"), field("key", "k")])];
    assert!(command_from_object(&object).is_none());
    let object = vec![
        ("Remove".to_string(), vec![field("key", "k")]),
        ("Set".to_string(), vec![field("key", "k"), field("value", "v")]),
    ];
    assert!(command_from_object(&object).is_none());
    assert!(request_from_object(&object).is_none());
    assert!(command_from_object(&Vec::new()).is_none());
}

#[test]
fn load_records_spans_and_dead_bytes() {
    let bytes = b"{\"Set\":{\"key\":\"a\",\"value\":\"1\"}}{\"Set\":{\"key\":\"b\",\"value\":\"2\"}}\n{\"Set\":{\"key\":\"a\",\"value\":\"3\"}}{\"Remove\":{\"key\":\"b\"}} ";
    let mut index = Index::new();
    let dead = load(5, bytes, &mut index).unwrap();
    assert_eq!(index.len(), 1);
    assert_eq!(index.get(&"a".to_string()), Some(CommandPos { gen: 5, pos: 62, len: 32 }));
    assert_eq!(index.get(&"b".to_string()), None);
    assert_eq!(dead, 31 + 31 + 22);
}

#[test]
fn load_stops_at_a_broken_record() {
    let bytes = b"{\"Set\":{\"key\":\"a\",\"value\":\"1\"}}{\"Set\":";
    let mut index = Index::new();
    assert!(matches!(load(1, bytes, &mut index), Err(KvError::Serde(_))));
    let mut index = Index::new();
    assert!(matches!(load(1, b"{\"Unknown\":{\"key\":\"a\"}}", &mut index), Err(KvError::Serde(_))));
    let mut index = Index::new();
    assert_eq!(load(1, b"", &mut index).unwrap(), 0);
    assert_eq!(index.len(), 0);
}

#[test]
fn replayed_remove_of_an_absent_key_counts_only_itself() {
    let mut index = Index::new();
    let dead = load(1, b"{\"Remove\":{\"key\":\"a\"}}", &mut index).unwrap();
    assert_eq!(dead, 22);
    assert_eq!(index.len(), 0);
}

#[test]
fn index_insert_get_remove() {
    let mut index = Index::new();
    let p1 = CommandPos { gen: 1, pos: 0, len: 10 };
    let p2 = CommandPos { gen: 1, pos: 10, len: 20 };
    assert_eq!(index.insert("a".to_string(), p1), None);
    assert_eq!(index.insert("a".to_string(), p2), Some(p1));
    assert!(index.contains_key(&"a".to_string()));
    assert!(!index.contains_key(&"b".to_string()));
    assert_eq!(index.get(&"a".to_string()), Some(p2));
    assert_eq!(index.packed_size(), Some(20));
    assert_eq!(index.remove(&"b".to_string()), None);
    assert_eq!(index.remove(&"a".to_string()), Some(p2));
    assert_eq!(index.get(&"a".to_string()), None);
    assert_eq!(index.len(), 0);
}

#[test]
fn index_repack_places_records_back_to_back() {
    let mut index = Index::new();
    index.insert("a".to_string(), CommandPos { gen: 1, pos: 100, len: 10 });
    index.insert("b".to_string(), CommandPos { gen: 2, pos: 7, len: 20 });
    index.insert("c".to_string(), CommandPos { gen: 3, pos: 0, len: 5 });
    index.repack(9);
    assert_eq!(
        index.positions(),
        vec![
            CommandPos { gen: 9, pos: 0, len: 10 },
            CommandPos { gen: 9, pos: 10, len: 20 },
            CommandPos { gen: 9, pos: 30, len: 5 },
        ]
    );
    assert_eq!(index.get(&"b".to_string()), Some(CommandPos { gen: 9, pos: 10, len: 20 }));
}

#[test]
fn packed_size_reports_what_does_not_fit() {
    let mut index = Index::new();
    index.insert("a".to_string(), CommandPos { gen: 1, pos: 0, len: u64::MAX });
    assert_eq!(index.packed_size(), Some(u64::MAX));
    index.insert("b".to_string(), CommandPos { gen: 1, pos: 0, len: 1 });
    assert_eq!(index.packed_size(), None);
}

#[test]
fn saturating_sum_stops_at_the_top() {
    assert_eq!(saturating_sum(2, 3), 5);
    assert_eq!(saturating_sum(u64::MAX, 1), u64::MAX);
    assert_eq!(saturating_sum(u64::MAX - 1, 1), u64::MAX);
    assert_eq!(saturating_sum(0, 0), 0);
}

#[test]
fn requests_have_the_documented_text() {
    let r = Request::Put { key: "a".to_string(), value: "1".to_string() };
    assert_eq!(encode_request(&r).unwrap(), "{\"Set\":{\"key\":\"a\",\"value\":\"1\"}}");
    let r = Request::Get { key: "a".to_string() };
    assert_eq!(encode_request(&r).unwrap(), "{\"Get\":{\"key\":\"a\"}}");
    let r = Request::Remove { key: "a".to_string() };
    assert_eq!(encode_request(&r).unwrap(), "{\"Remove\":{\"key\":\"a\"}}");
}

#[test]
fn responses_have_the_documented_text() {
    assert_eq!(encode_response(&Response::Success(None)).unwrap(), "{\"Ok\":null}");
    let r = Response::Success(Some("value".to_string()));
    assert_eq!(encode_response(&r).unwrap(), "{\"Ok\":\"value\"}");
    let r = Response::Failure("a \"message\"".to_string());
    assert_eq!(encode_response(&r).unwrap(), "{\"Err\":\"a \\\"message\\\"\"}");
}

#[test]
fn requests_round_trip_through_the_stream() {
    let r = Request::Put { key: "k\n".to_string(), value: "v ✓".to_string() };
    let text = encode_request(&r).unwrap();
    let (back, used) = next_request(text.as_bytes()).unwrap().unwrap();
    assert_eq!(used, text.len());
    assert!(matches!(back, Request::Put { key, value } if key == "k\n" && value == "v ✓"));
    assert!(next_request(b"  \n").unwrap().is_none());
    assert!(matches!(next_request(b"{\"Put\":{\"key\":\"a\"}}"), Err(KvError::Serde(_))));
    assert!(matches!(next_request(b"{\"Get\":"), Err(KvError::Serde(_))));
}

#[test]
fn every_record_written_reads_back() {
    for (key, value) in [
        ("", ""),
        ("k", "v"),
        ("with \"quotes\"", "back\\slash"),
        ("new\nline\ttab", "\u{0}\u{1f}\u{7f}"),
        ("ünïcödé", "日本語 \u{1F600}"),
        ("{\"Set\":{}}", "}}{{"),
    ] {
        let text = encode_round_trip(&put(key, value)).unwrap();
        assert_eq!(text, encode_command(&put(key, value)).unwrap());
        assert_eq!(value_of_record(text.as_bytes()).unwrap(), Some(value.to_string()));
        let text = encode_round_trip(&Command::Remove { key: key.to_string() }).unwrap();
        assert!(matches!(decode_command(text.as_bytes()), Ok(Command::Remove { key: k }) if k == key));
    }
}

#[test]
fn commands_are_compared_by_variant_and_strings() {
    assert!(same_command(&put("a", "1"), &put("a", "1")));
    assert!(!same_command(&put("a", "1"), &put("a", "2")));
    assert!(!same_command(&put("a", "1"), &put("b", "1")));
    assert!(!same_command(&put("a", "1"), &Command::Remove { key: "a".to_string() }));
    assert!(same_command(&Command::Remove { key: "a".to_string() }, &Command::Remove { key: "a".to_string() }));
    assert!(!same_command(&Command::Remove { key: "a".to_string() }, &Command::Remove { key: "b".to_string() }));
}
