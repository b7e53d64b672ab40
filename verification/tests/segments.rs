use kvs::sled_engine::{removal_outcome, stored_value};
use kvs::{
    log_file_name, log_path, parse_segment_name, resolve_engine, result_of_response,
    sorted_gen_list, stale_generations, KvError, Response,
};

#[test]
fn file_names_are_decimal_generation_and_suffix() {
    assert_eq!(log_file_name(0), "0.log");
    assert_eq!(log_file_name(1), "1.log");
    assert_eq!(log_file_name(10), "10.log");
    assert_eq!(log_file_name(1234567890), "1234567890.log");
    assert_eq!(log_file_name(u64::MAX), "18446744073709551615.log");
}

#[test]
fn paths_join_directory_and_file_name() {
    assert_eq!(log_path("/var/db", 42), "/var/db/42.log");
    assert_eq!(log_path(".", 1), "./1.log");
}

#[test]
fn names_are_parsed_back() {
    assert_eq!(parse_segment_name("1.log"), Some(1));
    assert_eq!(parse_segment_name("007.log"), Some(7));
    assert_eq!(parse_segment_name("18446744073709551615.log"), Some(u64::MAX));
    assert_eq!(parse_segment_name(&log_file_name(987654321)), Some(987654321));
}

#[test]
fn other_names_are_ignored() {
    assert_eq!(parse_segment_name("18446744073709551616.log"), None);
    assert_eq!(parse_segment_name("99999999999999999999999.log"), None);
    assert_eq!(parse_segment_name(".log"), None);
    assert_eq!(parse_segment_name("log"), None);
    assert_eq!(parse_segment_name(""), None);
    assert_eq!(parse_segment_name("engine"), None);
    assert_eq!(parse_segment_name("1.txt"), None);
    assert_eq!(parse_segment_name("1.LOG"), None);
    assert_eq!(parse_segment_name("a1.log"), None);
    assert_eq!(parse_segment_name("1a.log"), None);
    assert_eq!(parse_segment_name("-1.log"), None);
    assert_eq!(parse_segment_name("1.log.bak"), None);
    assert_eq!(parse_segment_name("١.log"), None);
    assert_eq!(parse_segment_name("1é.log"), None);
}

#[test]
fn generations_come_out_ascending() {
    let names: Vec<String> = ["10.log", "engine", "2.log", "1.log", "x.log", "33.log", "2.log.tmp"]
        .iter()
        .map(|s| s.to_string())
        .collect();
    assert_eq!(sorted_gen_list(&names), vec![1, 2, 10, 33]);
}

#[test]
fn empty_directory_has_no_generations() {
    assert_eq!(sorted_gen_list(&Vec::new()), Vec::<u64>::new());
    assert_eq!(sorted_gen_list(&vec!["engine".to_string()]), Vec::<u64>::new());
}

#[test]
fn equal_generations_are_kept() {
    let names = vec!["5.log".to_string(), "05.log".to_string(), "3.log".to_string()];
    assert_eq!(sorted_gen_list(&names), vec![3, 5, 5]);
}

#[test]
fn stale_generations_are_those_below_the_safe_point() {
    assert_eq!(stale_generations(&vec![1, 5, 2, 7, 4], 4), vec![1, 2]);
    assert_eq!(stale_generations(&vec![1, 2, 3], 0), Vec::<u64>::new());
    assert_eq!(stale_generations(&vec![4, 5], 4), Vec::<u64>::new());
    assert_eq!(stale_generations(&Vec::new(), 9), Vec::<u64>::new());
}

#[test]
fn engine_defaults_to_kvs() {
    assert_eq!(resolve_engine(None, None).unwrap(), "kvs");
}

#[test]
fn engine_follows_request_or_record() {
    assert_eq!(resolve_engine(Some("sled".to_string()), None).unwrap(), "sled");
    assert_eq!(resolve_engine(None, Some("sled".to_string())).unwrap(), "sled");
    assert_eq!(resolve_engine(Some("kvs".to_string()), Some("kvs".to_string())).unwrap(), "kvs");
}

#[test]
fn engine_mismatch_names_both() {
    let r = resolve_engine(Some("kvs".to_string()), Some("sled".to_string()));
    match r {
        Err(KvError::StringError(msg)) => {
            assert_eq!(msg, "Wrong engine! Previously used 'sled', but 'kvs' was requested.")
        }
        _ => panic!("a mismatch is an error"),
    }
}

#[test]
fn unknown_engine_is_refused() {
    match resolve_engine(Some("rocks".to_string()), None) {
        Err(KvError::StringError(msg)) => {
            assert_eq!(msg, "Invalid engine: rocks. Must be 'kvs' or 'sled'.")
        }
        _ => panic!("an unknown engine is an error"),
    }
    match resolve_engine(None, Some("kvs\n".to_string())) {
        Err(KvError::StringError(msg)) => {
            assert_eq!(msg, "Invalid engine: kvs\n. Must be 'kvs' or 'sled'.")
        }
        _ => panic!("an unknown engine is an error"),
    }
}

#[test]
fn errors_render_as_documented() {
    assert_eq!(KvError::KeyNotFound.message(), "Key not found");
    assert_eq!(KvError::UnexpectedCommandType.message(), "Unexpected command type");
    assert_eq!(KvError::LogFileNotFound(17).message(), "Log file not found for generation 17");
    assert_eq!(KvError::StringError("as is".to_string()).message(), "as is");
    let io = std::io::Error::new(std::io::ErrorKind::Other, "disk on fire");
    assert_eq!(KvError::Io(io).message(), "IO error: disk on fire");
    match kvs::decode_command(b"{") {
        Err(e) => assert!(e.message().starts_with("Serde error: ")),
        Ok(_) => panic!("not a record"),
    }
}

#[test]
fn stored_bytes_are_read_as_utf8() {
    assert_eq!(stored_value(None).unwrap(), None);
    assert_eq!(stored_value(Some("grüß".as_bytes().to_vec())).unwrap(), Some("grüß".to_string()));
    let r = stored_value(Some(vec![0xff, 0xfe]));
    assert!(matches!(&r, Err(KvError::Utf8(_))));
    assert!(r.unwrap_err().message().starts_with("UTF-8 error: "));
    assert!(removal_outcome(true).is_ok());
    assert!(matches!(removal_outcome(false), Err(KvError::KeyNotFound)));
}

#[test]
fn responses_mean_values_or_errors() {
    assert_eq!(result_of_response(Response::Success(None)).unwrap(), None);
    let r = result_of_response(Response::Success(Some("v".to_string())));
    assert_eq!(r.unwrap(), Some("v".to_string()));
    let r = result_of_response(Response::Failure("Key not found".to_string()));
    assert!(matches!(r, Err(KvError::StringError(m)) if m == "Key not found"));
}

#[test]
fn a_new_engine_is_empty() {
    let store = kvs::KvStore::new();
    assert_eq!(store.current_gen(), 1);
    assert_eq!(store.safe_point(), 0);
    assert_eq!(store.uncompacted(), 0);
    assert_eq!(store.len(), 0);
    assert_eq!(store.get(&"x".to_string()), None);
}

#[test]
fn sled_errors_render_with_their_prefix() {
    let e = KvError::Sled(sled::Error::Unsupported("no".to_string()));
    assert!(e.message().starts_with("sled error: "));
}
