use kvs::{
    encode_command, encode_response, encode_round_trip, handle_request, log_file_name,
    next_request,
    sorted_gen_list, stale_generations, value_of_record, Command, CommandPos, KvError, KvStore,
    KvsEngine, Request, Response, Segment, COMPACTION_THRESHOLD,
};
use std::sync::{Arc, Mutex};

/// A directory held in memory: the bytes of each segment, by generation.
struct Disk {
    files: Vec<(u64, Vec<u8>)>,
}

impl Disk {
    fn new() -> Disk {
        Disk { files: Vec::new() }
    }

    fn create(&mut self, gen: u64) {
        if !self.files.iter().any(|(g, _)| *g == gen) {
            self.files.push((gen, Vec::new()));
        }
    }

    fn append(&mut self, gen: u64, bytes: &[u8]) -> u64 {
        let file = self.files.iter_mut().find(|(g, _)| *g == gen).expect("segment exists");
        let pos = file.1.len() as u64;
        file.1.extend_from_slice(bytes);
        pos
    }

    fn read(&self, at: CommandPos) -> Vec<u8> {
        let file = self.files.iter().find(|(g, _)| *g == at.gen).expect("segment exists");
        file.1[at.pos as usize..(at.pos + at.len) as usize].to_vec()
    }

    fn unlink(&mut self, gen: u64) {
        self.files.retain(|(g, _)| *g != gen);
    }

    fn total_bytes(&self) -> u64 {
        self.files.iter().map(|(_, b)| b.len() as u64).sum()
    }

    fn names(&self) -> Vec<String> {
        let mut names: Vec<String> = self.files.iter().map(|(g, _)| log_file_name(*g)).collect();
        names.push("engine".to_string());
        names
    }
}

/// The engine core together with the directory it drives.
struct Engine {
    store: KvStore,
    disk: Disk,
    compactions: u32,
}

impl Engine {
    fn open(mut disk: Disk) -> Result<Engine, KvError> {
        let gens = sorted_gen_list(&disk.names());
        let mut segments = Vec::new();
        for gen in gens {
            let bytes = disk.files.iter().find(|(g, _)| *g == gen).unwrap().1.clone();
            segments.push(Segment { gen, bytes });
        }
        let store = KvStore::open(&segments)?;
        disk.create(store.current_gen());
        Ok(Engine { store, disk, compactions: 0 })
    }

    fn set(&mut self, key: &str, value: &str) -> Result<(), KvError> {
        let cmd = Command::Put { key: key.to_string(), value: value.to_string() };
        let text = encode_round_trip(&cmd)?;
        let pos = self.disk.append(self.store.current_gen(), text.as_bytes());
        if self.store.set(key.to_string(), pos, text.len() as u64) {
            self.compact();
        }
        Ok(())
    }

    fn get(&self, key: &str) -> Result<Option<String>, KvError> {
        match self.store.get(&key.to_string()) {
            None => Ok(None),
            Some(at) => value_of_record(&self.disk.read(at)),
        }
    }

    fn remove(&mut self, key: &str) -> Result<(), KvError> {
        let key = key.to_string();
        let text = self.store.prepare_remove(&key)?;
        self.disk.append(self.store.current_gen(), text.as_bytes());
        self.store.remove(&key, text.len() as u64);
        Ok(())
    }

    fn compact(&mut self) {
        let plan = self.store.plan_compaction().expect("a plan exists");
        self.disk.create(plan.active_gen);
        self.disk.create(plan.compaction_gen);
        for at in &plan.sources {
            let bytes = self.disk.read(*at);
            self.disk.append(plan.compaction_gen, &bytes);
        }
        assert!(self.store.commit_compaction());
        let gens: Vec<u64> = self.disk.files.iter().map(|(g, _)| *g).collect();
        for gen in stale_generations(&gens, self.store.safe_point()) {
            self.disk.unlink(gen);
        }
        self.compactions += 1;
    }
}

#[derive(Clone)]
struct Shared(Arc<Mutex<Engine>>);

impl KvsEngine for Shared {
    fn set(&self, key: String, value: String) -> Result<(), KvError> {
        self.0.lock().unwrap().set(&key, &value)
    }

    fn get(&self, key: String) -> Result<Option<String>, KvError> {
        self.0.lock().unwrap().get(&key)
    }

    fn remove(&self, key: String) -> Result<(), KvError> {
        self.0.lock().unwrap().remove(&key)
    }
}

#[test]
fn set_get_remove_on_an_empty_directory() {
    let mut engine = Engine::open(Disk::new()).unwrap();
    assert_eq!(engine.store.current_gen(), 1);
    assert_eq!(engine.get("x").unwrap(), None);
    engine.set("x", "1").unwrap();
    assert_eq!(engine.get("x").unwrap(), Some("1".to_string()));
    engine.remove("x").unwrap();
    assert_eq!(engine.get("x").unwrap(), None);
    assert!(matches!(engine.remove("x"), Err(KvError::KeyNotFound)));
}

#[test]
fn value_survives_reopening() {
    let mut engine = Engine::open(Disk::new()).unwrap();
    engine.set("k", "v1").unwrap();
    let disk = engine.disk;
    let reopened = Engine::open(disk).unwrap();
    assert_eq!(reopened.get("k").unwrap(), Some("v1".to_string()));
    assert_eq!(reopened.store.current_gen(), 2);
    assert_eq!(reopened.store.safe_point(), 0);
}

#[test]
fn latest_set_wins_and_remove_hides() {
    let mut engine = Engine::open(Disk::new()).unwrap();
    engine.set("a", "1").unwrap();
    engine.set("b", "2").unwrap();
    engine.set("a", "3").unwrap();
    assert_eq!(engine.get("a").unwrap(), Some("3".to_string()));
    assert_eq!(engine.get("b").unwrap(), Some("2".to_string()));
    engine.remove("a").unwrap();
    assert_eq!(engine.get("a").unwrap(), None);
    assert_eq!(engine.get("b").unwrap(), Some("2".to_string()));
    engine.set("a", "4").unwrap();
    assert_eq!(engine.get("a").unwrap(), Some("4".to_string()));
}

#[test]
fn reopening_answers_every_lookup_as_before() {
    let mut engine = Engine::open(Disk::new()).unwrap();
    for i in 0..50 {
        engine.set(&format!("key{}", i), &format!("value{}", i)).unwrap();
    }
    for i in 0..50 {
        if i % 3 == 0 {
            engine.remove(&format!("key{}", i)).unwrap();
        } else if i % 3 == 1 {
            engine.set(&format!("key{}", i), &format!("again{}", i)).unwrap();
        }
    }
    let mut before = Vec::new();
    for i in 0..51 {
        before.push(engine.get(&format!("key{}", i)).unwrap());
    }
    let reopened = Engine::open(engine.disk).unwrap();
    for i in 0..51 {
        assert_eq!(reopened.get(&format!("key{}", i)).unwrap(), before[i]);
    }
    assert_eq!(before[0], None);
    assert_eq!(before[1], Some("again1".to_string()));
    assert_eq!(before[2], Some("value2".to_string()));
    assert_eq!(before[50], None);
}

#[test]
fn uncompacted_counts_displaced_records() {
    let mut engine = Engine::open(Disk::new()).unwrap();
    engine.set("a", "1").unwrap();
    assert_eq!(engine.store.uncompacted(), 0);
    let first = "{\"Set\":{\"key\":\"a\",\"value\":\"1\"}}".len() as u64;
    assert_eq!(first, 31);
    engine.set("a", "22").unwrap();
    assert_eq!(engine.store.uncompacted(), 31);
    engine.set("b", "x").unwrap();
    assert_eq!(engine.store.uncompacted(), 31);
    engine.remove("a").unwrap();
    assert_eq!(engine.store.uncompacted(), 31 + 32);
    assert_eq!(engine.store.len(), 1);
}

#[test]
fn replay_counts_remove_records_as_dead() {
    let mut engine = Engine::open(Disk::new()).unwrap();
    engine.set("a", "1").unwrap();
    engine.remove("a").unwrap();
    assert_eq!(engine.store.uncompacted(), 31);
    let remove_len = "{\"Remove\":{\"key\":\"a\"}}".len() as u64;
    let reopened = Engine::open(engine.disk).unwrap();
    assert_eq!(reopened.store.uncompacted(), 31 + remove_len);
    assert_eq!(reopened.store.len(), 0);
}

#[test]
fn overwriting_a_thousand_entries_compacts() {
    let mut engine = Engine::open(Disk::new()).unwrap();
    let filler = "x".repeat(1200);
    for i in 0..1000 {
        engine.set(&format!("key{}", i), &format!("{}{}", filler, i)).unwrap();
    }
    assert_eq!(engine.store.uncompacted(), 0);
    assert_eq!(engine.compactions, 0);
    let mut grew = false;
    for i in 0..1000 {
        let before = engine.store.uncompacted();
        engine.set(&format!("key{}", i), &format!("{}{}", i, filler)).unwrap();
        if engine.store.uncompacted() > before {
            grew = true;
        }
        assert!(engine.store.uncompacted() <= COMPACTION_THRESHOLD);
    }
    assert!(grew);
    assert!(engine.compactions >= 1);
    for i in 0..1000 {
        assert_eq!(
            engine.get(&format!("key{}", i)).unwrap(),
            Some(format!("{}{}", i, filler))
        );
    }
}

#[test]
fn compaction_leaves_two_segments_and_moves_the_safe_point() {
    let mut engine = Engine::open(Disk::new()).unwrap();
    engine.set("a", "1").unwrap();
    engine.set("b", "2").unwrap();
    engine.set("a", "3").unwrap();
    engine.remove("b").unwrap();
    engine.compact();
    assert_eq!(engine.store.uncompacted(), 0);
    assert_eq!(engine.store.safe_point(), 2);
    assert_eq!(engine.store.current_gen(), 3);
    let mut gens: Vec<u64> = engine.disk.files.iter().map(|(g, _)| *g).collect();
    gens.sort();
    assert_eq!(gens, vec![2, 3]);
    let at = engine.store.get(&"a".to_string()).unwrap();
    assert_eq!(at, CommandPos { gen: 2, pos: 0, len: 31 });
    assert_eq!(engine.get("a").unwrap(), Some("3".to_string()));
    assert_eq!(engine.get("b").unwrap(), None);
    engine.set("c", "4").unwrap();
    assert_eq!(engine.store.get(&"c".to_string()).unwrap().gen, 3);
    let reopened = Engine::open(engine.disk).unwrap();
    assert_eq!(reopened.get("a").unwrap(), Some("3".to_string()));
    assert_eq!(reopened.get("c").unwrap(), Some("4".to_string()));
    assert_eq!(reopened.store.current_gen(), 4);
}

#[test]
fn compaction_plan_lists_live_records_in_walk_order() {
    let mut engine = Engine::open(Disk::new()).unwrap();
    engine.set("a", "1").unwrap();
    engine.set("b", "22").unwrap();
    engine.set("a", "333").unwrap();
    let plan = engine.store.plan_compaction().unwrap();
    assert_eq!(plan.compaction_gen, 2);
    assert_eq!(plan.active_gen, 3);
    assert_eq!(
        plan.sources,
        vec![CommandPos { gen: 1, pos: 63, len: 33 }, CommandPos { gen: 1, pos: 31, len: 32 }]
    );
    assert!(engine.store.commit_compaction());
    assert_eq!(
        engine.store.get(&"a".to_string()),
        Some(CommandPos { gen: 2, pos: 0, len: 33 })
    );
    assert_eq!(
        engine.store.get(&"b".to_string()),
        Some(CommandPos { gen: 2, pos: 33, len: 32 })
    );
}

#[test]
fn disk_stays_within_twice_the_live_bytes_and_a_segment() {
    let mut engine = Engine::open(Disk::new()).unwrap();
    let filler = "v".repeat(180);
    for i in 0..10000 {
        engine.set(&format!("key{:05}", i), &format!("{}{:05}", filler, i)).unwrap();
    }
    for i in 0..10000 {
        engine.set(&format!("key{:05}", i), &format!("{:05}{}", i, filler)).unwrap();
    }
    let record = encode_command(&Command::Put {
        key: "key00000".to_string(),
        value: format!("{:05}{}", 0, filler),
    })
    .unwrap()
    .len() as u64;
    let live = 10000 * record;
    assert!(engine.compactions >= 1);
    assert!(engine.disk.total_bytes() <= 2 * live + COMPACTION_THRESHOLD + record);
    assert_eq!(engine.get("key09999").unwrap(), Some(format!("{:05}{}", 9999, filler)));
}

#[test]
fn interleaved_sets_and_gets_see_only_written_values() {
    let mut engine = Engine::open(Disk::new()).unwrap();
    assert_eq!(engine.get("k").unwrap(), None);
    for i in 1..=1000 {
        engine.set("k", &i.to_string()).unwrap();
        let seen: u32 = engine.get("k").unwrap().unwrap().parse().unwrap();
        assert_eq!(seen, i);
    }
}

#[test]
fn index_pointing_at_a_remove_record_is_reported() {
    let mut engine = Engine::open(Disk::new()).unwrap();
    engine.set("a", "1").unwrap();
    engine.remove("a").unwrap();
    let remove_record = CommandPos { gen: 1, pos: 31, len: 22 };
    let r = value_of_record(&engine.disk.read(remove_record));
    assert!(matches!(r, Err(KvError::UnexpectedCommandType)));
}

#[test]
fn open_fails_on_a_segment_that_is_not_records() {
    let segments = vec![Segment { gen: 1, bytes: b"{\"Set\":{\"key\":\"a\"".to_vec() }];
    assert!(matches!(KvStore::open(&segments), Err(KvError::Serde(_))));
    let segments = vec![Segment { gen: 1, bytes: b"{\"Get\":{\"key\":\"a\"}}".to_vec() }];
    assert!(matches!(KvStore::open(&segments), Err(KvError::Serde(_))));
}

#[test]
fn higher_generations_supersede_lower_ones() {
    let segments = vec![
        Segment { gen: 3, bytes: b"{\"Set\":{\"key\":\"a\",\"value\":\"old\"}}".to_vec() },
        Segment {
            gen: 7,
            bytes: b"{\"Set\":{\"key\":\"a\",\"value\":\"new\"}}\n{\"Set\":{\"key\":\"b\",\"value\":\"x\"}}"
                .to_vec(),
        },
    ];
    let store = KvStore::open(&segments).unwrap();
    assert_eq!(store.current_gen(), 8);
    assert_eq!(store.get(&"a".to_string()), Some(CommandPos { gen: 7, pos: 0, len: 33 }));
    assert_eq!(store.get(&"b".to_string()), Some(CommandPos { gen: 7, pos: 33, len: 32 }));
    assert_eq!(store.uncompacted(), 33);
}

#[test]
fn pipelined_requests_are_answered_in_order() {
    let engine = Shared(Arc::new(Mutex::new(Engine::open(Disk::new()).unwrap())));
    let stream = b"{\"Set\":{\"key\":\"a\",\"value\":\"1\"}}{\"Get\":{\"key\":\"a\"}}{\"Remove\":{\"key\":\"a\"}}{\"Get\":{\"key\":\"a\"}}";
    let mut pos = 0;
    let mut out = String::new();
    let mut responses = Vec::new();
    while let Some((request, used)) = next_request(&stream[pos..]).unwrap() {
        pos += used;
        let response = handle_request(&engine, request);
        out.push_str(&encode_response(&response).unwrap());
        responses.push(response);
    }
    assert_eq!(pos, stream.len());
    assert_eq!(out, "{\"Ok\":null}{\"Ok\":\"1\"}{\"Ok\":null}{\"Ok\":null}");
    assert!(matches!(responses[0], Response::Success(None)));
    assert!(matches!(&responses[1], Response::Success(Some(v)) if v == "1"));
    assert!(matches!(responses[2], Response::Success(None)));
    assert!(matches!(responses[3], Response::Success(None)));
}

#[test]
fn engine_errors_become_failure_responses() {
    let engine = Shared(Arc::new(Mutex::new(Engine::open(Disk::new()).unwrap())));
    let response = handle_request(&engine, Request::Remove { key: "missing".to_string() });
    assert!(matches!(&response, Response::Failure(m) if m == "Key not found"));
    assert_eq!(encode_response(&response).unwrap(), "{\"Err\":\"Key not found\"}");
}

#[test]
fn plan_asks_for_a_handle_of_every_source() {
    let mut engine = Engine::open(Disk::new()).unwrap();
    engine.set("a", "1").unwrap();
    engine.compact();
    engine.set("b", "2").unwrap();
    let plan = engine.store.plan_compaction().unwrap();
    assert!(plan.check_handles(&vec![3, 2]).is_ok());
    assert!(matches!(plan.check_handles(&vec![3]), Err(KvError::LogFileNotFound(2))));
    assert!(matches!(plan.check_handles(&vec![2]), Err(KvError::LogFileNotFound(3))));
    assert!(matches!(plan.check_handles(&Vec::new()), Err(KvError::LogFileNotFound(2))));
}

#[test]
fn generations_can_run_out() {
    let segments = vec![Segment { gen: u64::MAX - 2, bytes: Vec::new() }];
    let mut store = KvStore::open(&segments).unwrap();
    assert_eq!(store.current_gen(), u64::MAX - 1);
    assert!(store.plan_compaction().is_none());
    assert!(!store.commit_compaction());
    assert_eq!(store.current_gen(), u64::MAX - 1);
    let segments = vec![Segment { gen: u64::MAX - 3, bytes: Vec::new() }];
    let mut store = KvStore::open(&segments).unwrap();
    assert!(store.plan_compaction().is_some());
    assert!(store.commit_compaction());
    assert_eq!(store.current_gen(), u64::MAX);
    assert_eq!(store.safe_point(), u64::MAX - 1);
}

#[test]
fn two_sets_of_one_key_leave_the_later_value() {
    let first = Shared(Arc::new(Mutex::new(Engine::open(Disk::new()).unwrap())));
    let second = first.clone();
    first.set("k".to_string(), "v1".to_string()).unwrap();
    second.set("k".to_string(), "v2".to_string()).unwrap();
    assert_eq!(first.get("k".to_string()).unwrap(), Some("v2".to_string()));
    second.set("k".to_string(), "v2".to_string()).unwrap();
    first.set("k".to_string(), "v1".to_string()).unwrap();
    assert_eq!(second.get("k".to_string()).unwrap(), Some("v1".to_string()));
}

#[test]
fn a_failed_remove_is_answered_and_the_connection_goes_on() {
    let engine = Shared(Arc::new(Mutex::new(Engine::open(Disk::new()).unwrap())));
    let stream = b"{\"Remove\":{\"key\":\"a\"}}{\"Get\":{\"key\":\"a\"}}";
    let mut pos = 0;
    let mut out = String::new();
    while let Some((request, used)) = next_request(&stream[pos..]).unwrap() {
        pos += used;
        out.push_str(&encode_response(&handle_request(&engine, request)).unwrap());
    }
    assert_eq!(out, "{\"Err\":\"Key not found\"}{\"Ok\":null}");
}

/// An engine that only writes down what it is asked.
#[derive(Clone)]
struct Recorder(Arc<Mutex<Vec<String>>>);

impl KvsEngine for Recorder {
    fn set(&self, key: String, value: String) -> Result<(), KvError> {
        self.0.lock().unwrap().push(format!("set {} {}", key, value));
        Ok(())
    }

    fn get(&self, key: String) -> Result<Option<String>, KvError> {
        self.0.lock().unwrap().push(format!("get {}", key));
        Ok(Some(format!("value of {}", key)))
    }

    fn remove(&self, key: String) -> Result<(), KvError> {
        self.0.lock().unwrap().push(format!("remove {}", key));
        Err(KvError::KeyNotFound)
    }
}

#[test]
fn each_request_reaches_its_method_once_with_its_own_strings() {
    let calls = Arc::new(Mutex::new(Vec::new()));
    let engine = Recorder(calls.clone());
    let r = handle_request(&engine, Request::Put { key: "k".to_string(), value: "v".to_string() });
    assert!(matches!(r, Response::Success(None)));
    let r = handle_request(&engine, Request::Get { key: "g".to_string() });
    assert!(matches!(&r, Response::Success(Some(v)) if v == "value of g"));
    let r = handle_request(&engine, Request::Remove { key: "r".to_string() });
    assert!(matches!(&r, Response::Failure(m) if m == "Key not found"));
    assert_eq!(*calls.lock().unwrap(), vec!["set k v", "get g", "remove r"]);
}

#[test]
fn removing_a_key_that_was_just_set_succeeds() {
    let mut store = KvStore::new();
    assert!(!store.set("x".to_string(), 0, 31));
    let text = store.prepare_remove(&"x".to_string()).unwrap();
    assert_eq!(text, "{\"Remove\":{\"key\":\"x\"}}");
    store.remove(&"x".to_string(), text.len() as u64);
    assert!(matches!(store.prepare_remove(&"x".to_string()), Err(KvError::KeyNotFound)));
    assert_eq!(store.uncompacted(), 31);
}
