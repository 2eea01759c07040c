use redis_engine::command::{lrange_slice_vec, Command, ExpiryUnit, RequestArg, RequestValue};
use redis_engine::keyspace::{blpop_timed_out, blpop_timeout_response, Action, Keyspace};
use redis_engine::strmap::StrMap;
use redis_engine::value::{RedisValue, StreamEntry};

fn request(words: &[&str]) -> RequestValue {
    RequestValue::Array(words.iter().map(|w| RequestArg::Bulk(w.to_string())).collect())
}

fn run(db: &mut Keyspace, words: &[&str]) -> String {
    let reply = Command::from_value(request(words)).get_return(db);
    assert!(matches!(reply.action, Action::Nothing));
    reply.response
}

fn strings(items: &[&str]) -> Vec<String> {
    items.iter().map(|s| s.to_string()).collect()
}

#[test]
fn ping_and_echo() {
    let mut db = Keyspace::new();
    assert_eq!(run(&mut db, &["PING"]), "+PONG\r\n");
    assert_eq!(run(&mut db, &["ping"]), "+PONG\r\n");
    assert_eq!(run(&mut db, &["ECHO", "hey"]), "$3\r\nhey\r\n");
    assert_eq!(run(&mut db, &["echo", "héllo"]), "$6\r\nhéllo\r\n");
}

#[test]
fn set_then_get_renders_value() {
    let mut db = Keyspace::new();
    assert_eq!(run(&mut db, &["SET", "k", "v"]), "+OK\r\n");
    assert_eq!(run(&mut db, &["GET", "k"]), "$1\r\nv\r\n");
    assert_eq!(run(&mut db, &["SET", "k", "a longer value"]), "+OK\r\n");
    assert_eq!(run(&mut db, &["GET", "k"]), "$14\r\na longer value\r\n");
}

#[test]
fn get_absent_is_null() {
    let mut db = Keyspace::new();
    assert_eq!(run(&mut db, &["GET", "nope"]), "$-1\r\n");
}

#[test]
fn set_overwrites_list() {
    let mut db = Keyspace::new();
    assert_eq!(run(&mut db, &["RPUSH", "k", "a"]), ":1\r\n");
    assert_eq!(run(&mut db, &["SET", "k", "x"]), "+OK\r\n");
    assert_eq!(run(&mut db, &["TYPE", "k"]), "+string\r\n");
}

#[test]
fn lpush_reverses_items() {
    let mut db = Keyspace::new();
    assert_eq!(run(&mut db, &["LPUSH", "k", "a", "b", "c"]), ":3\r\n");
    assert_eq!(
        run(&mut db, &["LRANGE", "k", "0", "-1"]),
        "*3\r\n$1\r\nc\r\n$1\r\nb\r\n$1\r\na\r\n"
    );
    assert_eq!(run(&mut db, &["LPUSH", "k", "d"]), ":4\r\n");
    assert_eq!(run(&mut db, &["LRANGE", "k", "0", "0"]), "*1\r\n$1\r\nd\r\n");
}

#[test]
fn rpush_keeps_order() {
    let mut db = Keyspace::new();
    assert_eq!(run(&mut db, &["RPUSH", "k", "a", "b", "c"]), ":3\r\n");
    assert_eq!(
        run(&mut db, &["LRANGE", "k", "0", "-1"]),
        "*3\r\n$1\r\na\r\n$1\r\nb\r\n$1\r\nc\r\n"
    );
    assert_eq!(run(&mut db, &["RPUSH", "k", "d", "e"]), ":5\r\n");
    assert_eq!(run(&mut db, &["LLEN", "k"]), ":5\r\n");
}

#[test]
fn lrange_slices() {
    let list = strings(&["a", "b", "c", "d", "e"]);
    assert_eq!(lrange_slice_vec(&list, 0, -1), list);
    assert_eq!(lrange_slice_vec(&list, 1, 3), strings(&["b", "c", "d"]));
    assert_eq!(lrange_slice_vec(&list, -2, -1), strings(&["d", "e"]));
    assert_eq!(lrange_slice_vec(&list, -100, 1), strings(&["a", "b"]));
    assert_eq!(lrange_slice_vec(&list, 2, 100), strings(&["c", "d", "e"]));
    assert_eq!(lrange_slice_vec(&list, 1, -1), strings(&["b", "c", "d", "e"]));
}

#[test]
fn lrange_empty_cases() {
    let list = strings(&["a", "b", "c", "d", "e"]);
    assert!(lrange_slice_vec(&list, 3, 2).is_empty());
    assert!(lrange_slice_vec(&list, 5, 10).is_empty());
    assert!(lrange_slice_vec(&list, -1, -2).is_empty());
    assert!(lrange_slice_vec(&list, 4, -3).is_empty());
    assert!(lrange_slice_vec(&list, 0, -6).is_empty());
    assert!(lrange_slice_vec(&Vec::new(), 0, -1).is_empty());
    assert!(lrange_slice_vec(&list, isize::MAX, isize::MIN).is_empty());
    assert_eq!(lrange_slice_vec(&list, isize::MIN, isize::MAX), list);
}

#[test]
fn lrange_on_absent_or_other_kind() {
    let mut db = Keyspace::new();
    assert_eq!(run(&mut db, &["LRANGE", "k", "0", "-1"]), "*0\r\n");
    run(&mut db, &["SET", "k", "x"]);
    assert_eq!(run(&mut db, &["LRANGE", "k", "0", "-1"]), "*0\r\n");
    assert_eq!(run(&mut db, &["LLEN", "k"]), ":0\r\n");
    assert_eq!(run(&mut db, &["LLEN", "missing"]), ":0\r\n");
}

#[test]
fn lpop_without_count_takes_front() {
    let mut db = Keyspace::new();
    run(&mut db, &["RPUSH", "k", "a", "b", "c"]);
    assert_eq!(run(&mut db, &["LPOP", "k"]), "$1\r\na\r\n");
    assert_eq!(run(&mut db, &["LRANGE", "k", "0", "-1"]), "*2\r\n$1\r\nb\r\n$1\r\nc\r\n");
}

#[test]
fn lpop_with_count() {
    let mut db = Keyspace::new();
    run(&mut db, &["RPUSH", "k", "a", "b", "c"]);
    assert_eq!(run(&mut db, &["LPOP", "k", "2"]), "*2\r\n$1\r\na\r\n$1\r\nb\r\n");
    assert_eq!(run(&mut db, &["LLEN", "k"]), ":1\r\n");
    assert_eq!(run(&mut db, &["LPOP", "k", "1"]), "*1\r\n$1\r\nc\r\n");
    assert_eq!(run(&mut db, &["LLEN", "k"]), ":0\r\n");
}

#[test]
fn lpop_count_too_large_changes_nothing() {
    let mut db = Keyspace::new();
    run(&mut db, &["RPUSH", "k", "a", "b"]);
    assert_eq!(run(&mut db, &["LPOP", "k", "3"]), "$-1\r\n");
    assert_eq!(run(&mut db, &["LRANGE", "k", "0", "-1"]), "*2\r\n$1\r\na\r\n$1\r\nb\r\n");
}

#[test]
fn lpop_edge_cases() {
    let mut db = Keyspace::new();
    assert_eq!(run(&mut db, &["LPOP", "k"]), "$-1\r\n");
    run(&mut db, &["RPUSH", "k", "a"]);
    assert_eq!(run(&mut db, &["LPOP", "k", "0"]), "*0\r\n");
    assert_eq!(run(&mut db, &["LPOP", "k", "-2"]), "*0\r\n");
    assert_eq!(run(&mut db, &["LPOP", "k"]), "$1\r\na\r\n");
    assert_eq!(run(&mut db, &["LPOP", "k"]), "$-1\r\n");
    run(&mut db, &["SET", "s", "x"]);
    assert_eq!(run(&mut db, &["LPOP", "s"]), "$-1\r\n");
    assert_eq!(run(&mut db, &["GET", "s"]), "$1\r\nx\r\n");
}

#[test]
fn wrong_type_leaves_value() {
    let mut db = Keyspace::new();
    run(&mut db, &["SET", "k", "x"]);
    assert_eq!(
        run(&mut db, &["LPUSH", "k", "a"]),
        "-WRONGTYPE Operation against a key holding the wrong kind of value\r\n"
    );
    assert_eq!(run(&mut db, &["GET", "k"]), "$1\r\nx\r\n");
    assert_eq!(
        run(&mut db, &["RPUSH", "k", "a"]),
        "-WRONGTYPE Operation against a key holding the wrong kind of value\r\n"
    );
    assert_eq!(
        run(&mut db, &["XADD", "k", "1-1", "a", "b"]),
        "-WRONGTYPE Operation against a key holding the wrong kind of value\r\n"
    );
    assert_eq!(run(&mut db, &["GET", "k"]), "$1\r\nx\r\n");
}

#[test]
fn type_names() {
    let mut db = Keyspace::new();
    run(&mut db, &["SET", "s", "x"]);
    run(&mut db, &["RPUSH", "l", "x"]);
    run(&mut db, &["XADD", "t", "1-1", "a", "b"]);
    assert_eq!(run(&mut db, &["TYPE", "s"]), "+string\r\n");
    assert_eq!(run(&mut db, &["TYPE", "l"]), "+list\r\n");
    assert_eq!(run(&mut db, &["TYPE", "t"]), "+stream\r\n");
    assert_eq!(run(&mut db, &["TYPE", "none"]), "+none\r\n");
    assert_eq!(run(&mut db, &["GET", "t"]), "+stream\r\n");
    assert_eq!(run(&mut db, &["GET", "l"]), "*1\r\n$1\r\nx\r\n");
}

#[test]
fn xadd_scenario() {
    let mut db = Keyspace::new();
    assert_eq!(run(&mut db, &["XADD", "stream1", "1-1", "a", "b"]), "$3\r\n1-1\r\n");
    assert_eq!(
        run(&mut db, &["XADD", "stream1", "1-1", "a", "b"]),
        "-ERR The ID specified in XADD is equal or smaller than the target stream top item\r\n"
    );
    assert_eq!(run(&mut db, &["XADD", "stream1", "2-*", "a", "b"]), "$3\r\n2-0\r\n");
}

#[test]
fn xadd_zero_id_refused() {
    let mut db = Keyspace::new();
    assert_eq!(
        run(&mut db, &["XADD", "s", "0-0", "a", "b"]),
        "-ERR The ID specified in XADD must be greater than 0-0\r\n"
    );
    assert_eq!(run(&mut db, &["TYPE", "s"]), "+none\r\n");
    run(&mut db, &["XADD", "s", "5-5", "a", "b"]);
    assert_eq!(
        run(&mut db, &["XADD", "s", "0-0", "a", "b"]),
        "-ERR The ID specified in XADD must be greater than 0-0\r\n"
    );
}

#[test]
fn xadd_wildcard_sequence() {
    let mut db = Keyspace::new();
    assert_eq!(run(&mut db, &["XADD", "s", "0-*", "a", "b"]), "$3\r\n0-1\r\n");
    assert_eq!(run(&mut db, &["XADD", "s", "0-*", "a", "b"]), "$3\r\n0-2\r\n");
    assert_eq!(run(&mut db, &["XADD", "s", "7-*", "a", "b"]), "$3\r\n7-0\r\n");
    assert_eq!(run(&mut db, &["XADD", "s", "7-*", "a", "b"]), "$3\r\n7-1\r\n");
    assert_eq!(run(&mut db, &["XADD", "s", "7-9", "a", "b"]), "$3\r\n7-9\r\n");
    assert_eq!(run(&mut db, &["XADD", "s", "7-*", "a", "b"]), "$4\r\n7-10\r\n");
    assert_eq!(
        run(&mut db, &["XADD", "s", "6-*", "a", "b"]),
        "-ERR The ID specified in XADD is equal or smaller than the target stream top item\r\n"
    );
}

#[test]
fn xadd_malformed_id() {
    let mut db = Keyspace::new();
    let bad = "-ERR Invalid stream ID specified as stream command argument\r\n";
    assert_eq!(run(&mut db, &["XADD", "s", "12", "a", "b"]), bad);
    assert_eq!(run(&mut db, &["XADD", "s", "x-1", "a", "b"]), bad);
    assert_eq!(run(&mut db, &["XADD", "s", "1-y", "a", "b"]), bad);
    assert_eq!(run(&mut db, &["XADD", "s", "18446744073709551616-1", "a", "b"]), bad);
    assert_eq!(run(&mut db, &["TYPE", "s"]), "+none\r\n");
    assert_eq!(
        run(&mut db, &["XADD", "s", "18446744073709551615-18446744073709551615", "a", "b"]),
        "$41\r\n18446744073709551615-18446744073709551615\r\n"
    );
    assert_eq!(run(&mut db, &["XADD", "s", "18446744073709551615-*", "a", "b"]), bad);
}

#[test]
fn stream_entry_resolution() {
    let fields = StrMap::new();
    let first = StreamEntry::from("5-*".to_string(), fields, None).unwrap();
    assert_eq!(first.id, "5-0");
    assert_eq!(first.milliseconds_time, 5);
    assert_eq!(first.sequence_number, 0);
    let next = StreamEntry::from("5-*".to_string(), StrMap::new(), Some(&first)).unwrap();
    assert_eq!(next.id, "5-1");
    let plus = StreamEntry::from("+3-+4".to_string(), StrMap::new(), None).unwrap();
    assert_eq!(plus.id, "3-4");
    assert!(StreamEntry::from("3--4".to_string(), StrMap::new(), None).is_none());
    assert!(StreamEntry::from("".to_string(), StrMap::new(), None).is_none());
}

#[test]
fn validate_entry_id_verdicts() {
    let at = |ms: u64, seq: u64| StreamEntry {
        id: format!("{}-{}", ms, seq),
        milliseconds_time: ms,
        sequence_number: seq,
        fields: StrMap::new(),
    };
    assert_eq!(StreamEntry::validate_entry_id(&at(0, 0), None), None);
    assert_eq!(StreamEntry::validate_entry_id(&at(0, 0), Some(&at(1, 1))), None);
    assert_eq!(StreamEntry::validate_entry_id(&at(0, 1), None), Some(true));
    assert_eq!(StreamEntry::validate_entry_id(&at(1, 1), Some(&at(1, 1))), Some(false));
    assert_eq!(StreamEntry::validate_entry_id(&at(1, 0), Some(&at(1, 1))), Some(false));
    assert_eq!(StreamEntry::validate_entry_id(&at(0, 9), Some(&at(1, 1))), Some(false));
    assert_eq!(StreamEntry::validate_entry_id(&at(1, 2), Some(&at(1, 1))), Some(true));
    assert_eq!(StreamEntry::validate_entry_id(&at(2, 0), Some(&at(1, 1))), Some(true));
}

#[test]
fn renders_values() {
    assert_eq!(RedisValue::from_string("hi".to_string()).get_response(), "$2\r\nhi\r\n");
    assert_eq!(RedisValue::from_list(Vec::new()).get_response(), "*0\r\n");
    assert_eq!(
        RedisValue::from_list(strings(&["a", "bc"])).get_response(),
        "*2\r\n$1\r\na\r\n$2\r\nbc\r\n"
    );
    assert_eq!(RedisValue::from_stream(Vec::new()).get_response(), "+stream\r\n");
    let mut h = StrMap::new();
    h.insert("f".to_string(), "v".to_string());
    h.insert("g".to_string(), "w".to_string());
    h.insert("f".to_string(), "u".to_string());
    assert_eq!(
        RedisValue::Hash(h).get_response(),
        "*4\r\n$1\r\nf\r\n$1\r\nu\r\n$1\r\ng\r\n$1\r\nw\r\n"
    );
    assert_eq!(RedisValue::Hash(StrMap::new()).get_response(), "*0\r\n");
    assert_eq!(RedisValue::Hash(StrMap::new()).get_type_response(), "+hash\r\n");
    assert_eq!(RedisValue::from_list(Vec::new()).get_type_response(), "+list\r\n");
    assert_eq!(RedisValue::get_null_response(), "$-1\r\n");
}

#[test]
fn malformed_requests_are_unknown() {
    let mut db = Keyspace::new();
    let unknown = "-ERR unknown command\r\n";
    assert_eq!(run(&mut db, &["FLY"]), unknown);
    assert_eq!(run(&mut db, &["PING", "extra"]), unknown);
    assert_eq!(run(&mut db, &["ECHO"]), unknown);
    assert_eq!(run(&mut db, &["SET", "k"]), unknown);
    assert_eq!(run(&mut db, &["LPUSH", "k"]), unknown);
    assert_eq!(run(&mut db, &["LRANGE", "k", "zero", "1"]), unknown);
    assert_eq!(run(&mut db, &["LPOP", "k", "many"]), unknown);
    assert_eq!(run(&mut db, &["XADD", "s", "1-1", "a"]), unknown);
    assert_eq!(run(&mut db, &["SET", "k", "v", "XX", "10"]), unknown);
    assert_eq!(run(&mut db, &["SET", "k", "v", "PX", "ten"]), unknown);
    let other = Command::from_value(RequestValue::Other).get_return(&mut db);
    assert_eq!(other.response, unknown);
    let empty = Command::from_value(RequestValue::Array(Vec::new())).get_return(&mut db);
    assert_eq!(empty.response, unknown);
    let mixed = RequestValue::Array(vec![RequestArg::Bulk("GET".to_string()), RequestArg::Other]);
    assert_eq!(Command::from_value(mixed).get_return(&mut db).response, unknown);
    assert_eq!(run(&mut db, &["GET", "k"]), "$-1\r\n");
}

#[test]
fn parses_typed_arguments() {
    match Command::from_value(request(&["lrange", "k", "+2", "-3"])) {
        Command::LRANGE(k, a, b) => {
            assert_eq!(k, "k");
            assert_eq!(a, 2);
            assert_eq!(b, -3);
        }
        _ => panic!("expected LRANGE"),
    }
    match Command::from_value(request(&["LPOP", "k", "4"])) {
        Command::LPOP(_, c) => assert_eq!(c, Some(4)),
        _ => panic!("expected LPOP"),
    }
    match Command::from_value(request(&["Set", "k", "v", "px", "250"])) {
        Command::SetExpiry(k, v, unit, amount) => {
            assert_eq!(k, "k");
            assert_eq!(v, "v");
            assert_eq!(unit, ExpiryUnit::Milliseconds);
            assert_eq!(amount, 250);
        }
        _ => panic!("expected SET with expiry"),
    }
    match Command::from_value(request(&["SET", "k", "v", "EX", "3"])) {
        Command::SetExpiry(_, _, unit, amount) => {
            assert_eq!(unit, ExpiryUnit::Seconds);
            assert_eq!(amount, 3);
        }
        _ => panic!("expected SET with expiry"),
    }
}

#[test]
fn set_with_expiry_schedules_removal() {
    let mut db = Keyspace::new();
    let reply = Command::from_value(request(&["SET", "k", "v", "PX", "100"])).get_return(&mut db);
    assert_eq!(reply.response, "+OK\r\n");
    match reply.action {
        Action::ExpireAfter(k, unit, amount, stamp) => {
            assert_eq!(k, "k");
            assert_eq!(unit, ExpiryUnit::Milliseconds);
            assert_eq!(amount, 100);
            assert_eq!(run(&mut db, &["GET", "k"]), "$1\r\nv\r\n");
            db.expire(&k, stamp);
        }
        _ => panic!("expected an expiry"),
    }
    assert_eq!(run(&mut db, &["GET", "k"]), "$-1\r\n");
}

#[test]
fn blpop_ready_list() {
    let mut db = Keyspace::new();
    run(&mut db, &["RPUSH", "q", "a", "b"]);
    assert_eq!(run(&mut db, &["BLPOP", "q", "0"]), "*2\r\n$1\r\nq\r\n$1\r\na\r\n");
    assert_eq!(run(&mut db, &["LRANGE", "q", "0", "-1"]), "*1\r\n$1\r\nb\r\n");
}

#[test]
fn blpop_waits_then_polls() {
    let mut db = Keyspace::new();
    let reply = Command::from_value(request(&["BLPOP", "q", "0.2"])).get_return(&mut db);
    let key = match reply.action {
        Action::AwaitPush(k, t) => {
            assert_eq!(t, 200);
            k
        }
        _ => panic!("expected to wait"),
    };
    assert_eq!(db.blpop_poll(&key), None);
    run(&mut db, &["RPUSH", "q", "x"]);
    assert_eq!(db.blpop_poll(&key), Some("*2\r\n$1\r\nq\r\n$1\r\nx\r\n".to_string()));
    assert_eq!(db.blpop_poll(&key), None);
    assert_eq!(blpop_timeout_response(), "*-1\r\n");
}

#[test]
fn names_match_by_upper_case() {
    let mut db = Keyspace::new();
    assert_eq!(run(&mut db, &["p\u{131}ng"]), "+PONG\r\n");
    assert_eq!(run(&mut db, &["lpu\u{17f}h", "k", "a", "b"]), ":2\r\n");
    assert_eq!(run(&mut db, &["LRANGE", "k", "0", "-1"]), "*2\r\n$1\r\nb\r\n$1\r\na\r\n");
    assert_eq!(run(&mut db, &["Echo", "MiXeD"]), "$5\r\nMiXeD\r\n");
    assert_eq!(run(&mut db, &["PINGS"]), "-ERR unknown command\r\n");
}

#[test]
fn from_named_takes_upper_case_name() {
    let words = strings(&["whatever", "k", "a"]);
    match Command::from_named(&"RPUSH".to_string(), &words) {
        Command::RPUSH(k, items) => {
            assert_eq!(k, "k");
            assert_eq!(items, strings(&["a"]));
        }
        _ => panic!("expected RPUSH"),
    }
    assert!(matches!(Command::from_named(&"rpush".to_string(), &words), Command::UNKNOWN));
}

#[test]
fn blpop_timeout_text() {
    let timeout_of = |t: &str| match Command::from_value(request(&["BLPOP", "q", t])) {
        Command::BLPOP(_, ms) => Some(ms),
        Command::UNKNOWN => None,
        _ => panic!("unexpected command"),
    };
    assert_eq!(timeout_of("0"), Some(0));
    assert_eq!(timeout_of("5"), Some(5000));
    assert_eq!(timeout_of("0.2"), Some(200));
    assert_eq!(timeout_of("1.5"), Some(1500));
    assert_eq!(timeout_of("2.0005"), Some(2000));
    assert_eq!(timeout_of("3."), Some(3000));
    assert_eq!(timeout_of("0.123"), Some(123));
    assert_eq!(timeout_of("x"), None);
    assert_eq!(timeout_of(""), None);
    assert_eq!(timeout_of(".5"), Some(500));
    assert_eq!(timeout_of("+.25"), Some(250));
    assert_eq!(timeout_of("."), None);
    assert_eq!(timeout_of("0.0001"), Some(1));
    assert_eq!(timeout_of("1e-9"), Some(1));
    assert_eq!(timeout_of("0e5"), Some(0));
    assert_eq!(timeout_of("0.000"), Some(0));
    assert_eq!(timeout_of("5e-1"), Some(500));
    assert_eq!(timeout_of("2.5E+2"), Some(250000));
    assert_eq!(timeout_of("1e"), None);
    assert_eq!(timeout_of("1e+"), None);
    assert_eq!(timeout_of("e3"), None);
    assert_eq!(timeout_of("inf"), None);
    assert_eq!(timeout_of("1e99999999999999999999999"), Some(u64::MAX));
    assert_eq!(timeout_of("7e-99999999999999999999999"), Some(1));
    assert_eq!(timeout_of("-1"), None);
    assert_eq!(timeout_of("1.2.3"), None);
    assert_eq!(timeout_of("1e3"), Some(1000000));
    assert_eq!(timeout_of("18446744073709551"), Some(18446744073709551000));
    assert_eq!(timeout_of("18446744073709552"), Some(u64::MAX));
}

#[test]
fn blpop_bad_timeout_does_not_wait() {
    let mut db = Keyspace::new();
    assert_eq!(run(&mut db, &["BLPOP", "q", "soon"]), "-ERR unknown command\r\n");
}

#[test]
fn newer_set_outlives_older_expiry() {
    let mut db = Keyspace::new();
    let first = Command::from_value(request(&["SET", "k", "old", "PX", "100"])).get_return(&mut db);
    let (key, stamp) = match first.action {
        Action::ExpireAfter(k, _, _, s) => (k, s),
        _ => panic!("expected an expiry"),
    };
    assert_eq!(run(&mut db, &["SET", "k", "new"]), "+OK\r\n");
    db.expire(&key, stamp);
    assert_eq!(run(&mut db, &["GET", "k"]), "$3\r\nnew\r\n");
    let second = Command::from_value(request(&["SET", "k", "v2", "EX", "1"])).get_return(&mut db);
    match second.action {
        Action::ExpireAfter(k, unit, amount, s) => {
            assert_eq!(unit, ExpiryUnit::Seconds);
            assert_eq!(amount, 1);
            assert_ne!(s, stamp);
            db.expire(&k, s);
        }
        _ => panic!("expected an expiry"),
    }
    assert_eq!(run(&mut db, &["GET", "k"]), "$-1\r\n");
    db.expire(&key, stamp);
    assert_eq!(run(&mut db, &["TYPE", "k"]), "+none\r\n");
}

#[test]
fn blpop_timeout_decision() {
    assert!(!blpop_timed_out(0, 0));
    assert!(!blpop_timed_out(0, u64::MAX));
    assert!(!blpop_timed_out(200, 199));
    assert!(blpop_timed_out(200, 200));
    assert!(blpop_timed_out(1, 5));
}
