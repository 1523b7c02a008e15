use bbb_chatlog::record::extract_record;
use bbb_chatlog::store::{Meeting, MeetingLog, Message};
use bbb_chatlog::record::Record;
use bbb_chatlog::render::render_report;
use bbb_chatlog::textnum::{dec_i64, dec_u64};
use bbb_chatlog::value::Value;

fn obj(entries: Vec<(&str, Value)>) -> Value {
    Value::Obj(entries.into_iter().map(|(k, v)| (k.to_string(), v)).collect())
}

fn num(n: i64) -> Value {
    Value::Num { int_val: Some(n), text: n.to_string() }
}

fn full_event(meeting: Value, chat: Value, name: Value, message: Value) -> Value {
    obj(vec![
        ("envelope", obj(vec![
            ("timestamp", num(1700000000000)),
            ("routing", obj(vec![("meetingId", meeting)])),
        ])),
        ("core", obj(vec![
            ("body", obj(vec![
                ("chatId", chat),
                ("msg", obj(vec![
                    ("sender", obj(vec![("name", name)])),
                    ("message", message),
                ])),
            ])),
        ])),
    ])
}

#[test]
fn extracts_every_field_of_a_full_event() {
    let v = full_event(
        Value::Str("m1".to_string()),
        Value::Str("c1".to_string()),
        Value::Str("Alice".to_string()),
        Value::Str("hi".to_string()),
    );
    let rec = extract_record(&v).unwrap();
    assert_eq!(rec.time, 1700000000000);
    assert_eq!(rec.meeting_id, "m1");
    assert_eq!(rec.chat_id, "c1");
    assert_eq!(rec.sender, "Alice");
    assert_eq!(rec.message, "hi");
}

#[test]
fn missing_timestamp_is_the_only_fatal_field() {
    let v = obj(vec![("envelope", obj(vec![("routing", obj(vec![]))]))]);
    assert!(extract_record(&v).is_none());
}

#[test]
fn non_integer_timestamp_is_fatal() {
    let v = obj(vec![
        ("envelope", obj(vec![(
            "timestamp",
            Value::Str("1700000000000".to_string()),
        )])),
    ]);
    assert!(extract_record(&v).is_none());
}

#[test]
fn missing_sender_coerces_to_empty_author() {
    let v = obj(vec![
        ("envelope", obj(vec![("timestamp", num(5))])),
        ("core", obj(vec![("body", obj(vec![
            ("chatId", Value::Str("c".to_string())),
            ("msg", obj(vec![("message", Value::Str("hello".to_string()))])),
        ]))])),
    ]);
    let rec = extract_record(&v).unwrap();
    assert_eq!(rec.sender, "");
    assert_eq!(rec.message, "hello");
}

#[test]
fn numbers_and_booleans_stringify_in_optional_fields() {
    let v = full_event(
        num(42),
        Value::Bool(true),
        Value::Bool(false),
        Value::Num { int_val: None, text: "2.5".to_string() },
    );
    let rec = extract_record(&v).unwrap();
    assert_eq!(rec.meeting_id, "42");
    assert_eq!(rec.chat_id, "true");
    assert_eq!(rec.sender, "false");
    assert_eq!(rec.message, "2.5");
}

#[test]
fn structured_optional_fields_coerce_to_empty() {
    let v = full_event(
        Value::Arr(vec![Value::Null]),
        Value::Null,
        Value::Obj(vec![]),
        Value::Str("x".to_string()),
    );
    let rec = extract_record(&v).unwrap();
    assert_eq!(rec.meeting_id, "");
    assert_eq!(rec.chat_id, "");
    assert_eq!(rec.sender, "");
}

#[test]
fn store_groups_by_meeting_then_chat() {
    let mut log = MeetingLog::new();
    let rec = |meeting: &str, chat: &str, text: &str| Record {
        time: 1700000000000,
        meeting_id: meeting.to_string(),
        chat_id: chat.to_string(),
        sender: "A".to_string(),
        message: text.to_string(),
    };
    assert!(log.insert(rec("m1", "c1", "one")));
    assert!(!log.insert(rec("m1", "c2", "two")));
    assert!(log.insert(rec("m2", "c1", "three")));
    assert!(!log.insert(rec("m2", "c1", "three")));
    let out = render_report(&log);
    assert!(out.starts_with("2\n"));
    assert_eq!(out.matches(": three").count(), 1);
    let m1 = out.split(" - m1").nth(1).unwrap().split(" - ").next().unwrap();
    assert!(m1.contains("c1"));
    assert!(m1.contains("c2"));
    assert!(m1.contains(": one"));
    assert!(m1.contains(": two"));
    assert!(!m1.contains(": three"));
}

#[test]
fn clock_and_date_formats_match_the_calendar() {
    let mut log = MeetingLog::new();
    log.insert(Record {
        time: 0,
        meeting_id: "m".to_string(),
        chat_id: "c".to_string(),
        sender: "A".to_string(),
        message: "epoch".to_string(),
    });
    let out = render_report(&log);
    assert!(out.contains("01.01.1970 00:00 - m\n"));
    assert!(out.contains("      00:00:..............A: epoch\n"));
}

#[test]
fn meetings_are_equal_exactly_by_id() {
    let a = Meeting { meeting_id: "m1".to_string(), time: 0, chats: Vec::new() };
    let b = Meeting { meeting_id: "m1".to_string(), time: 99, chats: Vec::new() };
    let c = Meeting { meeting_id: "m2".to_string(), time: 0, chats: Vec::new() };
    assert!(a == b);
    assert!(a != c);
}

#[test]
fn messages_are_equal_structurally() {
    let a = Message { author: "A".to_string(), message: "x".to_string(), time: 1 };
    let b = Message { author: "A".to_string(), message: "x".to_string(), time: 1 };
    let c = Message { author: "A".to_string(), message: "x".to_string(), time: 2 };
    assert!(a == b);
    assert!(a != c);
}

#[test]
fn decimal_rendering_is_exact() {
    assert_eq!(dec_u64(0), "0");
    assert_eq!(dec_u64(90210), "90210");
    assert_eq!(dec_i64(-1), "-1");
    assert_eq!(dec_i64(i64::MIN), "-9223372036854775808");
    assert_eq!(dec_i64(i64::MAX), "9223372036854775807");
}
