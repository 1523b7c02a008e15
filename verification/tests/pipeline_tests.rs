use bbb_chatlog::pipeline::run;

const EVENT: &str = "{\"envelope\":{\"timestamp\":1700000000000,\"routing\":{\"meetingId\":\"m1\"}},\"core\":{\"body\":{\"chatId\":\"c1\",\"msg\":{\"sender\":{\"name\":\"Alice\"},\"message\":\"hi\"}}}}";

fn event_with(meeting: &str, chat: &str, name: &str, message: &str) -> String {
    format!(
        "{{\"envelope\":{{\"timestamp\":1700000000000,\"routing\":{{\"meetingId\":\"{}\"}}}},\"core\":{{\"body\":{{\"chatId\":\"{}\",\"msg\":{{\"sender\":{{\"name\":\"{}\"}},\"message\":\"{}\"}}}}}}}}",
        meeting, chat, name, message
    )
}

#[test]
fn end_to_end_two_identical_lines() {
    let lines = vec![EVENT.to_string(), EVENT.to_string()];
    let out = run(&lines);
    let hash = "#".repeat(80);
    let under = "_".repeat(80);
    let expected = format!(
        "inserting: m1\n1\n\n\n\n{}\n\n14.11.2023 22:13 - m1\n\n{}\nc1\n      22:13:..........Alice: hi\n\n",
        hash, under
    );
    assert_eq!(out, expected);
}

#[test]
fn count_line_reads_one_for_a_single_meeting() {
    let lines = vec![EVENT.to_string(), EVENT.to_string()];
    let out = run(&lines);
    assert!(out.contains("inserting: m1\n1\n"));
    assert_eq!(out.matches(": hi").count(), 1);
}

#[test]
fn adjacent_duplicate_collapses_to_one_message() {
    let lines = vec![EVENT.to_string(), EVENT.to_string()];
    let out = run(&lines);
    assert_eq!(out.matches("22:13:..........Alice: hi").count(), 1);
}

#[test]
fn separated_duplicate_is_kept() {
    let other = event_with("m1", "c1", "Bob", "bye");
    let lines = vec![EVENT.to_string(), other, EVENT.to_string()];
    let out = run(&lines);
    assert_eq!(out.matches(": hi").count(), 2);
    assert_eq!(out.matches(": bye").count(), 1);
}

#[test]
fn messages_stay_within_their_meeting_and_chat() {
    let a = event_with("m1", "c1", "Alice", "alpha");
    let b = event_with("m2", "c1", "Bob", "beta");
    let c = event_with("m1", "c2", "Carol", "gamma");
    let lines = vec![a, b, c];
    let out = run(&lines);
    // two meetings, three chats in all
    assert!(out.contains("inserting: m1"));
    assert!(out.contains("inserting: m2"));
    assert!(out.contains("\n2\n"));
    let m1_block = out.split(" - m1").nth(1).unwrap().split(" - ").next().unwrap();
    assert!(m1_block.contains(": alpha"));
    assert!(m1_block.contains(": gamma"));
    assert!(!m1_block.contains(": beta"));
    let m2_block = out.split(" - m2").nth(1).unwrap();
    assert!(m2_block.contains(": beta"));
    assert!(!m2_block.contains(": alpha"));
}

#[test]
fn line_without_brace_passes_through_verbatim() {
    let lines = vec![
        "plain log text, nothing embedded".to_string(),
        EVENT.to_string(),
    ];
    let out = run(&lines);
    assert!(out.starts_with("plain log text, nothing embedded\ninserting: m1\n"));
}

#[test]
fn run_over_nothing_reports_zero_meetings() {
    let lines: Vec<String> = Vec::new();
    let out = run(&lines);
    assert_eq!(out, "0\n");
}

#[test]
fn decode_failure_reports_error_and_payload_and_survives() {
    let bad = "prefix {this is not a payload".to_string();
    let lines = vec![bad, EVENT.to_string()];
    let out = run(&lines);
    let expected_err = match json::parse("{this is not a payload") {
        Err(e) => e.to_string(),
        Ok(_) => panic!("the payload should not parse"),
    };
    assert!(out.starts_with(&format!("{}\n{}\n", expected_err, "{this is not a payload")));
    // the stream went on: the good line still produced its meeting
    assert!(out.contains("inserting: m1"));
    assert!(out.contains("\n1\n"));
}

#[test]
fn missing_timestamp_skips_the_line_and_survives() {
    let no_ts = "{\"envelope\":{\"routing\":{\"meetingId\":\"m9\"}},\"core\":{\"body\":{\"chatId\":\"c\",\"msg\":{\"sender\":{\"name\":\"N\"},\"message\":\"x\"}}}}";
    let lines = vec![no_ts.to_string(), EVENT.to_string()];
    let out = run(&lines);
    assert!(out.starts_with("skipped: no numeric envelope.timestamp in payload\n"));
    assert!(!out.contains("inserting: m9"));
    assert!(!out.contains(" - m9"));
    assert!(out.contains("\n1\n"));
}

#[test]
fn same_input_gives_byte_identical_output() {
    let lines = vec![
        "noise".to_string(),
        EVENT.to_string(),
        event_with("m2", "cX", "Bob", "beta"),
        EVENT.to_string(),
    ];
    let first = run(&lines);
    let second = run(&lines);
    assert_eq!(first, second);
}

#[test]
fn missing_sender_renders_an_empty_padded_author() {
    let no_sender = "{\"envelope\":{\"timestamp\":1700000000000,\"routing\":{\"meetingId\":\"m1\"}},\"core\":{\"body\":{\"chatId\":\"c1\",\"msg\":{\"message\":\"hello\"}}}}";
    let lines = vec![no_sender.to_string()];
    let out = run(&lines);
    assert!(out.contains("      22:13:...............: hello\n"));
}

#[test]
fn empty_meeting_id_is_a_legal_key() {
    let no_routing = "{\"envelope\":{\"timestamp\":1700000000000},\"core\":{\"body\":{\"chatId\":\"c1\",\"msg\":{\"sender\":{\"name\":\"A\"},\"message\":\"m\"}}}}";
    let lines = vec![no_routing.to_string()];
    let out = run(&lines);
    assert!(out.starts_with("inserting: \n1\n"));
    assert!(out.contains("14.11.2023 22:13 - \n"));
}

#[test]
fn numeric_ids_and_extra_fields_coerce_through_decoding() {
    let line = "{\"envelope\":{\"timestamp\":1700000000000,\"routing\":{\"meetingId\":42},\"extra\":[1,true,null]},\"core\":{\"body\":{\"chatId\":7.5,\"msg\":{\"sender\":{\"name\":true},\"message\":\"ok\"}}}}";
    let out = run(&vec![line.to_string()]);
    assert!(out.contains("inserting: 42\n"));
    assert!(out.contains(" - 42\n"));
    assert!(out.contains("\n7.5\n"));
    assert!(out.contains("...........true: ok\n"));
}

#[test]
fn smallest_i64_timestamp_does_not_crash_and_renders_raw() {
    let line = "x {\"envelope\":{\"timestamp\":-9223372036854775808,\"routing\":{\"meetingId\":\"m\"}},\"core\":{\"body\":{\"chatId\":\"c\",\"msg\":{\"sender\":{\"name\":\"A\"},\"message\":\"old\"}}}}";
    let out = run(&vec![line.to_string()]);
    assert!(out.contains("inserting: m\n"));
    assert!(out.contains("-9223372036854775808 - m\n"));
    assert!(out.contains(":..............A: old\n"));
}

#[test]
fn largest_i64_timestamp_renders_raw() {
    let line = "{\"envelope\":{\"timestamp\":9223372036854775807,\"routing\":{\"meetingId\":\"m\"}},\"core\":{\"body\":{\"chatId\":\"c\",\"msg\":{\"sender\":{\"name\":\"A\"},\"message\":\"far\"}}}}";
    let out = run(&vec![line.to_string()]);
    assert!(out.contains("9223372036854775807 - m\n"));
}

#[test]
fn integer_too_wide_for_i64_is_not_a_timestamp() {
    let wide = "{\"envelope\":{\"timestamp\":18446744073709551615},\"core\":{}}";
    let beyond_min = "{\"envelope\":{\"timestamp\":-9223372036854775809},\"core\":{}}";
    let out = run(&vec![wide.to_string(), beyond_min.to_string()]);
    assert!(out.starts_with("skipped: no numeric envelope.timestamp in payload\n"));
    assert_eq!(out.matches("skipped:").count(), 2);
    assert_eq!(out.lines().last().unwrap(), "0");
}

#[test]
fn long_author_is_not_padded() {
    let long_name = event_with("m1", "c1", "a-very-long-author-name", "text");
    let lines = vec![long_name];
    let out = run(&lines);
    assert!(out.contains("      22:13:a-very-long-author-name: text\n"));
}
