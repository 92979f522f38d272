use anonbattle::anonymizer::{find_leak, truncate_timestamp, AnonymizeError, Anonymizer};
use anonbattle::battle_log::{redact_battle_log, replace_anchored, PlayerNames};
use anonbattle::identifier::{normalize_chars, to_id};
use anonbattle::input_log::{redact_input_log, rename_field};
use anonbattle::registry::PlayerTracker;
use anonbattle::text::{contains_chars, decimal_chars, replace_chars};
use serde_json::Value;

fn chars(s: &str) -> Vec<char> {
    s.chars().collect()
}

fn text(v: &[char]) -> String {
    v.iter().collect()
}

fn strings(v: &[&str]) -> Vec<String> {
    v.iter().map(|s| s.to_string()).collect()
}

fn record(p1: &str, p2: &str, winner: &str, input_log: &[&str], log: &[&str]) -> String {
    let mut m = serde_json::Map::new();
    m.insert("p1".to_string(), Value::String(p1.to_string()));
    m.insert("p2".to_string(), Value::String(p2.to_string()));
    m.insert("winner".to_string(), Value::String(winner.to_string()));
    m.insert("p1rating".to_string(), Value::from(1500));
    m.insert("p2rating".to_string(), Value::from(1400));
    m.insert("roomid".to_string(), Value::String("battle-gen8ou-1".to_string()));
    m.insert(
        "timestamp".to_string(),
        Value::String("Sat Nov 21 2020 17:05:04 GMT-0500".to_string()),
    );
    m.insert(
        "inputLog".to_string(),
        Value::Array(input_log.iter().map(|s| Value::String(s.to_string())).collect()),
    );
    m.insert(
        "log".to_string(),
        Value::Array(log.iter().map(|s| Value::String(s.to_string())).collect()),
    );
    Value::Object(m).to_string()
}

fn parsed(s: &str) -> Value {
    serde_json::from_str(s).unwrap()
}

fn string_list(v: &Value) -> Vec<String> {
    v.as_array().unwrap().iter().map(|e| e.as_str().unwrap().to_string()).collect()
}

fn sample() -> String {
    record(
        "Annika",
        "Zarel",
        "Annika",
        &[
            ">start {\"formatid\":\"gen8ou\"}",
            ">player p1 {\"name\":\"Annika\",\"avatar\":\"1\"}",
            ">player p2 {\"name\":\"Zarel\",\"avatar\":\"2\"}",
            ">chat hello there",
            ">p1 move 1",
        ],
        &[
            "|j|Annika",
            "|player|p1|Annika|1",
            "|player|p2|Zarel|2",
            "|c|Annika|good luck",
            "|c:|1606000000|Zarel|hi",
            "|inactive|Annika has 270 seconds left.",
            "|switch|p1a: Annika|Pikachu|100/100",
            "|move|p2a: zarel|Tackle|p1a: Annika",
            "|win|Annika",
        ],
    )
}

#[test]
fn example_end_to_end() {
    let mut a = Anonymizer::new();
    let (out, n) = a.anonymize(&sample()).unwrap();
    assert_eq!(n, 1);
    let v = parsed(&out);
    assert_eq!(v["p1"], "1");
    assert_eq!(v["p2"], "2");
    assert_eq!(v["winner"], "1");
    let log = string_list(&v["log"]);
    assert!(log.contains(&"|player|p1|1|1".to_string()));
    assert!(!out.contains("Annika"));
    assert!(!out.contains("Zarel"));
    assert!(!a.last_leak());
}

#[test]
fn battle_log_rewritten_and_chat_dropped() {
    let mut a = Anonymizer::new();
    let (out, _) = a.anonymize(&sample()).unwrap();
    let log = string_list(&parsed(&out)["log"]);
    assert_eq!(
        log,
        strings(&[
            "|j|1",
            "|player|p1|1|1",
            "|player|p2|2|2",
            "|switch|p1a: 1|Pikachu|100/100",
            "|move|p2a: 2|Tackle|p1a: 1",
            "|win|1",
        ])
    );
}

#[test]
fn input_log_rewritten_and_chat_dropped() {
    let mut a = Anonymizer::new();
    let (out, _) = a.anonymize(&sample()).unwrap();
    let il = string_list(&parsed(&out)["inputLog"]);
    assert_eq!(
        il,
        strings(&[
            ">start {\"formatid\":\"gen8ou\"}",
            ">player p1 {\"name\":\"1\",\"avatar\":\"1\"}",
            ">player p2 {\"name\":\"2\",\"avatar\":\"2\"}",
            ">p1 move 1",
        ])
    );
}

#[test]
fn ratings_and_room_nulled() {
    let mut a = Anonymizer::new();
    let (out, _) = a.anonymize(&sample()).unwrap();
    let v = parsed(&out);
    assert!(v["p1rating"].is_null());
    assert!(v["p2rating"].is_null());
    assert!(v["roomid"].is_null());
}

#[test]
fn timestamp_truncated_in_record() {
    let mut a = Anonymizer::new();
    let (out, _) = a.anonymize(&sample()).unwrap();
    assert_eq!(parsed(&out)["timestamp"], "Sat Nov 21 2020 17:XX");
}

#[test]
fn timestamp_truncation() {
    assert_eq!(truncate_timestamp("Sat Nov 21 2020 17:05:04 GMT-0500"), "Sat Nov 21 2020 17:XX");
    assert_eq!(truncate_timestamp("no colon"), "no colon:XX");
    assert_eq!(truncate_timestamp(""), ":XX");
}

#[test]
fn battle_numbers_count_up_from_one() {
    let mut a = Anonymizer::new();
    assert_eq!(a.battle_count(), 0);
    for expected in 1..=3u32 {
        let (_, n) = a.anonymize(&sample()).unwrap();
        assert_eq!(n, expected);
    }
    assert_eq!(a.anonymize("not json"), Err(AnonymizeError::ParseError));
    let (_, n) = a.anonymize(&sample()).unwrap();
    assert_eq!(n, 4);
}

#[test]
fn pseudonyms_shared_across_records() {
    let mut a = Anonymizer::new();
    a.anonymize(&record("Annika", "Zarel", "Zarel", &[], &[])).unwrap();
    let (out, _) = a.anonymize(&record("Mia", "Annika", "Mia", &[], &[])).unwrap();
    let v = parsed(&out);
    assert_eq!(v["p1"], "3");
    assert_eq!(v["p2"], "1");
    assert_eq!(v["winner"], "3");
    assert_eq!(a.known_players(), 3);
}

#[test]
fn winner_not_a_player_gets_own_pseudonym() {
    let mut a = Anonymizer::new();
    let (out, _) = a.anonymize(&record("Annika", "Zarel", "", &[], &[])).unwrap();
    assert_eq!(parsed(&out)["winner"], "3");
}

#[test]
fn same_records_same_output() {
    let inputs = [
        sample(),
        record("Mia", "Annika", "Mia", &[], &["|player|p1|Mia|"]),
        record("Zarel", "Mia", "Mia", &[], &["|move|p1a: Zarel|Tackle|p2a: mia"]),
    ];
    let mut a = Anonymizer::new();
    let mut b = Anonymizer::new();
    for raw in inputs.iter() {
        assert_eq!(a.anonymize(raw), b.anonymize(raw));
    }
}

#[test]
fn parse_error_on_bad_text() {
    let mut a = Anonymizer::new();
    assert_eq!(a.anonymize("{\"p1\": "), Err(AnonymizeError::ParseError));
    assert_eq!(a.anonymize("[1, 2]"), Err(AnonymizeError::ParseError));
    assert_eq!(a.known_players(), 0);
}

#[test]
fn schema_error_on_missing_or_mistyped_field() {
    let mut a = Anonymizer::new();
    assert_eq!(a.anonymize("{\"p1\": \"a\"}"), Err(AnonymizeError::SchemaError));
    let bad = sample().replace("\"p2\":\"Zarel\"", "\"p2\":7");
    assert_eq!(a.anonymize(&bad), Err(AnonymizeError::SchemaError));
    let bad_log = record("A", "B", "A", &[], &[]).replace("\"log\":[]", "\"log\":[1]");
    assert_eq!(a.anonymize(&bad_log), Err(AnonymizeError::SchemaError));
    assert_eq!(a.known_players(), 0);
    assert_eq!(a.battle_count(), 0);
}

fn leaking() -> String {
    record("Annika", "Zarel", "Annika", &[], &["|-activate|p2a: Zarel|Annika's item"])
}

#[test]
fn leak_is_fatal_when_strict() {
    let mut a = Anonymizer::with_safety(true);
    assert_eq!(a.anonymize(&leaking()), Err(AnonymizeError::LeakDetected));
    assert_eq!(a.battle_count(), 0);
}

#[test]
fn leak_is_reported_when_not_strict() {
    let mut a = Anonymizer::new();
    let (out, n) = a.anonymize(&leaking()).unwrap();
    assert_eq!(n, 1);
    assert!(out.contains("Annika"));
    assert!(a.last_leak());
    assert_eq!(a.last_leak_room(), &Some("battle-gen8ou-1".to_string()));
    a.anonymize(&sample()).unwrap();
    assert!(!a.last_leak());
}

#[test]
fn strict_mode_passes_clean_records() {
    let mut a = Anonymizer::with_safety(true);
    let (out, n) = a.anonymize(&sample()).unwrap();
    assert_eq!(n, 1);
    assert!(!out.contains("Annika") && !out.contains("annika"));
    assert!(!out.contains("Zarel") && !out.contains("zarel"));
}

#[test]
fn find_leak_checks_names_and_identifiers() {
    assert!(find_leak("xx Annika", "Annika", "Zarel"));
    assert!(find_leak("xx zarel", "Annika", "Zarel"));
    assert!(find_leak("xx annika", "Annika", "Zarel"));
    assert!(!find_leak("xx 1 2", "Annika", "Zarel"));
}

#[test]
fn normalize_examples() {
    assert_eq!(to_id("Annika"), "annika");
    assert_eq!(to_id("Zarel 2.0!"), "zarel20");
    assert_eq!(to_id("Ünï-cödé"), "ncd");
    assert_eq!(to_id(""), "");
}

#[test]
fn normalize_idempotent_examples() {
    for s in ["Annika", "A B-C_d!", "  ", "x9Y8"] {
        let once = to_id(s);
        assert_eq!(to_id(&once), once);
    }
    let v = normalize_chars(&chars("Hello, World"));
    assert_eq!(text(&v), "helloworld");
}

#[test]
fn registry_assigns_sequential_pseudonyms() {
    let mut t = PlayerTracker::new();
    assert_eq!(t.anonymize("Annika".to_string()), "1");
    assert_eq!(t.anonymize("Zarel".to_string()), "2");
    assert_eq!(t.anonymize("Annika".to_string()), "1");
    assert_eq!(t.anonymize("annika".to_string()), "3");
    assert_eq!(t.len(), 3);
}

#[test]
fn registry_counts_past_nine() {
    let mut t = PlayerTracker::new();
    for k in 1..=12u32 {
        assert_eq!(t.anonymize(format!("p{}", k)), k.to_string());
    }
}

#[test]
fn decimal_writing() {
    assert_eq!(text(&decimal_chars(0)), "0");
    assert_eq!(text(&decimal_chars(7)), "7");
    assert_eq!(text(&decimal_chars(1024)), "1024");
}

#[test]
fn literal_replacement() {
    let r = replace_chars(&chars("a-b-a"), &chars("a"), &chars("xy"));
    assert_eq!(text(&r), "xy-b-xy");
    let r = replace_chars(&chars("aaa"), &chars("aa"), &chars("b"));
    assert_eq!(text(&r), "ba");
    let r = replace_chars(&chars("ab"), &chars(""), &chars("-"));
    assert_eq!(text(&r), "-a-b-");
    assert!(contains_chars(&chars("hello"), &chars("ll")));
    assert!(!contains_chars(&chars("hello"), &chars("lo!")));
}

#[test]
fn overlapping_names_follow_replacement_order() {
    let names = PlayerNames {
        p1: chars("Ann"),
        p2: chars("Annika"),
        p1_id: chars("ann"),
        p2_id: chars("annika"),
        p1_anon: chars("1"),
        p2_anon: chars("2"),
    };
    let out = redact_battle_log(&strings(&["|j|Annika", "|j|annika"]), &names);
    assert_eq!(out, strings(&["|j|1ika", "|j|1ika"]));
}

#[test]
fn anchored_replacement_only_after_marker() {
    let r = replace_anchored(
        &chars("|move|p1a: Annika|Annika Strike|p1: annika"),
        '1',
        &chars("Annika"),
        &chars("annika"),
        &chars("1"),
    );
    assert_eq!(text(&r), "|move|p1a: 1|Annika Strike|p1: 1");
    let r = replace_anchored(&chars("|p1c: Annika"), '1', &chars("Annika"), &chars("annika"), &chars("1"));
    assert_eq!(text(&r), "|p1c: 1");
    let r = replace_anchored(&chars("|p1-: Annika"), '1', &chars("Annika"), &chars("annika"), &chars("1"));
    assert_eq!(text(&r), "|p1-: Annika");
}

#[test]
fn name_field_rewrite() {
    let r = rename_field(&chars(">player p1 {\"name\":\"Annika\",\"avatar\":\"1\"}"), &chars("1"));
    assert_eq!(text(&r), ">player p1 {\"name\":\"1\",\"avatar\":\"1\"}");
    let r = rename_field(&chars("{\"name\":\"A\",\"avatar\":\"x\",\"rating\":3}"), &chars("9"));
    assert_eq!(text(&r), "{\"name\":\"9\",\"avatar\":\"x\",\"rating\":3}");
    let r = rename_field(&chars("{\"name\":\"A\"}"), &chars("9"));
    assert_eq!(text(&r), "{\"name\":\"A\"}");
}

#[test]
fn input_log_redaction() {
    let out = redact_input_log(
        &strings(&[">chat hi", ">player p2 {\"name\":\"Z\",\"x\":1}", ">chatter"]),
        &chars("1"),
        &chars("2"),
    );
    assert_eq!(out, strings(&[">player p2 {\"name\":\"2\",\"x\":1}", ">chatter"]));
}
