use resumelog::posfmt::{fmt_position, parse_position};
use resumelog::store::{format_record, parse_record, ResumeDb};

fn bytes(s: &str) -> Vec<u8> {
    s.as_bytes().to_vec()
}

#[test]
fn position_formatting_is_three_decimals() {
    assert_eq!(fmt_position(83250), bytes("83.250"));
    assert_eq!(fmt_position(0), bytes("0.000"));
    assert_eq!(fmt_position(12000), bytes("12.000"));
    assert_eq!(fmt_position(5), bytes("0.005"));
    assert_eq!(fmt_position(1999), bytes("1.999"));
    assert_eq!(fmt_position(u64::MAX), bytes("18446744073709551.615"));
}

#[test]
fn position_parsing_reads_seconds_and_millis() {
    assert_eq!(parse_position(&bytes("83.250")), Some(83250));
    assert_eq!(parse_position(&bytes("83.25")), Some(83250));
    assert_eq!(parse_position(&bytes("12")), Some(12000));
    assert_eq!(parse_position(&bytes("12.0")), Some(12000));
    assert_eq!(parse_position(&bytes("0.0049")), Some(4));
    assert_eq!(parse_position(&bytes("18446744073709551.615")), Some(u64::MAX));
}

#[test]
fn position_parsing_rejects_malformed_text() {
    assert_eq!(parse_position(&bytes("")), None);
    assert_eq!(parse_position(&bytes("abc")), None);
    assert_eq!(parse_position(&bytes("-5")), None);
    assert_eq!(parse_position(&bytes("1.2.3")), None);
    assert_eq!(parse_position(&bytes("3.")), None);
    assert_eq!(parse_position(&bytes(".5")), None);
    assert_eq!(parse_position(&bytes("1e3")), None);
    assert_eq!(parse_position(&bytes("99999999999999999999")), None);
    assert_eq!(parse_position(&bytes("18446744073709551615")), None);
}

#[test]
fn store_insert_get_remove() {
    let mut db = ResumeDb::new();
    assert_eq!(db.len(), 0);
    db.insert(bytes("/m/a.mp3"), 1500);
    db.insert(bytes("/m/b.mp3"), 2000);
    assert_eq!(db.len(), 2);
    assert_eq!(db.get(&bytes("/m/a.mp3")), Some(1500));
    assert_eq!(db.get(&bytes("/m/b.mp3")), Some(2000));
    assert_eq!(db.get(&bytes("/m/c.mp3")), None);
    db.insert(bytes("/m/a.mp3"), 9000);
    assert_eq!(db.len(), 2);
    assert_eq!(db.get(&bytes("/m/a.mp3")), Some(9000));
    db.remove(&bytes("/m/a.mp3"));
    assert_eq!(db.get(&bytes("/m/a.mp3")), None);
    assert_eq!(db.len(), 1);
    db.remove(&bytes("/m/a.mp3"));
    assert_eq!(db.len(), 1);
}

#[test]
fn store_serializes_one_record_per_line() {
    let mut db = ResumeDb::new();
    db.insert(bytes("/m/a.mp3"), 1500);
    db.insert(bytes("/m/b.mp3"), 83250);
    assert_eq!(db.serialize(), bytes("/m/a.mp3\t1.500\n/m/b.mp3\t83.250\n"));
}

#[test]
fn store_parses_records_and_skips_malformed_lines() {
    let data = bytes("/m/a.mp3\t1.500\nno tab here\n/m/b.mp3\tnonsense\n\n/m/c.mp3\t2.25\n/m/a.mp3\t7.000");
    let db = ResumeDb::parse(&data);
    assert_eq!(db.len(), 2);
    // the later record for the same key wins
    assert_eq!(db.get(&bytes("/m/a.mp3")), Some(7000));
    assert_eq!(db.get(&bytes("/m/c.mp3")), Some(2250));
    assert_eq!(db.get(&bytes("/m/b.mp3")), None);
}

#[test]
fn store_parse_of_empty_input_is_empty() {
    let db = ResumeDb::parse(&Vec::new());
    assert_eq!(db.len(), 0);
}

#[test]
fn store_save_then_load_round_trips() {
    let mut db = ResumeDb::new();
    db.insert(bytes("/m/a.mp3"), 0);
    db.insert(bytes("/m/b with space.mp3"), 83250);
    db.insert(bytes("/m/c.mp3"), u64::MAX);
    let reloaded = ResumeDb::parse(&db.serialize());
    assert_eq!(reloaded.len(), 3);
    assert_eq!(reloaded.get(&bytes("/m/a.mp3")), Some(0));
    assert_eq!(reloaded.get(&bytes("/m/b with space.mp3")), Some(83250));
    assert_eq!(reloaded.get(&bytes("/m/c.mp3")), Some(u64::MAX));
}

#[test]
fn store_retains_only_listed_keys() {
    let mut db = ResumeDb::new();
    db.insert(bytes("/m/kept.mp3"), 1000);
    db.insert(bytes("/m/gone.mp3"), 2000);
    db.insert(bytes("/m/also-kept.mp3"), 3000);
    let keep = vec![bytes("/m/kept.mp3"), bytes("/m/also-kept.mp3"), bytes("/m/never-there.mp3")];
    db.retain_keys(&keep);
    assert_eq!(db.len(), 2);
    assert_eq!(db.get(&bytes("/m/kept.mp3")), Some(1000));
    assert_eq!(db.get(&bytes("/m/also-kept.mp3")), Some(3000));
    assert_eq!(db.get(&bytes("/m/gone.mp3")), None);
    assert_eq!(db.get(&bytes("/m/never-there.mp3")), None);
}

#[test]
fn store_lists_its_keys_in_order() {
    let mut db = ResumeDb::new();
    db.insert(bytes("/m/a.mp3"), 1);
    db.insert(bytes("/m/b.mp3"), 2);
    assert_eq!(db.keys(), vec![bytes("/m/a.mp3"), bytes("/m/b.mp3")]);
}

#[test]
fn record_format_and_parse_agree() {
    let rec = format_record(&bytes("/m/a.mp3"), 12000);
    assert_eq!(rec, bytes("/m/a.mp3\t12.000\n"));
    let line = bytes("/m/a.mp3\t12.000");
    let parsed = parse_record(&line).unwrap();
    assert_eq!(parsed.0, bytes("/m/a.mp3"));
    assert_eq!(parsed.1, 12000);
    assert_eq!(parse_record(&bytes("no separator")), None);
}
