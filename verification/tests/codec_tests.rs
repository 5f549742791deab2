use screen_time::{parse_record, parse_u64, serialize_record, u64_to_bytes, LogRecord};

fn record(title: &[u8], timestamp: &[u8], duration_secs: u64) -> LogRecord {
    LogRecord {
        window_title: title.to_vec(),
        end_timestamp: timestamp.to_vec(),
        duration_secs,
    }
}

#[test]
fn plain_record_serializes_to_bare_fields() {
    let rec = record(b"Firefox", b"2024-01-01 10:00:00", 42);
    let line = serialize_record(&rec);
    assert_eq!(line, b"Firefox,2024-01-01 10:00:00,42".to_vec());
}

#[test]
fn plain_record_round_trips() {
    let line = b"Firefox,2024-01-01 10:00:00,42".to_vec();
    let rec = parse_record(&line).expect("line must parse");
    assert_eq!(rec.window_title, b"Firefox".to_vec());
    assert_eq!(rec.end_timestamp, b"2024-01-01 10:00:00".to_vec());
    assert_eq!(rec.duration_secs, 42);
    assert_eq!(serialize_record(&rec), line);
}

#[test]
fn comma_title_is_quoted() {
    let rec = record(b"My, App", b"2024-01-01 10:00:00", 7);
    let line = serialize_record(&rec);
    assert_eq!(line, b"\"My, App\",2024-01-01 10:00:00,7".to_vec());
}

#[test]
fn comma_title_round_trips() {
    let rec = record(b"My, App", b"2024-01-01 10:00:00", 7);
    let line = serialize_record(&rec);
    let back = parse_record(&line).expect("quoted line must parse");
    assert_eq!(back.window_title, b"My, App".to_vec());
    assert_eq!(back.end_timestamp, b"2024-01-01 10:00:00".to_vec());
    assert_eq!(back.duration_secs, 7);
}

#[test]
fn quotes_in_title_are_doubled() {
    let rec = record(b"He said \"hi\"", b"2024-02-02 08:30:00", 3);
    let line = serialize_record(&rec);
    assert_eq!(
        line,
        b"\"He said \"\"hi\"\"\",2024-02-02 08:30:00,3".to_vec()
    );
    let back = parse_record(&line).expect("escaped line must parse");
    assert_eq!(back.window_title, b"He said \"hi\"".to_vec());
}

#[test]
fn newline_in_title_round_trips() {
    let rec = record(b"line one\nline two", b"2024-03-03 23:59:59", 100);
    let line = serialize_record(&rec);
    assert_eq!(line[0], b'"');
    let back = parse_record(&line).expect("newline title must parse");
    assert_eq!(back.window_title, b"line one\nline two".to_vec());
    assert_eq!(back.duration_secs, 100);
}

#[test]
fn empty_title_round_trips() {
    let rec = record(b"", b"2024-01-01 10:00:00", 0);
    let line = serialize_record(&rec);
    assert_eq!(line, b",2024-01-01 10:00:00,0".to_vec());
    let back = parse_record(&line).expect("empty title must parse");
    assert_eq!(back.window_title, b"".to_vec());
    assert_eq!(back.duration_secs, 0);
}

#[test]
fn malformed_lines_are_rejected() {
    assert!(parse_record(&b"only_one_field".to_vec()).is_none());
    assert!(parse_record(&b"a,b".to_vec()).is_none());
    assert!(parse_record(&b"\"unterminated,b,1".to_vec()).is_none());
    assert!(parse_record(&b"a,b,".to_vec()).is_none());
    assert!(parse_record(&b"a,b,12x".to_vec()).is_none());
    assert!(parse_record(&b"a,b,18446744073709551616".to_vec()).is_none());
}

#[test]
fn duration_at_u64_max_round_trips() {
    let rec = record(b"App", b"2024-01-01 10:00:00", u64::MAX);
    let line = serialize_record(&rec);
    let back = parse_record(&line).expect("maximal duration must parse");
    assert_eq!(back.duration_secs, u64::MAX);
}

#[test]
fn decimal_rendering_is_canonical() {
    assert_eq!(u64_to_bytes(0), b"0".to_vec());
    assert_eq!(u64_to_bytes(42), b"42".to_vec());
    assert_eq!(u64_to_bytes(u64::MAX), b"18446744073709551615".to_vec());
}

#[test]
fn decimal_parsing_matches_rendering() {
    assert_eq!(parse_u64(&b"0".to_vec()), Some(0));
    assert_eq!(parse_u64(&b"0042".to_vec()), Some(42));
    assert_eq!(parse_u64(&b"18446744073709551615".to_vec()), Some(u64::MAX));
    assert_eq!(parse_u64(&b"".to_vec()), None);
    assert_eq!(parse_u64(&b"1x".to_vec()), None);
    assert_eq!(parse_u64(&b"18446744073709551616".to_vec()), None);
}
