//! Cross-checks of the verified codec against the `csv` crate: the same
//! record must produce the same line, and the crate's reader must recover
//! the same fields from the verified serializer's output.

use screen_time::{serialize_record, LogRecord};

fn record(title: &[u8], timestamp: &[u8], duration_secs: u64) -> LogRecord {
    LogRecord {
        window_title: title.to_vec(),
        end_timestamp: timestamp.to_vec(),
        duration_secs,
    }
}

fn csv_crate_line(rec: &LogRecord) -> Vec<u8> {
    let mut wtr = csv::WriterBuilder::new()
        .has_headers(false)
        .from_writer(Vec::new());
    wtr.write_record(&[
        &rec.window_title[..],
        &rec.end_timestamp[..],
        rec.duration_secs.to_string().as_bytes(),
    ])
    .expect("writing to a vector cannot fail");
    let mut out = wtr.into_inner().expect("flushing a vector cannot fail");
    // The crate terminates the record with a line feed; the library leaves
    // termination to the caller.
    assert_eq!(out.pop(), Some(b'\n'));
    out
}

fn assert_same_line(rec: LogRecord) {
    let ours = serialize_record(&rec);
    let theirs = csv_crate_line(&rec);
    assert_eq!(ours, theirs);
}

#[test]
fn serializer_matches_csv_crate_on_plain_fields() {
    assert_same_line(record(b"Firefox", b"2024-01-01 10:00:00", 42));
    assert_same_line(record(b"", b"2024-01-01 10:00:00", 0));
}

#[test]
fn serializer_matches_csv_crate_on_special_fields() {
    assert_same_line(record(b"My, App", b"2024-01-01 10:00:00", 7));
    assert_same_line(record(b"He said \"hi\"", b"2024-02-02 08:30:00", 3));
    assert_same_line(record(b"one\ntwo", b"2024-03-03 23:59:59", 100));
    assert_same_line(record(b"carriage\rreturn", b"2024-03-03 23:59:59", 1));
    assert_same_line(record(b"\"", b"2024-03-03 23:59:59", u64::MAX));
}

#[test]
fn csv_crate_reads_back_serialized_records() {
    let cases: Vec<LogRecord> = vec![
        record(b"Firefox", b"2024-01-01 10:00:00", 42),
        record(b"My, App", b"2024-01-01 10:00:00", 7),
        record(b"He said \"hi\"", b"2024-02-02 08:30:00", 3),
        record(b"one\ntwo", b"2024-03-03 23:59:59", 100),
    ];
    for rec in cases {
        let line = serialize_record(&rec);
        let mut rdr = csv::ReaderBuilder::new()
            .has_headers(false)
            .from_reader(&line[..]);
        let row = rdr
            .byte_records()
            .next()
            .expect("one record expected")
            .expect("the line must parse");
        assert_eq!(&row[0], &rec.window_title[..]);
        assert_eq!(&row[1], &rec.end_timestamp[..]);
        assert_eq!(&row[2], rec.duration_secs.to_string().as_bytes());
    }
}
