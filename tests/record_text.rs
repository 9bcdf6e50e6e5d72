use points_ledger::record::{parse_record, record_text, RecordError};

#[test]
fn parses_plain_record() {
    assert_eq!(parse_record(b"12 - 5"), Ok((12, 5)));
}

#[test]
fn parses_largest_values() {
    assert_eq!(
        parse_record(b"18446744073709551615 - 18446744073709551615"),
        Ok((u64::MAX, u64::MAX))
    );
}

#[test]
fn extra_fields_are_refused() {
    assert_eq!(parse_record(b"7 - 3 - note"), Err(RecordError::BadValue));
    assert_eq!(parse_record(b"1 - 2 - 3"), Err(RecordError::BadValue));
    assert_eq!(parse_record(b"1 - 2 "), Err(RecordError::BadValue));
}

#[test]
fn missing_separator_is_refused() {
    assert_eq!(parse_record(b"12"), Err(RecordError::MissingValue));
    assert_eq!(parse_record(b""), Err(RecordError::MissingValue));
    assert_eq!(parse_record(b"12-5"), Err(RecordError::MissingValue));
}

#[test]
fn bad_value_is_refused() {
    assert_eq!(parse_record(b"12 - five"), Err(RecordError::BadValue));
    assert_eq!(parse_record(b"12 - "), Err(RecordError::BadValue));
    assert_eq!(parse_record(b"12 - 18446744073709551616"), Err(RecordError::BadValue));
    assert_eq!(parse_record(b"x - 5x"), Err(RecordError::BadValue));
}

#[test]
fn bad_id_is_refused() {
    assert_eq!(parse_record(b"user - 5"), Err(RecordError::BadId));
    assert_eq!(parse_record(b" - 5"), Err(RecordError::BadId));
    assert_eq!(parse_record(b"-1 - 5"), Err(RecordError::BadId));
}

#[test]
fn record_text_is_decimal() {
    assert_eq!(record_text(12, 5), b"12 - 5".to_vec());
    assert_eq!(record_text(0, 0), b"0 - 0".to_vec());
    assert_eq!(record_text(1000, 907), b"1000 - 907".to_vec());
}

#[test]
fn record_text_reads_back() {
    for (id, value) in [(0u64, 0u64), (9, 10), (123456789, 42), (u64::MAX, 1)] {
        assert_eq!(parse_record(&record_text(id, value)), Ok((id, value)));
    }
}
