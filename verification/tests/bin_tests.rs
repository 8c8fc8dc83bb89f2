use parser_converter::bin_format::BinRecords;
use parser_converter::errors::ParsingError;
use parser_converter::{Converter, Record, TxStatus, TxType};

fn sample_record(id: u64, desc: &str) -> Record {
    Record {
        tx_type: TxType::DEPOSIT,
        tx_status: TxStatus::SUCCESS,
        to_user_id: 1000,
        from_user_id: 0,
        timestamp: 1_634_000_000_000,
        description: desc.to_string(),
        tx_id: id,
        amount: 500,
    }
}

#[test]
fn test_write_and_read_single_record() {
    let record = sample_record(42, "Single record");
    let records = vec![record];

    let mut buf: Vec<u8> = Vec::new();
    BinRecords::write_to(&records, &mut buf).unwrap();

    let parsed = BinRecords::from_read(&buf).unwrap();

    assert_eq!(parsed.records.len(), 1);
    let rec = &parsed.records[0];
    assert_eq!(rec.tx_id, 42);
    assert_eq!(rec.description, "Single record");
    assert_eq!(rec.tx_type, TxType::DEPOSIT);
    assert_eq!(rec.tx_status, TxStatus::SUCCESS);
    assert_eq!(rec.amount, 500);
}

#[test]
fn test_multiple_records_roundtrip() {
    let input_records = vec![
        sample_record(1, "First"),
        sample_record(2, "Second"),
        sample_record(3, "Third"),
    ];

    let mut buf: Vec<u8> = Vec::new();
    BinRecords::write_to(&input_records, &mut buf).unwrap();

    let output = BinRecords::from_read(&buf).unwrap();

    assert_eq!(input_records.len(), output.records.len());
    for (a, b) in input_records.iter().zip(output.records.iter()) {
        assert_eq!(a.tx_id, b.tx_id);
        assert_eq!(a.description, b.description);
        assert_eq!(a.amount, b.amount);
    }
}

#[test]
fn test_invalid_magic_header() {
    let mut buf: Vec<u8> = Vec::new();
    buf.extend_from_slice(b"XXXX");
    buf.extend_from_slice(&[0, 0, 0, 0]);

    let result = BinRecords::from_read(&buf);

    assert!(result.is_err());
}

#[test]
fn test_incomplete_data_returns_error() {
    let record = sample_record(10, "Incomplete");
    let mut buf: Vec<u8> = Vec::new();
    BinRecords::write_to(&vec![record], &mut buf).unwrap();

    let cutoff = buf.len() / 2;
    let truncated: Vec<u8> = buf[..cutoff].to_vec();

    let result = BinRecords::from_read(&truncated);

    assert!(result.is_err(), "Expected error for truncated binary data");

    if let Err(ParsingError::WrongRecordData) = result {
        // ок, всё верно
    } else {
        panic!("Expected ParsingError::WrongRecordData for truncated input");
    }
}

#[test]
fn test_bin_frame_layout() {
    // one record with a two-byte description: the frame starts with the
    // magic and a big-endian body length of 46 + 2 bytes
    let mut rec = sample_record(42, "AB");
    rec.amount = 500;
    let mut buf: Vec<u8> = Vec::new();
    BinRecords::write_to(&vec![rec], &mut buf).unwrap();
    assert_eq!(buf.len(), 8 + 48);
    assert_eq!(&buf[0..4], b"YPBN");
    assert_eq!(&buf[4..8], &[0, 0, 0, 48]);
    // tx_id as big-endian u64
    assert_eq!(&buf[8..16], &[0, 0, 0, 0, 0, 0, 0, 42]);
    // type byte for DEPOSIT
    assert_eq!(buf[16], 0);
    // the description bytes close the frame
    assert_eq!(&buf[54..56], b"AB");
}

#[test]
fn test_bin_empty_input() {
    let buf: Vec<u8> = Vec::new();
    let parsed = BinRecords::from_read(&buf).unwrap();
    assert!(parsed.records.is_empty());
}

#[test]
fn test_bin_clean_eof_at_frame_boundary() {
    // two records; cutting exactly after the first frame decodes one record
    let records = vec![sample_record(1, "First"), sample_record(2, "Second")];
    let mut first_only: Vec<u8> = Vec::new();
    BinRecords::write_to(&vec![sample_record(1, "First")], &mut first_only).unwrap();
    let mut both: Vec<u8> = Vec::new();
    BinRecords::write_to(&records, &mut both).unwrap();

    let truncated: Vec<u8> = both[..first_only.len()].to_vec();
    let parsed = BinRecords::from_read(&truncated).unwrap();
    assert_eq!(parsed.records.len(), 1);
    assert_eq!(parsed.records[0].tx_id, 1);
}

#[test]
fn test_bin_wrong_type_byte() {
    let mut buf: Vec<u8> = Vec::new();
    BinRecords::write_to(&vec![sample_record(7, "x")], &mut buf).unwrap();
    buf[16] = 9; // type byte outside {0, 1, 2}
    let result = BinRecords::from_read(&buf);
    assert!(matches!(result, Err(ParsingError::WrongTxType)));
}

#[test]
fn test_bin_wrong_status_byte() {
    let mut buf: Vec<u8> = Vec::new();
    BinRecords::write_to(&vec![sample_record(7, "x")], &mut buf).unwrap();
    buf[8 + 41] = 7; // status byte outside {0, 1, 2}
    let result = BinRecords::from_read(&buf);
    assert!(matches!(result, Err(ParsingError::WrongStatusType)));
}

#[test]
fn test_bin_invalid_utf8_description() {
    let mut buf: Vec<u8> = Vec::new();
    BinRecords::write_to(&vec![sample_record(7, "ab")], &mut buf).unwrap();
    buf[54] = 0xff; // not a valid UTF-8 byte sequence
    buf[55] = 0xfe;
    let result = BinRecords::from_read(&buf);
    assert!(matches!(result, Err(ParsingError::Utf8Error)));
}

#[test]
fn test_bin_quote_stripped_from_description() {
    // a double quote in the description does not survive the binary round
    // trip: decoding strips it
    let rec = sample_record(5, "say \"hi\"");
    let mut buf: Vec<u8> = Vec::new();
    BinRecords::write_to(&vec![rec], &mut buf).unwrap();
    let parsed = BinRecords::from_read(&buf).unwrap();
    assert_eq!(parsed.records[0].description, "say hi");
}

#[test]
fn test_bin_as_records() {
    let records = vec![sample_record(1, "a"), sample_record(2, "b")];
    let mut buf: Vec<u8> = Vec::new();
    BinRecords::write_to(&records, &mut buf).unwrap();
    let parsed = BinRecords::from_read(&buf).unwrap();
    let view = parsed.as_records();
    assert_eq!(view.len(), 2);
    assert_eq!(view[1].tx_id, 2);
}
