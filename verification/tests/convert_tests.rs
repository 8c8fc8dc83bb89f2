use parser_converter::bin_format::BinRecords;
use parser_converter::csv_format::CSVRecords;
use parser_converter::errors::{ConvertingError, ParsingError};
use parser_converter::txt_format::TXTRecords;
use parser_converter::{convert, records_equal, Converter, Format, Record, TxStatus, TxType};

fn sample_records() -> Vec<Record> {
    vec![
        Record {
            tx_type: TxType::DEPOSIT,
            tx_status: TxStatus::SUCCESS,
            to_user_id: 1,
            from_user_id: 2,
            timestamp: 999_999,
            description: "Sample 1".to_string(),
            tx_id: 1,
            amount: 500,
        },
        Record {
            tx_type: TxType::TRANSFER,
            tx_status: TxStatus::FAILURE,
            to_user_id: 2,
            from_user_id: 3,
            timestamp: 1_204_598,
            description: "Sample 2".to_string(),
            tx_id: 2,
            amount: 123_500,
        },
        Record {
            tx_type: TxType::WITHDRAWAL,
            tx_status: TxStatus::SUCCESS,
            to_user_id: 10,
            from_user_id: 2235,
            timestamp: 56_858,
            description: "Sample 3".to_string(),
            tx_id: 3,
            amount: 546_400,
        },
        Record {
            tx_type: TxType::DEPOSIT,
            tx_status: TxStatus::PENDING,
            to_user_id: 1,
            from_user_id: 2,
            timestamp: 34_564_356,
            description: "Sample 4".to_string(),
            tx_id: 4,
            amount: 5001,
        },
        Record {
            tx_type: TxType::DEPOSIT,
            tx_status: TxStatus::PENDING,
            to_user_id: 1,
            from_user_id: 2,
            timestamp: 54_670_234,
            description: "Sample 5".to_string(),
            tx_id: 5,
            amount: 5500,
        },
    ]
}

fn assert_records_equal(a: &[Record], b: &[Record]) {
    assert_eq!(
        a.len(),
        b.len(),
        "Record count mismatch: {} != {}",
        a.len(),
        b.len()
    );
    for (i, (r1, r2)) in a.iter().zip(b.iter()).enumerate() {
        assert_eq!(r1, r2, "Records differ at index {}", i);
    }
}

fn sample_streams() -> (Vec<u8>, Vec<u8>, Vec<u8>) {
    let records = sample_records();
    let mut bin: Vec<u8> = Vec::new();
    BinRecords::write_to(&records, &mut bin).unwrap();
    let mut csv: Vec<u8> = Vec::new();
    CSVRecords::write_to(&records, &mut csv).unwrap();
    let mut txt: Vec<u8> = Vec::new();
    TXTRecords::write_to(&records, &mut txt).unwrap();
    (bin, csv, txt)
}

#[test]
fn test_all_interconversions_produce_same_data() {
    let (bin_bytes, csv_bytes, txt_bytes) = sample_streams();

    let bin = BinRecords::from_read(&bin_bytes).unwrap();
    let csv = CSVRecords::from_read(&csv_bytes).unwrap();
    let txt = TXTRecords::from_read(&txt_bytes).unwrap();

    assert_records_equal(bin.as_records(), csv.as_records());
    assert_records_equal(csv.as_records(), txt.as_records());
    assert_records_equal(bin.as_records(), txt.as_records());
}

#[test]
fn test_bin_to_txt_and_back() {
    let (bin_bytes, _, _) = sample_streams();
    let bin_records = BinRecords::from_read(&bin_bytes).unwrap();

    let mut txt_bytes: Vec<u8> = Vec::new();
    TXTRecords::write_to(bin_records.as_records(), &mut txt_bytes).unwrap();

    let txt_records = TXTRecords::from_read(&txt_bytes).unwrap();

    assert_records_equal(bin_records.as_records(), txt_records.as_records());
}

#[test]
fn test_csv_to_bin_and_back() {
    let (_, csv_bytes, _) = sample_streams();
    let csv_records = CSVRecords::from_read(&csv_bytes).unwrap();

    let mut bin_bytes: Vec<u8> = Vec::new();
    BinRecords::write_to(csv_records.as_records(), &mut bin_bytes).unwrap();

    let bin_records = BinRecords::from_read(&bin_bytes).unwrap();

    assert_records_equal(csv_records.as_records(), bin_records.as_records());
}

#[test]
fn test_txt_to_csv_and_back() {
    let (_, _, txt_bytes) = sample_streams();
    let txt_records = TXTRecords::from_read(&txt_bytes).unwrap();

    let mut csv_bytes: Vec<u8> = Vec::new();
    CSVRecords::write_to(txt_records.as_records(), &mut csv_bytes).unwrap();

    let csv_records = CSVRecords::from_read(&csv_bytes).unwrap();

    assert_records_equal(txt_records.as_records(), csv_records.as_records());
}

#[test]
fn test_convert_bin_to_csv_matches_direct_encoding() {
    let (bin_bytes, csv_bytes, _) = sample_streams();
    let converted = convert::<BinRecords, CSVRecords>(&bin_bytes).unwrap();
    assert_eq!(converted, csv_bytes);
}

#[test]
fn test_convert_reports_parse_error() {
    let garbage: Vec<u8> = b"XXXXAAAA".to_vec();
    match convert::<BinRecords, TXTRecords>(&garbage) {
        Err(ConvertingError::Parsing(ParsingError::InvalidMagicHeader)) => {},
        other => panic!("expected wrapped InvalidMagicHeader, got ok={}", other.is_ok()),
    }
}

#[test]
fn test_records_equal_detects_difference() {
    let a = sample_records();
    let mut b = sample_records();
    assert!(records_equal(&a, &b));
    b[3].amount += 1;
    assert!(!records_equal(&a, &b));
}

#[test]
fn test_format_as_str() {
    assert_eq!(Format::Bin.as_str(), "bin");
    assert_eq!(Format::Txt.as_str(), "txt");
    assert_eq!(Format::Csv.as_str(), "csv");
}

#[test]
fn test_error_messages() {
    let e = ParsingError::WrongColumnCount {
        line_number: 2,
        header: 8,
        values: 3,
    };
    assert_eq!(e.message(), "Error in row 2: expected 8 columns, found 3");
    assert_eq!(
        ParsingError::InvalidMagicHeader.message(),
        "Invalid magic header"
    );
    let w = ConvertingError::Parsing(ParsingError::MissingKey {
        key: "AMOUNT".to_string(),
    });
    assert_eq!(w.message(), "Parsing error: Missing key AMOUNT");
}

#[test]
fn test_amount_above_signed_range_wraps_on_wire() {
    // amounts above i64::MAX keep their two's-complement bytes on the wire
    // and round-trip bit-for-bit
    let rec = Record {
        tx_type: TxType::DEPOSIT,
        tx_status: TxStatus::SUCCESS,
        to_user_id: 1,
        from_user_id: 2,
        timestamp: 3,
        description: "big".to_string(),
        tx_id: 4,
        amount: u64::MAX - 5,
    };
    let mut buf: Vec<u8> = Vec::new();
    BinRecords::write_to(&vec![rec], &mut buf).unwrap();
    let parsed = BinRecords::from_read(&buf).unwrap();
    assert_eq!(parsed.records[0].amount, u64::MAX - 5);
}
