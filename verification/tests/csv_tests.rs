use parser_converter::csv_format::CSVRecords;
use parser_converter::errors::ParsingError;
use parser_converter::{Converter, Record, TxStatus, TxType};

fn sample_records() -> Vec<Record> {
    vec![
        Record {
            tx_type: TxType::DEPOSIT,
            tx_status: TxStatus::SUCCESS,
            to_user_id: 100,
            from_user_id: 0,
            timestamp: 1700000000,
            description: "Пополнение счёта".to_string(),
            tx_id: 1,
            amount: 5000,
        },
        Record {
            tx_type: TxType::TRANSFER,
            tx_status: TxStatus::PENDING,
            to_user_id: 200,
            from_user_id: 100,
            timestamp: 1700000100,
            description: "Перевод другу".to_string(),
            tx_id: 2,
            amount: 1500,
        },
    ]
}

#[test]
fn test_csv_write_and_read_back() {
    let records = sample_records();

    let mut buf: Vec<u8> = Vec::new();
    CSVRecords::write_to(&records, &mut buf).unwrap();

    let parsed = CSVRecords::from_read(&buf).unwrap();

    assert_eq!(parsed.records.len(), 2);
    assert_eq!(parsed.records[0].tx_id, 1);
    assert_eq!(parsed.records[0].tx_type, TxType::DEPOSIT);
    assert_eq!(parsed.records[0].tx_status, TxStatus::SUCCESS);
    assert_eq!(parsed.records[0].description, "Пополнение счёта");
    assert_eq!(parsed.records[1].amount, 1500);
    assert_eq!(parsed.records[1].tx_status, TxStatus::PENDING);
}

#[test]
fn test_csv_from_read_with_invalid_header() {
    let bad_csv = "WRONG_HEADER\nsomething,else\n";
    let buf: Vec<u8> = bad_csv.as_bytes().to_vec();
    let result = CSVRecords::from_read(&buf);
    assert!(
        result.is_err(),
        "ожидалась ошибка при неверном CSV-заголовке"
    );
}

#[test]
fn test_csv_from_read_with_empty_file() {
    let buf: Vec<u8> = Vec::new();
    let result = CSVRecords::from_read(&buf);
    assert!(result.is_err());
}

#[test]
fn test_csv_empty_file_error_kind() {
    let buf: Vec<u8> = Vec::new();
    let result = CSVRecords::from_read(&buf);
    assert!(matches!(result, Err(ParsingError::EmptyFile)));
}

#[test]
fn test_csv_column_count_mismatch_line_number() {
    // the third file line has seven fields instead of eight; the error names
    // it by its 1-based number
    let text = "TX_TYPE,STATUS,TO_USER_ID,FROM_USER_ID,TIMESTAMP,DESCRIPTION,TX_ID,AMOUNT\n\
                DEPOSIT,SUCCESS,1,0,5,\"ok\",1,10\n\
                DEPOSIT,SUCCESS,1,0,5,\"short\",1\n";
    let buf: Vec<u8> = text.as_bytes().to_vec();
    match CSVRecords::from_read(&buf) {
        Err(ParsingError::WrongColumnCount { line_number, header, values }) => {
            assert_eq!(line_number, 3);
            assert_eq!(header, 8);
            assert_eq!(values, 7);
        },
        other => panic!("expected WrongColumnCount, got {:?}", other.is_ok()),
    }
}

#[test]
fn test_csv_enum_case_insensitive() {
    let text = "TX_TYPE,STATUS,TO_USER_ID,FROM_USER_ID,TIMESTAMP,DESCRIPTION,TX_ID,AMOUNT\n\
                deposit,success,1,0,5,\"a\",1,10\n\
                DEPOSIT,SUCCESS,1,0,5,\"b\",2,10\n\
                Deposit,Success,1,0,5,\"c\",3,10\n";
    let buf: Vec<u8> = text.as_bytes().to_vec();
    let parsed = CSVRecords::from_read(&buf).unwrap();
    assert_eq!(parsed.records.len(), 3);
    for rec in parsed.records.iter() {
        assert_eq!(rec.tx_type, TxType::DEPOSIT);
        assert_eq!(rec.tx_status, TxStatus::SUCCESS);
    }
}

#[test]
fn test_csv_missing_key() {
    // eight columns, but none named TO_USER_ID
    let text = "TX_TYPE,STATUS,SOMEONE,FROM_USER_ID,TIMESTAMP,DESCRIPTION,TX_ID,AMOUNT\n\
                DEPOSIT,SUCCESS,1,0,5,\"a\",1,10\n";
    let buf: Vec<u8> = text.as_bytes().to_vec();
    match CSVRecords::from_read(&buf) {
        Err(ParsingError::MissingKey { key }) => assert_eq!(key, "TO_USER_ID"),
        other => panic!("expected MissingKey, got {:?}", other.is_ok()),
    }
}

#[test]
fn test_csv_wrong_key() {
    let text = "TX_TYPE,STATUS,TO_USER_ID,FROM_USER_ID,TIMESTAMP,DESCRIPTION,TX_ID,AMOUNT\n\
                DEPOSIT,SUCCESS,abc,0,5,\"a\",1,10\n";
    let buf: Vec<u8> = text.as_bytes().to_vec();
    match CSVRecords::from_read(&buf) {
        Err(ParsingError::WrongKey { key }) => assert_eq!(key, "TO_USER_ID"),
        other => panic!("expected WrongKey, got {:?}", other.is_ok()),
    }
}

#[test]
fn test_csv_unknown_type_token() {
    let text = "TX_TYPE,STATUS,TO_USER_ID,FROM_USER_ID,TIMESTAMP,DESCRIPTION,TX_ID,AMOUNT\n\
                LOAN,SUCCESS,1,0,5,\"a\",1,10\n";
    let buf: Vec<u8> = text.as_bytes().to_vec();
    assert!(matches!(
        CSVRecords::from_read(&buf),
        Err(ParsingError::WrongTxType)
    ));
}

#[test]
fn test_csv_unknown_status_token() {
    let text = "TX_TYPE,STATUS,TO_USER_ID,FROM_USER_ID,TIMESTAMP,DESCRIPTION,TX_ID,AMOUNT\n\
                DEPOSIT,MAYBE,1,0,5,\"a\",1,10\n";
    let buf: Vec<u8> = text.as_bytes().to_vec();
    assert!(matches!(
        CSVRecords::from_read(&buf),
        Err(ParsingError::WrongStatusType)
    ));
}

#[test]
fn test_csv_invalid_utf8_input() {
    let buf: Vec<u8> = vec![0xff, 0xfe, 0xfd];
    assert!(matches!(
        CSVRecords::from_read(&buf),
        Err(ParsingError::Utf8Error)
    ));
}

#[test]
fn test_csv_blank_lines_skipped() {
    let text = "TX_TYPE,STATUS,TO_USER_ID,FROM_USER_ID,TIMESTAMP,DESCRIPTION,TX_ID,AMOUNT\n\
                \n\
                DEPOSIT,SUCCESS,1,0,5,\"a\",9,10\n\
                \n";
    let buf: Vec<u8> = text.as_bytes().to_vec();
    let parsed = CSVRecords::from_read(&buf).unwrap();
    assert_eq!(parsed.records.len(), 1);
    assert_eq!(parsed.records[0].tx_id, 9);
}

#[test]
fn test_csv_exact_output_line() {
    let records = vec![Record {
        tx_type: TxType::WITHDRAWAL,
        tx_status: TxStatus::FAILURE,
        to_user_id: 7,
        from_user_id: 8,
        timestamp: 90,
        description: "cash".to_string(),
        tx_id: 3,
        amount: 12,
    }];
    let mut buf: Vec<u8> = Vec::new();
    CSVRecords::write_to(&records, &mut buf).unwrap();
    let text = String::from_utf8(buf).unwrap();
    assert_eq!(
        text,
        "TX_TYPE,STATUS,TO_USER_ID,FROM_USER_ID,TIMESTAMP,DESCRIPTION,TX_ID,AMOUNT\n\
         WITHDRAWAL,FAILURE,7,8,90,\"cash\",3,12\n"
    );
}
