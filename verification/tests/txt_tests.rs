use parser_converter::errors::ParsingError;
use parser_converter::txt_format::TXTRecords;
use parser_converter::{Converter, Record, TxStatus, TxType};

fn sample_records() -> Vec<Record> {
    vec![
        Record {
            tx_type: TxType::DEPOSIT,
            tx_status: TxStatus::SUCCESS,
            to_user_id: 111,
            from_user_id: 0,
            timestamp: 1700000000,
            description: "Record 1".to_string(),
            tx_id: 1,
            amount: 5000,
        },
        Record {
            tx_type: TxType::TRANSFER,
            tx_status: TxStatus::PENDING,
            to_user_id: 222,
            from_user_id: 111,
            timestamp: 1700000500,
            description: "Record 2".to_string(),
            tx_id: 2,
            amount: 1500,
        },
    ]
}

#[test]
fn test_txt_write_and_read_back() {
    let records = sample_records();

    let mut buf: Vec<u8> = Vec::new();
    TXTRecords::write_to(&records, &mut buf).unwrap();

    let parsed = TXTRecords::from_read(&buf).unwrap();

    assert_eq!(parsed.records.len(), 2);
    assert_eq!(parsed.records[0].tx_id, 1);
    assert_eq!(parsed.records[0].tx_type, TxType::DEPOSIT);
    assert_eq!(parsed.records[0].tx_status, TxStatus::SUCCESS);
    assert_eq!(parsed.records[0].description, "Record 1");

    assert_eq!(parsed.records[1].tx_id, 2);
    assert_eq!(parsed.records[1].tx_type, TxType::TRANSFER);
    assert_eq!(parsed.records[1].tx_status, TxStatus::PENDING);
    assert_eq!(parsed.records[1].description, "Record 2");
}

#[test]
fn test_txt_from_read_with_missing_field() {
    let bad_txt = r#"
# Record 1 (DEPOSIT)
TX_TYPE: DEPOSIT
TO_USER_ID: 100
# FROM_USER_ID отсутствует
TIMESTAMP: 1700000000
DESCRIPTION: "Тест"
TX_ID: 10
AMOUNT: 1000
STATUS: SUCCESS
"#;
    let buf: Vec<u8> = bad_txt.as_bytes().to_vec();
    let result = TXTRecords::from_read(&buf);
    assert!(result.is_err(), "ожидалась ошибка при отсутствии поля");
}

#[test]
fn test_txt_from_read_with_empty_file() {
    let buf: Vec<u8> = Vec::new();
    let result = TXTRecords::from_read(&buf);
    // Пустой файл — просто без записей, но не ошибка
    assert!(result.is_ok());
    assert!(result.unwrap().records.is_empty());
}

#[test]
fn test_txt_from_read_with_invalid_type() {
    let invalid = r#"
# Record 1 (INVALID)
TX_TYPE: UNKNOWN
TO_USER_ID: 1
FROM_USER_ID: 2
TIMESTAMP: 123
DESCRIPTION: "desc"
TX_ID: 5
AMOUNT: 99
STATUS: SUCCESS
"#;
    let buf: Vec<u8> = invalid.as_bytes().to_vec();
    let result = TXTRecords::from_read(&buf);
    assert!(
        result.is_err(),
        "должна быть ошибка для неизвестного TX_TYPE"
    );
}

#[test]
fn test_txt_from_read_with_invalid_status() {
    let invalid = r#"
# Record 1 (DEPOSIT)
TX_TYPE: DEPOSIT
TO_USER_ID: 1
FROM_USER_ID: 2
TIMESTAMP: 123
DESCRIPTION: "desc"
TX_ID: 5
AMOUNT: 99
STATUS: WTF
"#;
    let buf: Vec<u8> = invalid.as_bytes().to_vec();
    let result = TXTRecords::from_read(&buf);
    assert!(
        result.is_err(),
        "должна быть ошибка для неизвестного STATUS"
    );
}

#[test]
fn test_txt_rejects_lowercase_type() {
    // the text format matches the exact uppercase names only
    let invalid = r#"
# Record 1 (DEPOSIT)
TX_TYPE: deposit
TO_USER_ID: 1
FROM_USER_ID: 2
TIMESTAMP: 123
DESCRIPTION: "desc"
TX_ID: 5
AMOUNT: 99
STATUS: SUCCESS
"#;
    let buf: Vec<u8> = invalid.as_bytes().to_vec();
    assert!(matches!(
        TXTRecords::from_read(&buf),
        Err(ParsingError::WrongTxType)
    ));
}

#[test]
fn test_txt_exact_output_block() {
    let records = vec![Record {
        tx_type: TxType::DEPOSIT,
        tx_status: TxStatus::SUCCESS,
        to_user_id: 1000,
        from_user_id: 0,
        timestamp: 5,
        description: "hello".to_string(),
        tx_id: 42,
        amount: 500,
    }];
    let mut buf: Vec<u8> = Vec::new();
    TXTRecords::write_to(&records, &mut buf).unwrap();
    let text = String::from_utf8(buf).unwrap();
    assert_eq!(
        text,
        "# Record 1 (DEPOSIT)\nTX_TYPE: DEPOSIT\nTO_USER_ID: 1000\nFROM_USER_ID: 0\n\
         TIMESTAMP: 5\nDESCRIPTION: \"hello\"\nTX_ID: 42\nAMOUNT: 500\nSTATUS: SUCCESS\n\n"
    );
}

#[test]
fn test_txt_missing_key_names_column() {
    let invalid = "# Record 1 (DEPOSIT)\nTX_TYPE: DEPOSIT\nTO_USER_ID: 1\nFROM_USER_ID: 2\n\
                   DESCRIPTION: \"d\"\nTX_ID: 5\nAMOUNT: 99\nSTATUS: SUCCESS\n";
    let buf: Vec<u8> = invalid.as_bytes().to_vec();
    match TXTRecords::from_read(&buf) {
        Err(ParsingError::MissingKey { key }) => assert_eq!(key, "TIMESTAMP"),
        other => panic!("expected MissingKey, got {:?}", other.is_ok()),
    }
}

#[test]
fn test_txt_wrong_key_names_column() {
    let invalid = "# Record 1 (DEPOSIT)\nTX_TYPE: DEPOSIT\nTO_USER_ID: one\nFROM_USER_ID: 2\n\
                   TIMESTAMP: 3\nDESCRIPTION: \"d\"\nTX_ID: 5\nAMOUNT: 99\nSTATUS: SUCCESS\n";
    let buf: Vec<u8> = invalid.as_bytes().to_vec();
    match TXTRecords::from_read(&buf) {
        Err(ParsingError::WrongKey { key }) => assert_eq!(key, "TO_USER_ID"),
        other => panic!("expected WrongKey, got {:?}", other.is_ok()),
    }
}

#[test]
fn test_txt_default_description() {
    // DESCRIPTION is optional and defaults to empty
    let text = "# Record 1 (DEPOSIT)\nTX_TYPE: DEPOSIT\nTO_USER_ID: 1\nFROM_USER_ID: 2\n\
                TIMESTAMP: 3\nTX_ID: 5\nAMOUNT: 99\nSTATUS: SUCCESS\n";
    let buf: Vec<u8> = text.as_bytes().to_vec();
    let parsed = TXTRecords::from_read(&buf).unwrap();
    assert_eq!(parsed.records.len(), 1);
    assert_eq!(parsed.records[0].description, "");
}

#[test]
fn test_txt_last_key_wins() {
    let text = "# Record 1 (DEPOSIT)\nTX_TYPE: DEPOSIT\nTO_USER_ID: 1\nTO_USER_ID: 7\n\
                FROM_USER_ID: 2\nTIMESTAMP: 3\nTX_ID: 5\nAMOUNT: 99\nSTATUS: SUCCESS\n";
    let buf: Vec<u8> = text.as_bytes().to_vec();
    let parsed = TXTRecords::from_read(&buf).unwrap();
    assert_eq!(parsed.records[0].to_user_id, 7);
}
