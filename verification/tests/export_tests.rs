use serpico::datasets::{BlockRecord, Data, LogRecord, TxRecord};
use serpico::endpoint::parse_rpc_url;
use serpico::error::SerpicoError;
use serpico::export::encode_dataset;
use serpico::schema::{dataset_rows, fmt_str_list};

fn sample_block() -> BlockRecord {
    BlockRecord {
        status: "AcceptedOnL2".to_string(),
        block_hash: "0xabc".to_string(),
        parent_hash: "0xdef".to_string(),
        block_number: 42,
        new_root: "0x123".to_string(),
        timestamp: 1700000000,
        sequencer_address: "0x456".to_string(),
        l1_gas_price_in_fri: "1000".to_string(),
        l1_gas_price_in_wei: "2000".to_string(),
        starknet_version: "0.13.1".to_string(),
        tx_count: 3,
    }
}

#[test]
fn fmt_str_list_brackets_and_quotes() {
    assert_eq!(fmt_str_list(&vec![]), "[]");
    assert_eq!(fmt_str_list(&vec!["0x1".to_string()]), "[\"0x1\"]");
    assert_eq!(
        fmt_str_list(&vec!["0x1".to_string(), "0x2".to_string()]),
        "[\"0x1\", \"0x2\"]"
    );
}

#[test]
fn blocks_rows_follow_schema() {
    let rows = dataset_rows(&Data::Blocks(vec![sample_block()]));
    assert_eq!(rows.len(), 2);
    assert_eq!(
        rows[0],
        vec![
            "status",
            "block_hash",
            "parent_hash",
            "block_number",
            "new_root",
            "timestamp",
            "sequencer_address",
            "l1_gas_price_in_fri",
            "l1_gas_price_in_wei",
            "starknet_version",
            "tx_count",
        ]
    );
    assert_eq!(
        rows[1],
        vec![
            "AcceptedOnL2",
            "0xabc",
            "0xdef",
            "42",
            "0x123",
            "1700000000",
            "0x456",
            "1000",
            "2000",
            "0.13.1",
            "3",
        ]
    );
}

#[test]
fn tx_rows_write_none_for_missing_fields() {
    let txs = Data::Transactions(vec![
        (TxRecord::InvokeV0 { tx_hash: "0x1".to_string() }, 5),
        (
            TxRecord::InvokeV1 {
                tx_hash: "0x2".to_string(),
                nonce: "11".to_string(),
                sender_address: "0xaa".to_string(),
            },
            6,
        ),
        (
            TxRecord::L1Handler {
                tx_hash: "0x3".to_string(),
                version: "0".to_string(),
                nonce: "12".to_string(),
            },
            7,
        ),
        (
            TxRecord::DeclareV3 {
                tx_hash: "0x4".to_string(),
                nonce: "13".to_string(),
                sender_address: "0xbb".to_string(),
            },
            8,
        ),
        (TxRecord::Deploy { tx_hash: "0x5".to_string(), version: "1".to_string() }, 9),
        (TxRecord::DeployAccountV1 { tx_hash: "0x6".to_string(), nonce: "14".to_string() }, 10),
    ]);
    let rows = dataset_rows(&txs);
    assert_eq!(
        rows[0],
        vec!["block_number", "tx_hash", "tx_type", "tx_type_version", "nonce", "caller"]
    );
    assert_eq!(rows[1], vec!["5", "0x1", "Invoke", "V0", "None", "None"]);
    assert_eq!(rows[2], vec!["6", "0x2", "Invoke", "V1", "11", "0xaa"]);
    assert_eq!(rows[3], vec!["7", "0x3", "L1Handler", "0", "12", "None"]);
    assert_eq!(rows[4], vec!["8", "0x4", "Declare", "V3", "13", "0xbb"]);
    assert_eq!(rows[5], vec!["9", "0x5", "Deploy", "1", "None", "None"]);
    assert_eq!(rows[6], vec!["10", "0x6", "DeployAccount", "V1", "14", "None"]);
}

#[test]
fn log_rows_default_block_number_to_zero() {
    let logs = Data::Logs(vec![LogRecord {
        block_number: None,
        tx_hash: "0x9".to_string(),
        contract_address: "0xc".to_string(),
        keys: vec!["0x1".to_string(), "0x2".to_string()],
        data: vec![],
    }]);
    let rows = dataset_rows(&logs);
    assert_eq!(
        rows[0],
        vec!["block_number", "tx_hash", "contract_address", "keys", "data"]
    );
    assert_eq!(rows[1], vec!["0", "0x9", "0xc", "[\"0x1\", \"0x2\"]", "[]"]);
}

#[test]
fn empty_kind_yields_no_rows() {
    assert!(dataset_rows(&Data::Empty).is_empty());
}

#[test]
fn encode_blocks_to_csv_bytes() {
    let bytes = encode_dataset(&Data::Blocks(vec![sample_block()]));
    let text = String::from_utf8(bytes).unwrap();
    let expected = "status,block_hash,parent_hash,block_number,new_root,timestamp,\
sequencer_address,l1_gas_price_in_fri,l1_gas_price_in_wei,starknet_version,tx_count\n\
AcceptedOnL2,0xabc,0xdef,42,0x123,1700000000,0x456,1000,2000,0.13.1,3\n";
    assert_eq!(text, expected);
}

#[test]
fn encode_quotes_fields_with_commas() {
    let logs = Data::Logs(vec![LogRecord {
        block_number: Some(12),
        tx_hash: "0x9".to_string(),
        contract_address: "0xc".to_string(),
        keys: vec!["0x1".to_string(), "0x2".to_string()],
        data: vec![],
    }]);
    let bytes = encode_dataset(&logs);
    let text = String::from_utf8(bytes).unwrap();
    let expected = "block_number,tx_hash,contract_address,keys,data\n\
12,0x9,0xc,\"[\"\"0x1\"\", \"\"0x2\"\"]\",[]\n";
    assert_eq!(text, expected);
}

#[test]
fn encode_empty_kind_is_empty_output() {
    let bytes = encode_dataset(&Data::Empty);
    assert!(bytes.is_empty());
}

#[test]
fn endpoint_url_is_validated_up_front() {
    assert!(parse_rpc_url("https://example.org/rpc/v0_7").is_ok());
    match parse_rpc_url("not a url") {
        Err(SerpicoError::UrlParsingErr(_)) => {}
        other => panic!("expected UrlParsingErr, got {:?}", other),
    }
}
