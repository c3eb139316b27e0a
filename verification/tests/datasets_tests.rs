use serpico::datasets::{Data, Datasets, LogRecord, TxRecord};

fn log(block_number: Option<u64>, tag: &str) -> LogRecord {
    LogRecord {
        block_number,
        tx_hash: tag.to_string(),
        contract_address: "0xc".to_string(),
        keys: vec![],
        data: vec![],
    }
}

#[test]
fn empty_has_requested_kind_and_no_records() {
    assert_eq!(Data::empty(Datasets::Blocks).len(), 0);
    assert!(matches!(Data::empty(Datasets::Blocks), Data::Blocks(_)));
    assert!(matches!(Data::empty(Datasets::Transactions), Data::Transactions(_)));
    assert!(matches!(Data::empty(Datasets::Logs), Data::Logs(_)));
    assert!(matches!(Data::empty(Datasets::Empty), Data::Empty));
}

#[test]
fn extend_same_kind_adds_lengths() {
    let mut a = Data::Logs(vec![log(Some(1), "a"), log(Some(2), "b")]);
    let b = Data::Logs(vec![log(Some(3), "c")]);
    let (la, lb) = (a.len(), b.len());
    a.extend(b);
    assert_eq!(a.len(), la + lb);
    match &a {
        Data::Logs(v) => {
            let tags: Vec<&str> = v.iter().map(|l| l.tx_hash.as_str()).collect();
            assert_eq!(tags, vec!["a", "b", "c"]);
        }
        _ => panic!("kind changed"),
    }
}

#[test]
fn extend_kind_mismatch_is_a_no_op() {
    let mut a = Data::Logs(vec![log(Some(1), "a")]);
    a.extend(Data::Blocks(vec![]));
    assert_eq!(a.len(), 1);
    assert!(matches!(a, Data::Logs(_)));

    let mut e = Data::Empty;
    e.extend(Data::Logs(vec![log(Some(1), "a")]));
    assert!(matches!(e, Data::Empty));
}

#[test]
fn sort_by_block_orders_logs_and_defaults_missing_to_zero() {
    let mut d = Data::Logs(vec![
        log(Some(7), "a"),
        log(None, "b"),
        log(Some(3), "c"),
    ]);
    d.sort_by_block();
    match &d {
        Data::Logs(v) => {
            let tags: Vec<&str> = v.iter().map(|l| l.tx_hash.as_str()).collect();
            assert_eq!(tags, vec!["b", "c", "a"]);
        }
        _ => panic!("kind changed"),
    }
}

#[test]
fn sort_by_block_is_stable_for_equal_keys() {
    let mut d = Data::Logs(vec![
        log(Some(5), "first5"),
        log(Some(1), "one"),
        log(Some(5), "second5"),
        log(Some(5), "third5"),
    ]);
    d.sort_by_block();
    match &d {
        Data::Logs(v) => {
            let tags: Vec<&str> = v.iter().map(|l| l.tx_hash.as_str()).collect();
            assert_eq!(tags, vec!["one", "first5", "second5", "third5"]);
        }
        _ => panic!("kind changed"),
    }
}

#[test]
fn sort_by_block_orders_transactions_by_carried_number() {
    let tx = |n: u64, h: &str| {
        (TxRecord::InvokeV0 { tx_hash: h.to_string() }, n)
    };
    let mut d = Data::Transactions(vec![tx(9, "x"), tx(2, "y"), tx(5, "z")]);
    d.sort_by_block();
    match &d {
        Data::Transactions(v) => {
            let order: Vec<u64> = v.iter().map(|e| e.1).collect();
            assert_eq!(order, vec![2, 5, 9]);
        }
        _ => panic!("kind changed"),
    }
}

#[test]
fn aggregate_then_sort_gives_one_ordered_dataset() {
    let mut whole = Data::empty(Datasets::Logs);
    whole.extend(Data::Logs(vec![log(Some(20), "s2a"), log(Some(25), "s2b")]));
    whole.extend(Data::Logs(vec![log(Some(0), "s1a"), log(Some(9), "s1b")]));
    whole.sort_by_block();
    assert_eq!(whole.len(), 4);
    match &whole {
        Data::Logs(v) => {
            let tags: Vec<&str> = v.iter().map(|l| l.tx_hash.as_str()).collect();
            assert_eq!(tags, vec!["s1a", "s1b", "s2a", "s2b"]);
        }
        _ => panic!("kind changed"),
    }
}
