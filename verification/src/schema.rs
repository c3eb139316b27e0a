//! The tabular layout of each dataset kind.
//!
//! Every dataset serializes to a header row followed by one row per
//! record, with a fixed, kind-specific column order. Numbers are written
//! in decimal; hash and address fields carry the hex text captured in the
//! record; the key and data lists of a log are written as a bracketed,
//! comma-separated list of double-quoted values. An empty-kind dataset
//! yields no rows at all, not even a header.

use crate::datasets::{BlockRecord, Data, DataModel, LogRecord, TxRecord};
use crate::numbers::spec_dec;
use crate::numbers::u64_to_dec;
use vstd::prelude::*;

verus! {

/// One value wrapped in double quotes.
pub open spec fn spec_quoted(s: Seq<char>) -> Seq<char> {
    seq!['"'] + s + seq!['"']
}

/// The quoted values, separated by a comma and a space.
pub open spec fn spec_list_body(items: Seq<Seq<char>>) -> Seq<char>
    decreases items.len(),
{
    if items.len() == 0 {
        Seq::empty()
    } else if items.len() == 1 {
        spec_quoted(items[0])
    } else {
        spec_list_body(items.drop_last()) + seq![',', ' '] + spec_quoted(items.last())
    }
}

/// A bracketed list of quoted values, as a list of hex strings prints.
pub open spec fn spec_str_list(items: Seq<Seq<char>>) -> Seq<char> {
    seq!['['] + spec_list_body(items) + seq![']']
}

/// Renders a list of values as `["a", "b"]`.
pub fn fmt_str_list(items: &Vec<String>) -> (r: String)
    ensures
        r@ == spec_str_list(items.deep_view()),
{
    proof {
        reveal_strlit("[");
        reveal_strlit("]");
        reveal_strlit("\"");
        reveal_strlit(", ");
    }
    let mut acc = String::from_str("[");
    let mut i: usize = 0;
    proof {
        assert(acc@ =~= seq!['['] + spec_list_body(items.deep_view().take(0)));
    }
    while i < items.len()
        invariant
            0 <= i <= items@.len(),
            items.deep_view().len() == items@.len(),
            acc@ == seq!['['] + spec_list_body(items.deep_view().take(i as int)),
        decreases items@.len() - i,
    {
        if i > 0 {
            acc.append(", ");
        }
        acc.append("\"");
        acc.append(items[i].as_str());
        acc.append("\"");
        i = i + 1;
        proof {
            reveal_strlit("\"");
            reveal_strlit(", ");
            let dv = items.deep_view();
            assert(dv.take(i as int).drop_last() =~= dv.take(i - 1));
            assert(dv.take(i as int).last() == dv[i - 1]);
            assert(dv[i - 1] == items@[i - 1]@);
            assert(acc@ =~= seq!['['] + spec_list_body(dv.take(i as int)));
        }
    }
    acc.append("]");
    proof {
        assert(items.deep_view().take(items@.len() as int) =~= items.deep_view());
        assert(acc@ =~= spec_str_list(items.deep_view()));
    }
    acc
}

/// The column order of the blocks schema.
pub open spec fn spec_blocks_header() -> Seq<Seq<char>> {
    seq![
        "status"@,
        "block_hash"@,
        "parent_hash"@,
        "block_number"@,
        "new_root"@,
        "timestamp"@,
        "sequencer_address"@,
        "l1_gas_price_in_fri"@,
        "l1_gas_price_in_wei"@,
        "starknet_version"@,
        "tx_count"@,
    ]
}

/// One row of the blocks schema.
pub open spec fn spec_block_row(b: BlockRecord) -> Seq<Seq<char>> {
    seq![
        b.status@,
        b.block_hash@,
        b.parent_hash@,
        spec_dec(b.block_number as nat),
        b.new_root@,
        spec_dec(b.timestamp as nat),
        b.sequencer_address@,
        b.l1_gas_price_in_fri@,
        b.l1_gas_price_in_wei@,
        b.starknet_version@,
        spec_dec(b.tx_count as nat),
    ]
}

/// The column order of the transactions schema.
pub open spec fn spec_txs_header() -> Seq<Seq<char>> {
    seq!["block_number"@, "tx_hash"@, "tx_type"@, "tx_type_version"@, "nonce"@, "caller"@]
}

/// One row of the transactions schema: the carried block number, the
/// transaction hash, the variant's type and version, and its nonce and
/// caller, with the literal text `None` where the variant has no such
/// field.
pub open spec fn spec_tx_row(t: TxRecord, block_number: u64) -> Seq<Seq<char>> {
    let bn = spec_dec(block_number as nat);
    match t {
        TxRecord::InvokeV0 { tx_hash } => seq![bn, tx_hash@, "Invoke"@, "V0"@, "None"@, "None"@],
        TxRecord::InvokeV1 { tx_hash, nonce, sender_address } => seq![
            bn,
            tx_hash@,
            "Invoke"@,
            "V1"@,
            nonce@,
            sender_address@,
        ],
        TxRecord::InvokeV3 { tx_hash, nonce, sender_address } => seq![
            bn,
            tx_hash@,
            "Invoke"@,
            "V3"@,
            nonce@,
            sender_address@,
        ],
        TxRecord::L1Handler { tx_hash, version, nonce } => seq![
            bn,
            tx_hash@,
            "L1Handler"@,
            version@,
            nonce@,
            "None"@,
        ],
        TxRecord::DeclareV0 { tx_hash, sender_address } => seq![
            bn,
            tx_hash@,
            "Declare"@,
            "V0"@,
            "None"@,
            sender_address@,
        ],
        TxRecord::DeclareV1 { tx_hash, nonce, sender_address } => seq![
            bn,
            tx_hash@,
            "Declare"@,
            "V1"@,
            nonce@,
            sender_address@,
        ],
        TxRecord::DeclareV2 { tx_hash, nonce, sender_address } => seq![
            bn,
            tx_hash@,
            "Declare"@,
            "V2"@,
            nonce@,
            sender_address@,
        ],
        TxRecord::DeclareV3 { tx_hash, nonce, sender_address } => seq![
            bn,
            tx_hash@,
            "Declare"@,
            "V3"@,
            nonce@,
            sender_address@,
        ],
        TxRecord::Deploy { tx_hash, version } => seq![
            bn,
            tx_hash@,
            "Deploy"@,
            version@,
            "None"@,
            "None"@,
        ],
        TxRecord::DeployAccountV1 { tx_hash, nonce } => seq![
            bn,
            tx_hash@,
            "DeployAccount"@,
            "V1"@,
            nonce@,
            "None"@,
        ],
        TxRecord::DeployAccountV3 { tx_hash, nonce } => seq![
            bn,
            tx_hash@,
            "DeployAccount"@,
            "V3"@,
            nonce@,
            "None"@,
        ],
    }
}

/// The column order of the logs schema.
pub open spec fn spec_logs_header() -> Seq<Seq<char>> {
    seq!["block_number"@, "tx_hash"@, "contract_address"@, "keys"@, "data"@]
}

/// One row of the logs schema; a missing block number is written as `0`.
pub open spec fn spec_log_row(l: LogRecord) -> Seq<Seq<char>> {
    let bn = if l.block_number is Some {
        l.block_number->0
    } else {
        0u64
    };
    seq![
        spec_dec(bn as nat),
        l.tx_hash@,
        l.contract_address@,
        spec_str_list(l.keys.deep_view()),
        spec_str_list(l.data.deep_view()),
    ]
}

/// All rows of a dataset: the kind's header, then one row per record in
/// record order; the empty kind yields nothing.
pub open spec fn spec_rows(m: DataModel) -> Seq<Seq<Seq<char>>> {
    match m {
        DataModel::Blocks(s) => seq![spec_blocks_header()] + Seq::new(
            s.len(),
            |i: int| spec_block_row(s[i]),
        ),
        DataModel::Transactions(s) => seq![spec_txs_header()] + Seq::new(
            s.len(),
            |i: int| spec_tx_row(s[i].0, s[i].1),
        ),
        DataModel::Logs(s) => seq![spec_logs_header()] + Seq::new(
            s.len(),
            |i: int| spec_log_row(s[i]),
        ),
        DataModel::Empty => Seq::empty(),
    }
}

/// A transaction row always has the transactions schema's six columns,
/// whatever the variant.
proof fn lemma_tx_row_width(t: TxRecord, block_number: u64)
    ensures
        spec_tx_row(t, block_number).len() == 6,
{
    match t {
        TxRecord::InvokeV0 { .. } => {},
        TxRecord::InvokeV1 { .. } => {},
        TxRecord::InvokeV3 { .. } => {},
        TxRecord::L1Handler { .. } => {},
        TxRecord::DeclareV0 { .. } => {},
        TxRecord::DeclareV1 { .. } => {},
        TxRecord::DeclareV2 { .. } => {},
        TxRecord::DeclareV3 { .. } => {},
        TxRecord::Deploy { .. } => {},
        TxRecord::DeployAccountV1 { .. } => {},
        TxRecord::DeployAccountV3 { .. } => {},
    }
}

/// Every row of a dataset has its kind's column count — the width of the
/// header row. This is what makes CSV encoding of a dataset total: the
/// writer only ever rejects a record whose width differs from the first.
pub proof fn lemma_rows_uniform_width(m: DataModel)
    ensures
        forall|k: int|
            0 <= k < spec_rows(m).len() ==> (#[trigger] spec_rows(m)[k]).len() == spec_rows(
                m,
            )[0].len(),
{
    let rows = spec_rows(m);
    match m {
        DataModel::Blocks(s) => {
            assert forall|k: int| 0 <= k < rows.len() implies (#[trigger] rows[k]).len()
                == rows[0].len() by {
                if k >= 1 {
                    assert(rows[k] == spec_block_row(s[k - 1]));
                }
            }
        },
        DataModel::Transactions(s) => {
            assert forall|k: int| 0 <= k < rows.len() implies (#[trigger] rows[k]).len()
                == rows[0].len() by {
                if k >= 1 {
                    assert(rows[k] == spec_tx_row(s[k - 1].0, s[k - 1].1));
                    lemma_tx_row_width(s[k - 1].0, s[k - 1].1);
                }
            }
        },
        DataModel::Logs(s) => {
            assert forall|k: int| 0 <= k < rows.len() implies (#[trigger] rows[k]).len()
                == rows[0].len() by {
                if k >= 1 {
                    assert(rows[k] == spec_log_row(s[k - 1]));
                }
            }
        },
        DataModel::Empty => {},
    }
}

fn blocks_header() -> (r: Vec<String>)
    ensures
        r.deep_view() == spec_blocks_header(),
{
    let r = vec![
        String::from_str("status"),
        String::from_str("block_hash"),
        String::from_str("parent_hash"),
        String::from_str("block_number"),
        String::from_str("new_root"),
        String::from_str("timestamp"),
        String::from_str("sequencer_address"),
        String::from_str("l1_gas_price_in_fri"),
        String::from_str("l1_gas_price_in_wei"),
        String::from_str("starknet_version"),
        String::from_str("tx_count"),
    ];
    proof {
        assert(r.deep_view() =~= spec_blocks_header());
    }
    r
}

fn block_row(b: &BlockRecord) -> (r: Vec<String>)
    ensures
        r.deep_view() == spec_block_row(*b),
{
    let r = vec![
        b.status.clone(),
        b.block_hash.clone(),
        b.parent_hash.clone(),
        u64_to_dec(b.block_number),
        b.new_root.clone(),
        u64_to_dec(b.timestamp),
        b.sequencer_address.clone(),
        b.l1_gas_price_in_fri.clone(),
        b.l1_gas_price_in_wei.clone(),
        b.starknet_version.clone(),
        u64_to_dec(b.tx_count),
    ];
    proof {
        assert(r.deep_view() =~= spec_block_row(*b));
    }
    r
}

fn txs_header() -> (r: Vec<String>)
    ensures
        r.deep_view() == spec_txs_header(),
{
    let r = vec![
        String::from_str("block_number"),
        String::from_str("tx_hash"),
        String::from_str("tx_type"),
        String::from_str("tx_type_version"),
        String::from_str("nonce"),
        String::from_str("caller"),
    ];
    proof {
        assert(r.deep_view() =~= spec_txs_header());
    }
    r
}

fn tx_row(t: &TxRecord, block_number: u64) -> (r: Vec<String>)
    ensures
        r.deep_view() == spec_tx_row(*t, block_number),
{
    let bn = u64_to_dec(block_number);
    let r = match t {
        TxRecord::InvokeV0 { tx_hash } => vec![
            bn,
            tx_hash.clone(),
            String::from_str("Invoke"),
            String::from_str("V0"),
            String::from_str("None"),
            String::from_str("None"),
        ],
        TxRecord::InvokeV1 { tx_hash, nonce, sender_address } => vec![
            bn,
            tx_hash.clone(),
            String::from_str("Invoke"),
            String::from_str("V1"),
            nonce.clone(),
            sender_address.clone(),
        ],
        TxRecord::InvokeV3 { tx_hash, nonce, sender_address } => vec![
            bn,
            tx_hash.clone(),
            String::from_str("Invoke"),
            String::from_str("V3"),
            nonce.clone(),
            sender_address.clone(),
        ],
        TxRecord::L1Handler { tx_hash, version, nonce } => vec![
            bn,
            tx_hash.clone(),
            String::from_str("L1Handler"),
            version.clone(),
            nonce.clone(),
            String::from_str("None"),
        ],
        TxRecord::DeclareV0 { tx_hash, sender_address } => vec![
            bn,
            tx_hash.clone(),
            String::from_str("Declare"),
            String::from_str("V0"),
            String::from_str("None"),
            sender_address.clone(),
        ],
        TxRecord::DeclareV1 { tx_hash, nonce, sender_address } => vec![
            bn,
            tx_hash.clone(),
            String::from_str("Declare"),
            String::from_str("V1"),
            nonce.clone(),
            sender_address.clone(),
        ],
        TxRecord::DeclareV2 { tx_hash, nonce, sender_address } => vec![
            bn,
            tx_hash.clone(),
            String::from_str("Declare"),
            String::from_str("V2"),
            nonce.clone(),
            sender_address.clone(),
        ],
        TxRecord::DeclareV3 { tx_hash, nonce, sender_address } => vec![
            bn,
            tx_hash.clone(),
            String::from_str("Declare"),
            String::from_str("V3"),
            nonce.clone(),
            sender_address.clone(),
        ],
        TxRecord::Deploy { tx_hash, version } => vec![
            bn,
            tx_hash.clone(),
            String::from_str("Deploy"),
            version.clone(),
            String::from_str("None"),
            String::from_str("None"),
        ],
        TxRecord::DeployAccountV1 { tx_hash, nonce } => vec![
            bn,
            tx_hash.clone(),
            String::from_str("DeployAccount"),
            String::from_str("V1"),
            nonce.clone(),
            String::from_str("None"),
        ],
        TxRecord::DeployAccountV3 { tx_hash, nonce } => vec![
            bn,
            tx_hash.clone(),
            String::from_str("DeployAccount"),
            String::from_str("V3"),
            nonce.clone(),
            String::from_str("None"),
        ],
    };
    proof {
        assert(r.deep_view() =~= spec_tx_row(*t, block_number));
    }
    r
}

fn logs_header() -> (r: Vec<String>)
    ensures
        r.deep_view() == spec_logs_header(),
{
    let r = vec![
        String::from_str("block_number"),
        String::from_str("tx_hash"),
        String::from_str("contract_address"),
        String::from_str("keys"),
        String::from_str("data"),
    ];
    proof {
        assert(r.deep_view() =~= spec_logs_header());
    }
    r
}

fn log_row(l: &LogRecord) -> (r: Vec<String>)
    ensures
        r.deep_view() == spec_log_row(*l),
{
    let bn = match l.block_number {
        Some(n) => n,
        None => 0,
    };
    let r = vec![
        u64_to_dec(bn),
        l.tx_hash.clone(),
        l.contract_address.clone(),
        fmt_str_list(&l.keys),
        fmt_str_list(&l.data),
    ];
    proof {
        assert(r.deep_view() =~= spec_log_row(*l));
    }
    r
}

/// All rows of `data`, ready for tabular serialization: the kind's header
/// first, then one row per record, in record order.
pub fn dataset_rows(data: &Data) -> (rows: Vec<Vec<String>>)
    ensures
        rows.deep_view() == spec_rows(data@),
{
    let mut rows: Vec<Vec<String>> = Vec::new();
    match data {
        Data::Blocks(v) => {
            rows.push(blocks_header());
            let mut i: usize = 0;
            while i < v.len()
                invariant
                    0 <= i <= v@.len(),
                    rows@.len() == i + 1,
                    rows.deep_view()[0] == spec_blocks_header(),
                    forall|m: int|
                        0 <= m < i ==> rows.deep_view()[m + 1] == spec_block_row(#[trigger] v@[m]),
                decreases v@.len() - i,
            {
                rows.push(block_row(&v[i]));
                i = i + 1;
            }
            proof {
                assert(rows.deep_view() =~= spec_rows(data@));
            }
        },
        Data::Transactions(v) => {
            rows.push(txs_header());
            let mut i: usize = 0;
            while i < v.len()
                invariant
                    0 <= i <= v@.len(),
                    rows@.len() == i + 1,
                    rows.deep_view()[0] == spec_txs_header(),
                    forall|m: int|
                        0 <= m < i ==> rows.deep_view()[m + 1] == spec_tx_row(
                            (#[trigger] v@[m]).0,
                            v@[m].1,
                        ),
                decreases v@.len() - i,
            {
                let entry = &v[i];
                rows.push(tx_row(&entry.0, entry.1));
                i = i + 1;
            }
            proof {
                assert(rows.deep_view() =~= spec_rows(data@));
            }
        },
        Data::Logs(v) => {
            rows.push(logs_header());
            let mut i: usize = 0;
            while i < v.len()
                invariant
                    0 <= i <= v@.len(),
                    rows@.len() == i + 1,
                    rows.deep_view()[0] == spec_logs_header(),
                    forall|m: int|
                        0 <= m < i ==> rows.deep_view()[m + 1] == spec_log_row(#[trigger] v@[m]),
                decreases v@.len() - i,
            {
                rows.push(log_row(&v[i]));
                i = i + 1;
            }
            proof {
                assert(rows.deep_view() =~= spec_rows(data@));
            }
        },
        Data::Empty => {
            proof {
                assert(rows.deep_view() =~= spec_rows(data@));
            }
        },
    }
    rows
}

} // verus!
