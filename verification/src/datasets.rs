//! The tagged dataset container and its aggregation operations.
//!
//! A `Data` value carries the records of one dataset kind. Same-kind
//! datasets can be extended (concatenated); a kind mismatch leaves the
//! receiver unchanged — a deliberate quirk, not an error.
//! Records can be put in block-number order with a stable sort.

use crate::text::str_eq;
use vstd::prelude::*;

verus! {

/// Which dataset a run extracts.
#[derive(Clone, Copy, Debug, PartialEq, Eq, Structural)]
pub enum Datasets {
    Blocks,
    Transactions,
    Logs,
    Empty,
}

impl Datasets {
    /// The dataset's name as it appears in output filenames.
    pub open spec fn spec_name(self) -> Seq<char> {
        match self {
            Datasets::Blocks => "blocks"@,
            Datasets::Transactions => "transactions"@,
            Datasets::Logs => "logs"@,
            Datasets::Empty => ""@,
        }
    }

    pub fn to_name(self) -> (r: &'static str)
        ensures
            r@ == self.spec_name(),
    {
        match self {
            Datasets::Blocks => "blocks",
            Datasets::Transactions => "transactions",
            Datasets::Logs => "logs",
            Datasets::Empty => "",
        }
    }
}

/// The dataset kind selected by the `dataset` argument; anything
/// unrecognized selects the empty kind and the run extracts nothing.
pub open spec fn spec_dataset_of_arg(s: Seq<char>) -> Datasets {
    if s == "blocks"@ || s == "block"@ {
        Datasets::Blocks
    } else if s == "transactions"@ || s == "transaction"@ {
        Datasets::Transactions
    } else if s == "logs"@ || s == "events"@ || s == "log"@ {
        Datasets::Logs
    } else {
        Datasets::Empty
    }
}

pub fn dataset_of_arg(s: &str) -> (d: Datasets)
    ensures
        d == spec_dataset_of_arg(s@),
{
    if str_eq(s, "blocks") || str_eq(s, "block") {
        Datasets::Blocks
    } else if str_eq(s, "transactions") || str_eq(s, "transaction") {
        Datasets::Transactions
    } else if str_eq(s, "logs") || str_eq(s, "events") || str_eq(s, "log") {
        Datasets::Logs
    } else {
        Datasets::Empty
    }
}

/// One fetched block header. Hash and address fields carry lowercase
/// `0x`-prefixed hex; the gas prices carry the decimal text of the
/// source field values.
pub struct BlockRecord {
    pub status: String,
    pub block_hash: String,
    pub parent_hash: String,
    pub block_number: u64,
    pub new_root: String,
    pub timestamp: u64,
    pub sequencer_address: String,
    pub l1_gas_price_in_fri: String,
    pub l1_gas_price_in_wei: String,
    pub starknet_version: String,
    pub tx_count: u64,
}

/// One fetched transaction, by concrete variant and version. Only the
/// fields that the variant actually carries are present; the tabular
/// schema writes the literal text `None` for the rest.
pub enum TxRecord {
    InvokeV0 { tx_hash: String },
    InvokeV1 { tx_hash: String, nonce: String, sender_address: String },
    InvokeV3 { tx_hash: String, nonce: String, sender_address: String },
    L1Handler { tx_hash: String, version: String, nonce: String },
    DeclareV0 { tx_hash: String, sender_address: String },
    DeclareV1 { tx_hash: String, nonce: String, sender_address: String },
    DeclareV2 { tx_hash: String, nonce: String, sender_address: String },
    DeclareV3 { tx_hash: String, nonce: String, sender_address: String },
    Deploy { tx_hash: String, version: String },
    DeployAccountV1 { tx_hash: String, nonce: String },
    DeployAccountV3 { tx_hash: String, nonce: String },
}

/// One fetched event log. The block number is absent for logs the source
/// reports without one; the schema writes `0` for those.
pub struct LogRecord {
    pub block_number: Option<u64>,
    pub tx_hash: String,
    pub contract_address: String,
    pub keys: Vec<String>,
    pub data: Vec<String>,
}

/// A record type with a block-number sort key.
pub trait HasBlockKey: Sized {
    spec fn spec_key(&self) -> u64;

    fn key(&self) -> (k: u64)
        ensures
            k == self.spec_key(),
    ;
}

impl HasBlockKey for BlockRecord {
    open spec fn spec_key(&self) -> u64 {
        self.block_number
    }

    fn key(&self) -> u64 {
        self.block_number
    }
}

impl HasBlockKey for (TxRecord, u64) {
    open spec fn spec_key(&self) -> u64 {
        self.1
    }

    fn key(&self) -> u64 {
        self.1
    }
}

impl HasBlockKey for LogRecord {
    open spec fn spec_key(&self) -> u64 {
        if self.block_number is Some {
            self.block_number->0
        } else {
            0
        }
    }

    fn key(&self) -> u64 {
        match self.block_number {
            Some(n) => n,
            None => 0,
        }
    }
}

/// The records with block key `k`, in order.
pub open spec fn key_pred<T: HasBlockKey>(k: u64) -> spec_fn(T) -> bool {
    |t: T| t.spec_key() == k
}

pub open spec fn key_filter<T: HasBlockKey>(s: Seq<T>, k: u64) -> Seq<T> {
    s.filter(key_pred(k))
}

pub open spec fn sorted_by_key<T: HasBlockKey>(s: Seq<T>) -> bool {
    forall|i: int, j: int|
        0 <= i < j < s.len() ==> (#[trigger] s[i]).spec_key() <= (#[trigger] s[j]).spec_key()
}

/// Inserting `x` below a strictly-greater suffix keeps, for every key,
/// the same records in the same order as appending it at the back.
proof fn lemma_stable_insert<T: HasBlockKey>(r: Seq<T>, x: T, j: int)
    requires
        0 <= j <= r.len(),
        forall|m: int| j <= m < r.len() ==> (#[trigger] r[m]).spec_key() > x.spec_key(),
    ensures
        forall|k: u64| #[trigger] key_filter(r.insert(j, x), k) == key_filter(r.push(x), k),
{
    let a = r.take(j);
    let b = r.skip(j);
    assert forall|k: u64| #[trigger] key_filter(r.insert(j, x), k) == key_filter(r.push(x), k) by {
        let pred = key_pred::<T>(k);
        assert(r.insert(j, x) =~= a + (seq![x] + b));
        assert(r.push(x) =~= (a + b) + seq![x]);
        Seq::filter_distributes_over_add(a, seq![x] + b, pred);
        Seq::filter_distributes_over_add(seq![x], b, pred);
        Seq::filter_distributes_over_add(a + b, seq![x], pred);
        Seq::filter_distributes_over_add(a, b, pred);
        if k == x.spec_key() {
            b.lemma_all_neg_filter_empty(pred);
            assert(b.filter(pred) =~= Seq::<T>::empty());
            assert(a.filter(pred) + (seq![x].filter(pred) + b.filter(pred)) =~= a.filter(pred)
                + b.filter(pred) + seq![x].filter(pred));
        } else {
            reveal(Seq::filter);
            assert(!pred(x));
            assert(seq![x].drop_last() =~= Seq::<T>::empty());
            assert(Seq::<T>::empty().filter(pred) =~= Seq::<T>::empty());
            assert(seq![x].filter(pred) =~= Seq::<T>::empty());
            assert(a.filter(pred) + (seq![x].filter(pred) + b.filter(pred)) =~= a.filter(pred)
                + b.filter(pred) + seq![x].filter(pred));
        }
    }
}

/// Stable insertion sort by block key: the result is ordered by key, is a
/// rearrangement of the input, and keeps the input's relative order among
/// records of equal key.
pub fn sort_by_block_key<T: HasBlockKey>(input: Vec<T>) -> (r: Vec<T>)
    ensures
        sorted_by_key(r@),
        r@.to_multiset() == input@.to_multiset(),
        r@.len() == input@.len(),
        forall|k: u64| #[trigger] key_filter(r@, k) == key_filter(input@, k),
{
    let ghost orig: Seq<T> = input@;
    let mut input = input;
    let mut result: Vec<T> = Vec::new();
    proof {
        assert(orig.take(0) =~= Seq::empty());
        assert(result@.to_multiset() =~= orig.take(0).to_multiset());
        assert forall|k: u64| #[trigger] key_filter(result@, k) == key_filter(
            orig.take(0),
            k,
        ) by {
            reveal(Seq::filter);
        }
    }
    while input.len() > 0
        invariant
            result@.len() + input@.len() == orig.len(),
            input@ == orig.skip(result@.len() as int),
            sorted_by_key(result@),
            result@.to_multiset() == orig.take(result@.len() as int).to_multiset(),
            forall|k: u64| #[trigger] key_filter(result@, k) == key_filter(
                orig.take(result@.len() as int),
                k,
            ),
        decreases input@.len(),
    {
        let ghost i: int = result@.len() as int;
        let x = input.remove(0);
        proof {
            assert(input@ =~= orig.skip(i + 1));
            assert(x == orig[i]);
        }
        let kx = x.key();
        let mut j: usize = result.len();
        while j > 0 && result[j - 1].key() > kx
            invariant
                0 <= j <= result@.len(),
                kx == x.spec_key(),
                forall|m: int| j <= m < result@.len() ==> (#[trigger] result@[m]).spec_key() > kx,
                sorted_by_key(result@),
            decreases j,
        {
            j = j - 1;
        }
        proof {
            assert forall|m: int| 0 <= m < j implies (#[trigger] result@[m]).spec_key() <= kx by {
                assert(result@[m].spec_key() <= result@[j - 1].spec_key() || m == j - 1);
            }
        }
        let ghost before: Seq<T> = result@;
        result.insert(j, x);
        proof {
            lemma_stable_insert(before, x, j as int);
            vstd::seq_lib::to_multiset_insert(before, j as int, x);
            vstd::seq_lib::to_multiset_build(orig.take(i), x);
            assert(orig.take(i + 1) =~= orig.take(i).push(x));
            assert(result@ == before.insert(j as int, x));
            assert(sorted_by_key(result@)) by {
                assert(forall|m: int|
                    0 <= m < result@.len() ==> result@[m] == (if m < j {
                        before[m]
                    } else if m == j {
                        x
                    } else {
                        before[m - 1]
                    }));
            }
            assert forall|k: u64| #[trigger] key_filter(result@, k) == key_filter(
                orig.take(i + 1),
                k,
            ) by {
                assert(key_filter(before.insert(j as int, x), k) == key_filter(
                    before.push(x),
                    k,
                ));
                assert(key_filter(before, k) == key_filter(orig.take(i), k));
                assert(before.push(x) =~= before + seq![x]);
                assert(orig.take(i + 1) =~= orig.take(i) + seq![x]);
                Seq::filter_distributes_over_add(before, seq![x], key_pred::<T>(k));
                Seq::filter_distributes_over_add(orig.take(i), seq![x], key_pred::<T>(k));
            }
        }
    }
    proof {
        assert(orig.take(result@.len() as int) =~= orig);
        result@.to_multiset_ensures();
        orig.to_multiset_ensures();
    }
    result
}

/// The mathematical value of a dataset: its kind and its record sequence.
pub enum DataModel {
    Blocks(Seq<BlockRecord>),
    Transactions(Seq<(TxRecord, u64)>),
    Logs(Seq<LogRecord>),
    Empty,
}

impl DataModel {
    pub open spec fn kind(self) -> Datasets {
        match self {
            DataModel::Blocks(_) => Datasets::Blocks,
            DataModel::Transactions(_) => Datasets::Transactions,
            DataModel::Logs(_) => Datasets::Logs,
            DataModel::Empty => Datasets::Empty,
        }
    }

    /// How many records the dataset holds.
    pub open spec fn dlen(self) -> nat {
        match self {
            DataModel::Blocks(s) => s.len(),
            DataModel::Transactions(s) => s.len(),
            DataModel::Logs(s) => s.len(),
            DataModel::Empty => 0,
        }
    }
}

/// What extending `a` with `b` yields: concatenation on matching kinds,
/// `a` unchanged on a mismatch.
pub open spec fn extend_spec(a: DataModel, b: DataModel) -> DataModel {
    match (a, b) {
        (DataModel::Blocks(x), DataModel::Blocks(y)) => DataModel::Blocks(x + y),
        (DataModel::Transactions(x), DataModel::Transactions(y)) => DataModel::Transactions(x + y),
        (DataModel::Logs(x), DataModel::Logs(y)) => DataModel::Logs(x + y),
        (DataModel::Empty, DataModel::Empty) => DataModel::Empty,
        _ => a,
    }
}

/// Extending same-kind datasets adds their record counts.
pub proof fn lemma_extend_len(a: DataModel, b: DataModel)
    requires
        a.kind() == b.kind(),
    ensures
        extend_spec(a, b).dlen() == a.dlen() + b.dlen(),
{
}

/// The records fetched for one segment or one whole run, tagged by kind.
pub enum Data {
    Blocks(Vec<BlockRecord>),
    Transactions(Vec<(TxRecord, u64)>),
    Logs(Vec<LogRecord>),
    Empty,
}

impl View for Data {
    type V = DataModel;

    open spec fn view(&self) -> DataModel {
        match self {
            Data::Blocks(v) => DataModel::Blocks(v@),
            Data::Transactions(v) => DataModel::Transactions(v@),
            Data::Logs(v) => DataModel::Logs(v@),
            Data::Empty => DataModel::Empty,
        }
    }
}

impl Data {
    /// A dataset of the requested kind with no records.
    pub fn empty(kind: Datasets) -> (d: Data)
        ensures
            d@ == (match kind {
                Datasets::Blocks => DataModel::Blocks(Seq::<BlockRecord>::empty()),
                Datasets::Transactions => DataModel::Transactions(
                    Seq::<(TxRecord, u64)>::empty(),
                ),
                Datasets::Logs => DataModel::Logs(Seq::<LogRecord>::empty()),
                Datasets::Empty => DataModel::Empty,
            }),
            d@.kind() == kind,
            d@.dlen() == 0,
    {
        let d = match kind {
            Datasets::Blocks => Data::Blocks(Vec::new()),
            Datasets::Transactions => Data::Transactions(Vec::new()),
            Datasets::Logs => Data::Logs(Vec::new()),
            Datasets::Empty => Data::Empty,
        };
        d
    }

    /// How many records the dataset holds.
    pub fn len(&self) -> (n: usize)
        ensures
            n == self@.dlen(),
    {
        match self {
            Data::Blocks(v) => v.len(),
            Data::Transactions(v) => v.len(),
            Data::Logs(v) => v.len(),
            Data::Empty => 0,
        }
    }

    /// Appends `other`'s records when the kinds match; a mismatch leaves
    /// `self` unchanged; mixing kinds is deliberately a quirk, not an error.
    pub fn extend(&mut self, other: Data)
        ensures
            final(self)@ == extend_spec(old(self)@, other@),
            old(self)@.kind() == other@.kind() ==> final(self)@.dlen() == old(self)@.dlen()
                + other@.dlen(),
    {
        match (self, other) {
            (Data::Blocks(v), Data::Blocks(mut w)) => {
                v.append(&mut w);
            },
            (Data::Transactions(v), Data::Transactions(mut w)) => {
                v.append(&mut w);
            },
            (Data::Logs(v), Data::Logs(mut w)) => {
                v.append(&mut w);
            },
            _ => {},
        }
    }

    /// Stable sort of the records by block number: the block's own number
    /// for block records, the carried block number for transactions, and
    /// the log's block number (0 when absent) for logs.
    pub fn sort_by_block(&mut self)
        ensures
            final(self)@.kind() == old(self)@.kind(),
            ({
                let a = old(self)@;
                let b = final(self)@;
                match (a, b) {
                    (DataModel::Blocks(x), DataModel::Blocks(y)) => sorted_by_key(y)
                        && y.to_multiset() == x.to_multiset() && (forall|k: u64|
                        #[trigger] key_filter(y, k) == key_filter(x, k)),
                    (DataModel::Transactions(x), DataModel::Transactions(y)) => sorted_by_key(y)
                        && y.to_multiset() == x.to_multiset() && (forall|k: u64|
                        #[trigger] key_filter(y, k) == key_filter(x, k)),
                    (DataModel::Logs(x), DataModel::Logs(y)) => sorted_by_key(y)
                        && y.to_multiset() == x.to_multiset() && (forall|k: u64|
                        #[trigger] key_filter(y, k) == key_filter(x, k)),
                    (DataModel::Empty, DataModel::Empty) => true,
                    _ => false,
                }
            }),
    {
        let mut taken = Data::Empty;
        core::mem::swap(self, &mut taken);
        match taken {
            Data::Blocks(v) => {
                *self = Data::Blocks(sort_by_block_key(v));
            },
            Data::Transactions(v) => {
                *self = Data::Transactions(sort_by_block_key(v));
            },
            Data::Logs(v) => {
                *self = Data::Logs(sort_by_block_key(v));
            },
            Data::Empty => {
                *self = Data::Empty;
            },
        }
    }
}

} // verus!
