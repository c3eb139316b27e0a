//! CSV encoding of a dataset's rows.
//!
//! The rows built by the schema module are handed, one by one, to an
//! in-memory CSV writer of the `csv` crate, and the encoded bytes go back
//! to the caller, who writes them wherever the run's output lives. Within
//! one dataset every row has its kind's column count, and the sink is a
//! byte vector, so the encoding cannot fail: the writer rejects a record
//! only when its width differs from the first record's, and writing into
//! memory never errors.

use crate::datasets::Data;
use crate::schema::{dataset_rows, lemma_rows_uniform_width, spec_rows};
use vstd::prelude::*;

verus! {

/// An in-memory CSV writer of the `csv` crate. The writer type itself
/// cannot be declared to the verifier (its type parameter is bound by
/// `std::io::Write`), so it is held opaquely in this struct instead.
#[verifier::external_body]
pub struct CsvEncoder {
    inner: csv::Writer<Vec<u8>>,
}

/// The records handed to a CSV encoder so far, in order.
pub uninterp spec fn writer_rows(w: CsvEncoder) -> Seq<Seq<Seq<char>>>;

/// The bytes the `csv` crate encodes a record list to, in its default
/// configuration: comma-delimited fields, quoted where needed, one `\n`
/// terminator per record.
pub uninterp spec fn csv_bytes(rows: Seq<Seq<Seq<char>>>) -> Seq<u8>;

/// Relies on csv::Writer::from_writer: a fresh writer over an in-memory
/// buffer has had no records handed to it.
#[verifier::external_body]
fn new_csv_writer() -> (w: CsvEncoder)
    ensures
        writer_rows(w) == Seq::<Seq<Seq<char>>>::empty(),
{
    CsvEncoder { inner: csv::Writer::from_writer(Vec::new()) }
}

/// Relies on csv::Writer::write_record, and on writes into a byte vector
/// never failing: with the default non-flexible configuration the only
/// other failure is a record whose width differs from the first record's,
/// which the precondition rules out, so the record's fields are appended,
/// in order, to what the writer has been handed.
#[verifier::external_body]
fn csv_write_row(w: &mut CsvEncoder, row: &Vec<String>)
    requires
        writer_rows(*old(w)).len() == 0 || row@.len() == writer_rows(*old(w))[0].len(),
    ensures
        writer_rows(*final(w)) == writer_rows(*old(w)).push(row.deep_view()),
{
    w.inner.write_record(row).expect("a record as wide as the first is never rejected");
}

/// Relies on csv::Writer::into_inner, and on flushing into a byte vector
/// never failing: the buffer holds the encoding of exactly the records
/// handed to the writer, and a writer that was handed nothing has an
/// empty buffer.
#[verifier::external_body]
fn csv_finish(w: CsvEncoder) -> (r: Vec<u8>)
    ensures
        r@ == csv_bytes(writer_rows(w)),
        writer_rows(w) == Seq::<Seq<Seq<char>>>::empty() ==> r@ == Seq::<u8>::empty(),
{
    w.inner.into_inner().expect("flushing into memory never fails")
}

/// Serializes one dataset: its kind's header row, then one row per record
/// in record order, CSV-encoded. Every row of a dataset has its kind's
/// column count, so encoding always succeeds; the empty kind yields an
/// empty byte string.
pub fn encode_dataset(data: &Data) -> (r: Vec<u8>)
    ensures
        r@ == csv_bytes(spec_rows(data@)),
        data@ is Empty ==> r@ == Seq::<u8>::empty(),
{
    let rows = dataset_rows(data);
    let mut w = new_csv_writer();
    let mut i: usize = 0;
    proof {
        lemma_rows_uniform_width(data@);
        assert(rows.deep_view().take(0) =~= Seq::<Seq<Seq<char>>>::empty());
    }
    while i < rows.len()
        invariant
            0 <= i <= rows@.len(),
            rows.deep_view() == spec_rows(data@),
            rows.deep_view().len() == rows@.len(),
            forall|k: int|
                0 <= k < spec_rows(data@).len() ==> (#[trigger] spec_rows(data@)[k]).len()
                    == spec_rows(data@)[0].len(),
            writer_rows(w) == rows.deep_view().take(i as int),
        decreases rows@.len() - i,
    {
        proof {
            assert(rows.deep_view()[i as int].len() == rows@[i as int]@.len());
            if i > 0 {
                assert(writer_rows(w)[0] == rows.deep_view()[0]);
            }
        }
        csv_write_row(&mut w, &rows[i]);
        i = i + 1;
        proof {
            assert(rows.deep_view().take(i as int) =~= rows.deep_view().take(i - 1).push(
                rows@[i - 1].deep_view(),
            ));
        }
    }
    proof {
        assert(rows.deep_view().take(rows@.len() as int) =~= rows.deep_view());
        if data@ is Empty {
            assert(writer_rows(w) =~= Seq::<Seq<Seq<char>>>::empty());
        }
    }
    csv_finish(w)
}

} // verus!
