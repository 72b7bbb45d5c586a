//! Stock runs: every record's stock is exported as it is.

use vstd::prelude::*;
use crate::output::{WriteRow, WriteRowView};
use crate::sources::{Record, RecordValue, RecordValueView};
use crate::text::{copy_string, string_of};
use super::SourceReport;

verus! {

/// What the stock handler makes of a record's value: the stock itself as
/// the row to export, or an error for a value that is not a stock.
pub open spec fn stock_handled(v: RecordValueView) -> Result<WriteRowView, Seq<char>> {
    match v {
        RecordValueView::Stock(n) => Ok(WriteRowView::Stock(n)),
        RecordValueView::Price(_) => Err("StockHandler received a non-stock record"@),
    }
}

/// The stock handler passes every stock value through unchanged as the row
/// to export, zero and negative stock included.
pub proof fn law_stock_passes_through(n: int)
    ensures
        stock_handled(RecordValueView::Stock(n)) == Ok::<WriteRowView, Seq<char>>(WriteRowView::Stock(n)),
{
}

/// Counts the records of one source and passes their stock through.
pub struct StockHandler {
    record_count: usize,
}

impl StockHandler {
    pub closed spec fn count(&self) -> nat {
        self.record_count as nat
    }

    /// A handler for a fresh source: no record seen yet.
    pub fn new() -> (res: Self)
        ensures
            res.count() == 0,
    {
        StockHandler { record_count: 0 }
    }

    /// Counts the record and derives its export row.
    pub fn on_record(&mut self, record: &Record) -> (res: Result<Option<WriteRow>, String>)
        requires
            old(self).count() < usize::MAX,
        ensures
            final(self).count() == old(self).count() + 1,
            match stock_handled(record.value@) {
                Ok(row) => res matches Ok(Some(r)) && r@ == row,
                Err(m) => res matches Err(e) && e@ == m,
            },
    {
        self.record_count = self.record_count + 1;
        match &record.value {
            RecordValue::Stock(n) => Ok(Some(WriteRow::Stock { n: *n })),
            RecordValue::Price(_) => Err(string_of("StockHandler received a non-stock record")),
        }
    }

    /// The report of the source: its name, the records seen and no errors
    /// of the handler's own.
    pub fn finish(&mut self, source_name: &str) -> (res: SourceReport)
        ensures
            res.supplier@ == source_name@,
            res.records == old(self).count(),
            res.errors@.len() == 0,
            final(self).count() == old(self).count(),
    {
        SourceReport { supplier: string_of(source_name), records: self.record_count, errors: Vec::new() }
    }
}

impl Default for StockHandler {
    fn default() -> (res: Self)
        ensures
            res.count() == 0,
    {
        StockHandler::new()
    }
}

} // verus!
