//! Export rows and the writers that receive them. What a row holds is
//! decided by a handler; a writer only serializes what it is handed.

pub mod csv;

use vstd::prelude::*;
use crate::sources::DecimalText;

verus! {

/// The derived, ready-to-export shape of one record.
pub enum WriteRow {
    Stock { n: i64 },
    Price { buy: DecimalText, sell: DecimalText, fix: DecimalText },
}

pub enum WriteRowView {
    Stock(int),
    Price(Seq<char>, Seq<char>, Seq<char>),
}

impl View for WriteRow {
    type V = WriteRowView;

    open spec fn view(&self) -> WriteRowView {
        match self {
            WriteRow::Stock { n } => WriteRowView::Stock(*n as int),
            WriteRow::Price { buy, sell, fix } => WriteRowView::Price(buy@, sell@, fix@),
        }
    }
}

/// One implementor per output format. Writing may fail for reasons of the
/// medium; the failure comes back as its message.
pub trait OutputWriter {
    fn write_record(&mut self, ean: &str, row: &WriteRow, shortname: &str, prefix: &str) -> Result<
        (),
        String,
    >;
}

/// One row handed to a writer, with what the writer answered.
pub struct ExportEntry {
    pub ean: Seq<char>,
    pub row: WriteRowView,
    pub shortname: Seq<char>,
    pub prefix: Seq<char>,
    /// The writer's error message, if it failed.
    pub failure: Option<Seq<char>>,
}

/// A writer together with the account of every row handed to it.
pub struct Exporter<W: OutputWriter> {
    writer: W,
    log: Ghost<Seq<ExportEntry>>,
}

impl<W: OutputWriter> Exporter<W> {
    /// The rows handed to the writer so far, in order.
    pub closed spec fn log(&self) -> Seq<ExportEntry> {
        self.log@
    }

    /// The writer the rows are handed to.
    pub closed spec fn writer(&self) -> W {
        self.writer
    }

    pub fn new(writer: W) -> (res: Self)
        ensures
            res.log() == Seq::<ExportEntry>::empty(),
            res.writer() == writer,
    {
        Exporter { writer, log: Ghost(Seq::empty()) }
    }

    /// Hands one row to the writer and records it with the writer's answer.
    pub fn write_record(&mut self, ean: &str, row: &WriteRow, shortname: &str, prefix: &str) -> (res:
        Result<(), String>)
        ensures
            final(self).log() == old(self).log().push(
                ExportEntry {
                    ean: ean@,
                    row: row@,
                    shortname: shortname@,
                    prefix: prefix@,
                    failure: match res {
                        Ok(()) => None,
                        Err(e) => Some(e@),
                    },
                },
            ),
    {
        let res = self.writer.write_record(ean, row, shortname, prefix);
        let ghost entry = ExportEntry {
            ean: ean@,
            row: row@,
            shortname: shortname@,
            prefix: prefix@,
            failure: match &res {
                Ok(()) => None,
                Err(e) => Some(e@),
            },
        };
        self.log = Ghost(self.log@.push(entry));
        res
    }

    /// The writer, for the program to finish it.
    pub fn into_writer(self) -> (res: W)
        ensures
            res == self.writer(),
    {
        self.writer
    }
}

} // verus!
