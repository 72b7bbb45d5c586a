//! The semicolon-separated mass export files, one per kind.

use vstd::prelude::*;
use crate::text::{
    i64_to_string, int_text, is_digit, lacks, lemma_nat_text_digits, nat_text, parse_i64_spec, push_i64,
    push_str, string_of, IntErrorKind,
};
use super::{WriteRow, WriteRowView};

verus! {

/// A date as `%d.%m.%Y` writes it: two digits of the day, a dot, two
/// digits of the month, a dot, then a year of at least four characters.
pub open spec fn date_shaped(d: Seq<char>) -> bool {
    &&& d.len() >= 10
    &&& '0' <= d[0] <= '9' && '0' <= d[1] <= '9' && d[2] == '.'
    &&& '0' <= d[3] <= '9' && '0' <= d[4] <= '9' && d[5] == '.'
}

/// Today's date as `chrono::Local::now().format("%d.%m.%Y")` renders it.
/// The date depends on the clock, so only its shape is stated: a
/// zero-padded two-digit day, a dot, a zero-padded two-digit month, a dot,
/// then the year.
#[verifier::external_body]
fn today_text() -> (res: String)
    ensures
        date_shaped(res@),
{
    chrono::Local::now().format("%d.%m.%Y").to_string()
}

/// The row of a stock export: `SOURCE;EAN;STOCK;DATE`, the EAN column
/// holding `{prefix} - {ean}`.
pub open spec fn stock_row_spec(
    date: Seq<char>,
    ean: Seq<char>,
    n: int,
    shortname: Seq<char>,
    prefix: Seq<char>,
) -> Seq<char> {
    shortname + ";"@ + prefix + " - "@ + ean + ";"@ + int_text(n) + ";"@ + date
}

/// Every stock row ends with the writer's date: the date is fixed when the
/// writer is made, so all rows of one run carry the same date.
pub proof fn law_stock_rows_end_with_the_date(
    date: Seq<char>,
    ean: Seq<char>,
    n: int,
    shortname: Seq<char>,
    prefix: Seq<char>,
)
    ensures
        ({
            let row = stock_row_spec(date, ean, n, shortname, prefix);
            row.len() >= date.len() && row.skip(row.len() - date.len()) == date
        }),
{
    let row = stock_row_spec(date, ean, n, shortname, prefix);
    let head = shortname + ";"@ + prefix + " - "@ + ean + ";"@ + int_text(n) + ";"@;
    assert(row == head + date);
    assert(row.skip(head.len() as int) =~= date);
}

/// The row of a price export: `EAN;BUY_PRICE;SELL_PRICE;FIX_PRICE`, each
/// price as its decimal literal.
pub open spec fn price_row_spec(ean: Seq<char>, buy: Seq<char>, sell: Seq<char>, fix: Seq<char>) -> Seq<
    char,
> {
    ean + ";"@ + buy + ";"@ + sell + ";"@ + fix
}

/// The STOCK column of a stock row holds the stock in decimal, whatever its
/// value, zero included: when the short name, the prefix and the EAN hold
/// no `;`, the row's first `;` ends the SOURCE column, its second the EAN
/// column, and the text up to its third reads back as the stock.
pub proof fn law_stock_column_reads_back(
    date: Seq<char>,
    ean: Seq<char>,
    n: i64,
    shortname: Seq<char>,
    prefix: Seq<char>,
)
    requires
        lacks(shortname, ';'),
        lacks(prefix, ';'),
        lacks(ean, ';'),
    ensures
        ({
            let row = stock_row_spec(date, ean, n as int, shortname, prefix);
            let first = shortname.len() as int;
            let second = first + 1 + prefix.len() + 3 + ean.len();
            let third = second + 1 + int_text(n as int).len();
            &&& third < row.len()
            &&& row[first] == ';' && lacks(row.take(first), ';')
            &&& row[second] == ';' && lacks(row.subrange(first + 1, second), ';')
            &&& row[third] == ';' && lacks(row.subrange(second + 1, third), ';')
            &&& parse_i64_spec(row.subrange(second + 1, third)) == Ok::<int, IntErrorKind>(n as int)
        }),
{
    let row = stock_row_spec(date, ean, n as int, shortname, prefix);
    let t = int_text(n as int);
    let first = shortname.len() as int;
    let second = first + 1 + prefix.len() + 3 + ean.len();
    let third = second + 1 + t.len();
    let column = prefix + " - "@ + ean;
    reveal_strlit(";");
    reveal_strlit(" - ");
    assert(row =~= shortname + seq![';'] + column + seq![';'] + t + seq![';'] + date);
    assert(row.take(first) =~= shortname);
    assert(row.subrange(first + 1, second) =~= column);
    assert(row.subrange(second + 1, third) =~= t);
    let m: nat = if n < 0 { (-n) as nat } else { n as nat };
    lemma_nat_text_digits(m);
    assert(lacks(t, ';')) by {
        assert forall|i: int| 0 <= i < t.len() implies t[i] != ';' by {
            if n < 0 {
                if i > 0 {
                    assert(t[i] == nat_text(m)[i - 1]);
                    assert(is_digit(nat_text(m)[i - 1]));
                }
            } else {
                assert(is_digit(nat_text(m)[i]));
            }
        }
    }
    assert(lacks(column, ';')) by {
        assert forall|i: int| 0 <= i < column.len() implies column[i] != ';' by {
            if i < prefix.len() {
                assert(column[i] == prefix[i]);
            } else if i < prefix.len() + 3 {
                assert(column[i] == " - "@[i - prefix.len()]);
            } else {
                assert(column[i] == ean[i - prefix.len() - 3]);
            }
        }
    }
    crate::text::law_parse_int_text(n);
}

/// Formats stock rows; created once per run with that run's date.
pub struct StockCsvWriter {
    date: String,
}

impl StockCsvWriter {
    pub closed spec fn date(&self) -> Seq<char> {
        self.date@
    }

    /// A writer for today's date.
    pub fn create() -> (res: Self)
        ensures
            date_shaped(res.date()),
    {
        StockCsvWriter { date: today_text() }
    }

    /// A writer for the given date.
    pub fn with_date(date: &str) -> (res: Self)
        ensures
            res.date() == date@,
    {
        StockCsvWriter { date: string_of(date) }
    }

    /// The name of the stock export file in the output folder.
    pub fn file_name() -> (res: &'static str)
        ensures
            res@ == "massDataStock.csv"@,
    {
        "massDataStock.csv"
    }

    /// The header line of the stock export.
    pub fn header() -> (res: &'static str)
        ensures
            res@ == "SOURCE;EAN;STOCK;DATE"@,
    {
        "SOURCE;EAN;STOCK;DATE"
    }

    /// The line for one stock row; a price row is refused.
    pub fn format_record(&self, ean: &str, row: &WriteRow, shortname: &str, prefix: &str) -> (res:
        Result<String, String>)
        ensures
            match row@ {
                WriteRowView::Stock(n) => res matches Ok(line) && line@ == stock_row_spec(
                    self.date(),
                    ean@,
                    n,
                    shortname@,
                    prefix@,
                ),
                WriteRowView::Price(..) => res matches Err(e) && e@
                    == "StockCsvWriter received a non-stock record"@,
            },
    {
        match row {
            WriteRow::Stock { n } => {
                let mut out = string_of(shortname);
                push_str(&mut out, ";");
                push_str(&mut out, prefix);
                push_str(&mut out, " - ");
                push_str(&mut out, ean);
                push_str(&mut out, ";");
                push_i64(&mut out, *n);
                push_str(&mut out, ";");
                push_str(&mut out, self.date.as_str());
                Ok(out)
            },
            WriteRow::Price { .. } => Err(string_of("StockCsvWriter received a non-stock record")),
        }
    }
}

/// Formats price rows; created once per run with that run's date.
pub struct PriceCsvWriter {
    date: String,
}

impl PriceCsvWriter {
    pub closed spec fn date(&self) -> Seq<char> {
        self.date@
    }

    /// A writer for today's date.
    pub fn create() -> (res: Self)
        ensures
            date_shaped(res.date()),
    {
        PriceCsvWriter { date: today_text() }
    }

    /// The name of the price export file in the output folder.
    pub fn file_name() -> (res: &'static str)
        ensures
            res@ == "massDataPrice.csv"@,
    {
        "massDataPrice.csv"
    }

    /// The header line of the price export.
    pub fn header() -> (res: &'static str)
        ensures
            res@ == "EAN;BUY_PRICE;SELL_PRICE;FIX_PRICE"@,
    {
        "EAN;BUY_PRICE;SELL_PRICE;FIX_PRICE"
    }

    /// The line for one price row, in the columns of the header; a stock
    /// row is refused.
    pub fn format_record(&self, ean: &str, row: &WriteRow, shortname: &str, prefix: &str) -> (res:
        Result<String, String>)
        ensures
            match row@ {
                WriteRowView::Price(buy, sell, fix) => res matches Ok(line) && line@ == price_row_spec(
                    ean@,
                    buy,
                    sell,
                    fix,
                ),
                WriteRowView::Stock(_) => res matches Err(e) && e@
                    == "PriceCsvWriter received a non-price record"@,
            },
    {
        match row {
            WriteRow::Price { buy, sell, fix } => {
                let mut out = string_of(ean);
                push_str(&mut out, ";");
                push_str(&mut out, buy.as_str());
                push_str(&mut out, ";");
                push_str(&mut out, sell.as_str());
                push_str(&mut out, ";");
                push_str(&mut out, fix.as_str());
                Ok(out)
            },
            WriteRow::Stock { .. } => Err(string_of("PriceCsvWriter received a non-price record")),
        }
    }
}

} // verus!
