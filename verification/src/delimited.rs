//! Delimited text as the reader of the `csv` crate splits it.

use vstd::prelude::*;

verus! {

/// A delimited text, split into fields: the header row and the data rows
/// behind it. A row that the reader refuses is held as nothing.
#[derive(Debug)]
pub struct Table {
    pub header: Option<Vec<String>>,
    pub records: Vec<Option<Vec<String>>>,
}

/// The rows into which the reader splits a text: the header, then the data
/// rows, each with its fields or as nothing where the reader refuses it.
pub uninterp spec fn delimited_table(text: Seq<char>) -> (
    Option<Seq<Seq<char>>>,
    Seq<Option<Seq<Seq<char>>>>,
);

impl DeepView for Table {
    type V = (Option<Seq<Seq<char>>>, Seq<Option<Seq<Seq<char>>>>);

    open spec fn deep_view(&self) -> Self::V {
        (self.header.deep_view(), self.records.deep_view())
    }
}

/// A reader of `csv::ReaderBuilder` with a header row over the bytes of the
/// text; `csv::Reader::headers` for the header and `csv::Reader::records`
/// for every row behind it. How a text splits is named, not described.
#[verifier::external_body]
pub(crate) fn read_table(text: &str) -> (table: Table)
    ensures
        table.deep_view() == delimited_table(text@),
{
    let mut reader = csv::ReaderBuilder::new().has_headers(true).from_reader(text.as_bytes());
    let header = reader.headers().ok().map(|row| row.iter().map(String::from).collect());
    let records = reader.records().map(
        |row| row.ok().map(|fields| fields.iter().map(String::from).collect()),
    ).collect();
    Table { header, records }
}

} // verus!
