//! The adapter for delimited text: a header row, then one row for each
//! metric of an assessment, the metric already on the scale from 0 to 100.

use std::collections::HashSet;
use vstd::prelude::*;
use vstd::string::StringExecFns;
use crate::dates::{date_written, now_rfc3339, parse_date, CalendarDate};
use crate::delimited::{delimited_table, read_table, Table};
use crate::grouping::{
    entry_key, is_grouping, lemma_grouping_merges, lemma_grouping_skips,
    lemma_merge_keeps_stamp, merge_row, stamped, Entry,
};
use crate::model::{
    metadata_at, metadata_block, report_failures, score_of, validity, NormalizationError,
    NormalizeData, NormalizeScore, Provider, ScoreView,
};
use crate::text::{decimal_i64, parse_i64, same_text, trim_text, trimmed};

verus! {

/// The adapter for delimited text: the rows of one batch, each the fields of
/// one data row by the names of the header, and the positions of those that
/// failed validation.
#[derive(Debug)]
pub struct ProviderHandler {
    pub data: Vec<Vec<(String, String)>>,
    pub error_index: HashSet<usize>,
}

/// The name under which the adapter signs its records.
pub open spec fn provider_name() -> Seq<char> {
    "provider_c"@
}

/// The name of the format that the adapter reads.
pub open spec fn format_name() -> Seq<char> {
    "csv"@
}

/// The message of a text without a header row: one that the reader cannot
/// read, or one without a single field, as the reader gives it for a text
/// that holds no row at all.
pub open spec fn header_message() -> Seq<char> {
    "Missing header row"@
}

/// The message of a text with a data row that the reader refuses or that has
/// not as many fields as the header.
pub open spec fn count_message() -> Seq<char> {
    "Field count is not equal to header count"@
}

/// The format in which the date of an assessment is written.
pub open spec fn date_format() -> Seq<char> {
    "%Y-%m-%d"@
}

/// The position of the last field of the given name among the first `n`.
pub open spec fn field_position(
    row: Seq<(Seq<char>, Seq<char>)>,
    name: Seq<char>,
    n: int,
) -> Option<int>
    decreases n,
{
    if n <= 0 || n > row.len() {
        None
    } else if row[n - 1].0 == name {
        Some(n - 1)
    } else {
        field_position(row, name, n - 1)
    }
}

/// The value of the field of the given name. Where the header names a field
/// twice, the later column counts.
pub open spec fn field(row: Seq<(Seq<char>, Seq<char>)>, name: Seq<char>) -> Option<Seq<char>> {
    match field_position(row, name, row.len() as int) {
        Some(i) => Some(row[i].1),
        None => None,
    }
}

/// The data row has as many fields as the header.
pub open spec fn fits(header: Seq<Seq<char>>, record: Option<Seq<Seq<char>>>) -> bool {
    record matches Some(fields) && fields.len() == header.len()
}

/// The row that a data row makes under a header: each field, without the
/// white space around it, by the name of its column.
pub open spec fn row_of(header: Seq<Seq<char>>, fields: Seq<Seq<char>>) -> Seq<
    (Seq<char>, Seq<char>),
> {
    Seq::new(header.len(), |i: int| (header[i], trimmed(fields[i])))
}

/// The rows of a table, or the message of the parse failure.
pub open spec fn rows_of_table(
    table: (Option<Seq<Seq<char>>>, Seq<Option<Seq<Seq<char>>>>),
) -> Result<Seq<Seq<(Seq<char>, Seq<char>)>>, Seq<char>> {
    match table.0 {
        Some(header) => if header.len() == 0 {
            Err(header_message())
        } else if forall|i: int| 0 <= i < table.1.len() ==> fits(header, #[trigger] table.1[i]) {
            Ok(Seq::new(table.1.len(), |i: int| row_of(header, table.1[i]->0)))
        } else {
            Err(count_message())
        },
        None => Err(header_message()),
    }
}

/// The rows that a text writes, or the message of the parse failure.
pub open spec fn rows_of_text(text: Seq<char>) -> Result<
    Seq<Seq<(Seq<char>, Seq<char>)>>,
    Seq<char>,
> {
    rows_of_table(delimited_table(text))
}

/// The row has a field of the given name that is not empty.
pub open spec fn filled(row: Seq<(Seq<char>, Seq<char>)>, name: Seq<char>) -> bool {
    field(row, name) matches Some(value) && value.len() > 0
}

/// The metric of the row: the integer that `metric_value` writes, where it
/// writes one.
pub open spec fn metric(row: Seq<(Seq<char>, Seq<char>)>) -> Option<i64> {
    match field(row, "metric_value"@) {
        Some(value) => decimal_i64(value),
        None => None,
    }
}

/// The row passes validation: it names its patient, its metric and its
/// category, its date is a day of the calendar, and its metric is an integer
/// from 0 to 100.
pub open spec fn row_valid(row: Seq<(Seq<char>, Seq<char>)>) -> bool {
    &&& filled(row, "patient_id"@)
    &&& field(row, "assessment_date"@) matches Some(date) && date_written(date, date_format())
        is Some
    &&& filled(row, "metric_name"@)
    &&& metric(row) matches Some(value) && 0 <= value <= 100
    &&& filled(row, "category"@)
}

/// The value of a field, or the empty text where the row has no such field.
pub open spec fn field_or_empty(row: Seq<(Seq<char>, Seq<char>)>, name: Seq<char>) -> Seq<char> {
    match field(row, name) {
        Some(value) => value,
        None => Seq::empty(),
    }
}

/// The one score that a row bears: its metric, unchanged, under the name of
/// the metric.
pub open spec fn row_scores(row: Seq<(Seq<char>, Seq<char>)>) -> Seq<ScoreView> {
    match metric(row) {
        Some(value) => seq![score_of(field_or_empty(row, "metric_name"@), value as int)],
        None => Seq::empty(),
    }
}

/// A row as validation and conversion see it.
pub open spec fn entry_of(row: Seq<(Seq<char>, Seq<char>)>) -> Entry {
    Entry {
        valid: row_valid(row),
        patient: field_or_empty(row, "patient_id"@),
        kind: field_or_empty(row, "category"@),
        scores: row_scores(row),
    }
}

/// The rows as validation and conversion see them.
pub open spec fn entries_of(rows: Seq<Seq<(Seq<char>, Seq<char>)>>) -> Seq<Entry> {
    Seq::new(rows.len(), |i: int| entry_of(rows[i]))
}

/// What the adapter makes of a text.
pub open spec fn reading_of(text: Seq<char>) -> Result<Seq<Entry>, Seq<char>> {
    match rows_of_text(text) {
        Ok(rows) => Ok(entries_of(rows)),
        Err(message) => Err(message),
    }
}

/// Every row whose position is not flagged passes validation.
pub open spec fn unflagged_valid(
    rows: Seq<Seq<(Seq<char>, Seq<char>)>>,
    flagged: Set<usize>,
) -> bool {
    forall|i: int|
        0 <= i < rows.len() && !flagged.contains(i as usize) ==> row_valid(#[trigger] rows[i])
}

/// A row that passes validation bears one score: the integer of its metric,
/// from 0 to 100 and unchanged, under the name of the metric.
pub proof fn lemma_metric_is_unchanged(row: Seq<(Seq<char>, Seq<char>)>)
    requires
        row_valid(row),
    ensures
        entry_of(row).scores == seq![
            score_of(
                field(row, "metric_name"@)->0,
                decimal_i64(field(row, "metric_value"@)->0)->0 as int,
            ),
        ],
        0 <= entry_of(row).scores[0].value <= 100,
{
}

/// Reads the date of an assessment: the day that the text writes in the
/// format `%Y-%m-%d`, or nothing.
pub fn parse_assessment_date(date: &str) -> (day: Option<CalendarDate>)
    ensures
        day == date_written(date@, date_format()),
{
    parse_date(date, "%Y-%m-%d")
}

/// Finds the value of the field of the given name.
pub fn find_field<'a>(row: &'a Vec<(String, String)>, name: &str) -> (found: Option<&'a String>)
    ensures
        match found {
            Some(value) => field(row.deep_view(), name@) == Some(value@),
            None => field(row.deep_view(), name@) is None,
        },
{
    let mut n: usize = row.len();
    while n > 0
        invariant
            n <= row.len(),
            field_position(row.deep_view(), name@, row.len() as int) == field_position(
                row.deep_view(),
                name@,
                n as int,
            ),
        decreases n,
    {
        if same_text(row[n - 1].0.as_str(), name) {
            return Some(&row[n - 1].1);
        }
        n = n - 1;
    }
    None
}

/// Whether the row has a field of the given name that is not empty.
fn is_filled(row: &Vec<(String, String)>, name: &str) -> (r: bool)
    ensures
        r == filled(row.deep_view(), name@),
{
    match find_field(row, name) {
        Some(value) => !value.as_str().is_empty(),
        None => false,
    }
}

/// Reads the metric of a row.
fn read_metric(row: &Vec<(String, String)>) -> (value: Option<i64>)
    ensures
        value == metric(row.deep_view()),
{
    match find_field(row, "metric_value") {
        Some(value) => parse_i64(value.as_str()),
        None => None,
    }
}

/// Whether the date of the row's assessment is a day of the calendar.
fn has_date(row: &Vec<(String, String)>) -> (r: bool)
    ensures
        r == (field(row.deep_view(), "assessment_date"@) matches Some(date) && date_written(
            date,
            date_format(),
        ) is Some),
{
    match find_field(row, "assessment_date") {
        Some(date) => parse_assessment_date(date.as_str()).is_some(),
        None => false,
    }
}

/// Whether the row passes validation.
fn row_passes(row: &Vec<(String, String)>) -> (r: bool)
    ensures
        r == row_valid(row.deep_view()),
{
    if !is_filled(row, "patient_id") || !has_date(row) || !is_filled(row, "metric_name") {
        return false;
    }
    let in_range = match read_metric(row) {
        Some(value) => 0 <= value && value <= 100,
        None => false,
    };
    in_range && is_filled(row, "category")
}

/// A copy of the value of a field, or the empty text.
fn text_or_empty(row: &Vec<(String, String)>, name: &str) -> (text: String)
    ensures
        text@ == field_or_empty(row.deep_view(), name@),
{
    match find_field(row, name) {
        Some(value) => value.clone(),
        None => String::new(),
    }
}

/// The one score that a row bears, if its metric is an integer.
fn score_list(row: &Vec<(String, String)>) -> (scores: Vec<NormalizeScore>)
    ensures
        scores.deep_view() == row_scores(row.deep_view()),
{
    let mut scores: Vec<NormalizeScore> = Vec::new();
    if let Some(value) = read_metric(row) {
        scores.push(NormalizeScore::on_canonical_scale(text_or_empty(row, "metric_name"), value));
    }
    scores
}

/// Pairs the names of the header with the trimmed fields of a data row.
fn build_row(header: &Vec<String>, fields: &Vec<String>) -> (row: Vec<(String, String)>)
    requires
        fields.len() == header.len(),
    ensures
        row.deep_view() == row_of(header.deep_view(), fields.deep_view()),
{
    let mut row: Vec<(String, String)> = Vec::new();
    let mut j: usize = 0;
    while j < header.len()
        invariant
            j <= header.len(),
            fields.len() == header.len(),
            row.len() == j,
            forall|k: int|
                0 <= k < j ==> (#[trigger] row[k]).deep_view() == (header[k]@, trimmed(fields[k]@)),
        decreases header.len() - j,
    {
        row.push((header[j].clone(), String::from_str(trim_text(fields[j].as_str()))));
        j = j + 1;
    }
    row
}

/// Builds the rows of a table: each data row by the names of the header.
pub fn decode_table(table: &Table) -> (rows: Result<Vec<Vec<(String, String)>>, String>)
    ensures
        match rows {
            Ok(list) => rows_of_table(table.deep_view()) == Ok::<
                Seq<Seq<(Seq<char>, Seq<char>)>>,
                Seq<char>,
            >(list.deep_view()),
            Err(message) => rows_of_table(table.deep_view()) == Err::<
                Seq<Seq<(Seq<char>, Seq<char>)>>,
                Seq<char>,
            >(message@),
        },
{
    match &table.header {
        Some(header) => {
            if header.len() == 0 {
                return Err(String::from_str("Missing header row"));
            }
            let mut rows: Vec<Vec<(String, String)>> = Vec::new();
            let mut i: usize = 0;
            while i < table.records.len()
                invariant
                    i <= table.records.len(),
                    rows.len() == i,
                    header.len() > 0,
                    table.header == Some(*header),
                    forall|k: int|
                        0 <= k < i ==> fits(
                            header.deep_view(),
                            #[trigger] table.records.deep_view()[k],
                        ),
                    forall|k: int|
                        0 <= k < i ==> (#[trigger] rows[k]).deep_view() == row_of(
                            header.deep_view(),
                            table.records.deep_view()[k]->0,
                        ),
                decreases table.records.len() - i,
            {
                match &table.records[i] {
                    Some(fields) => {
                        if fields.len() != header.len() {
                            assert(!fits(header.deep_view(), table.records.deep_view()[i as int]));
                            return Err(
                                String::from_str("Field count is not equal to header count"),
                            );
                        }
                        rows.push(build_row(header, fields));
                    },
                    None => {
                        return Err(String::from_str("Field count is not equal to header count"));
                    },
                }
                i = i + 1;
            }
            assert(rows.deep_view() =~= rows_of_table(table.deep_view())->Ok_0);
            Ok(rows)
        },
        None => Err(String::from_str("Missing header row")),
    }
}

impl ProviderHandler {
    /// An adapter without rows and with an empty error index.
    pub fn new() -> (handler: Self)
        ensures
            handler.data@.len() == 0,
            handler.error_index@ == Set::<usize>::empty(),
            handler.parsed(),
            handler.ready(),
    {
        let handler = ProviderHandler { data: Vec::new(), error_index: HashSet::new() };
        handler
    }

    /// The identifier by which the pipeline selects this adapter.
    pub fn name() -> (name: String)
        ensures
            name@ == "c"@,
    {
        String::from_str("c")
    }

    /// Groups the rows that are not flagged into canonical records, every
    /// record dated `stamp` and with the metadata block of that moment.
    pub fn convert_at(&self, stamp: &str) -> (records: Vec<NormalizeData>)
        requires
            self.ready(),
        ensures
            is_grouping(records.deep_view(), self.entries(), self.flagged(), self.entries().len()),
            stamped(
                records.deep_view(),
                stamp@,
                metadata_block(provider_name(), format_name(), stamp@),
            ),
    {
        broadcast use vstd::std_specs::hash::group_hash_axioms;

        let metadata = metadata_at("provider_c", "csv", stamp);
        let mut groups: Vec<NormalizeData> = Vec::new();
        let ghost entries = self.entries();
        let ghost flagged = self.flagged();
        let mut i: usize = 0;
        while i < self.data.len()
            invariant
                i <= self.data.len(),
                entries == entries_of(self.data.deep_view()),
                flagged == self.error_index@,
                metadata.deep_view() == metadata_block(provider_name(), format_name(), stamp@),
                is_grouping(groups.deep_view(), entries, flagged, i as nat),
                stamped(groups.deep_view(), stamp@, metadata.deep_view()),
            decreases self.data.len() - i,
        {
            if !self.error_index.contains(&i) {
                let row = &self.data[i];
                let patient = text_or_empty(row, "patient_id");
                let kind = text_or_empty(row, "category");
                let scores = score_list(row);
                let ghost before = groups.deep_view();
                let at = merge_row(&mut groups, patient, kind, scores, stamp, &metadata);
                proof {
                    lemma_grouping_merges(
                        before,
                        groups.deep_view(),
                        at as int,
                        entries,
                        flagged,
                        i as nat,
                        stamp@,
                        metadata.deep_view(),
                    );
                    lemma_merge_keeps_stamp(
                        before,
                        groups.deep_view(),
                        at as int,
                        entry_key(entries[i as int]),
                        entries[i as int].scores,
                        stamp@,
                        metadata.deep_view(),
                    );
                }
            } else {
                proof {
                    lemma_grouping_skips(groups.deep_view(), entries, flagged, i as nat);
                }
            }
            i = i + 1;
        }
        groups
    }
}

impl Provider for ProviderHandler {
    open spec fn source_provider(&self) -> Seq<char> {
        provider_name()
    }

    open spec fn source_format(&self) -> Seq<char> {
        format_name()
    }

    open spec fn entries(&self) -> Seq<Entry> {
        entries_of(self.data.deep_view())
    }

    open spec fn flagged(&self) -> Set<usize> {
        self.error_index@
    }

    open spec fn reading(&self, text: Seq<char>) -> Result<Seq<Entry>, Seq<char>> {
        reading_of(text)
    }

    open spec fn parsed(&self) -> bool {
        true
    }

    open spec fn ready(&self) -> bool {
        unflagged_valid(self.data.deep_view(), self.error_index@)
    }

    fn get_metadata(&self) -> (block: Vec<(String, String)>) {
        let stamp = now_rfc3339();
        metadata_at("provider_c", "csv", stamp.as_str())
    }

    fn parse(&mut self, data: &str) -> (result: Result<(), NormalizationError>)
        ensures
            match rows_of_text(data@) {
                Ok(rows) => final(self).data.deep_view() == rows,
                Err(_) => final(self).data == old(self).data,
            },
            final(self).error_index == old(self).error_index,
    {
        let table = read_table(data);
        match decode_table(&table) {
            Ok(rows) => {
                self.data = rows;
                Ok(())
            },
            Err(message) => Err(NormalizationError::Parse(message)),
        }
    }

    fn validate(&mut self) -> (report: NormalizationError)
        ensures
            final(self).data == old(self).data,
    {
        let mut passes: Vec<bool> = Vec::new();
        let mut i: usize = 0;
        while i < self.data.len()
            invariant
                i <= self.data.len(),
                passes.len() == i,
                forall|j: int|
                    0 <= j < i ==> #[trigger] passes[j] == row_valid(self.data[j].deep_view()),
            decreases self.data.len() - i,
        {
            passes.push(row_passes(&self.data[i]));
            i = i + 1;
        }
        assert(passes@ =~= validity(self.entries()));
        report_failures(&passes, &mut self.error_index)
    }

    fn convert(&self) -> (records: Vec<NormalizeData>) {
        let stamp = now_rfc3339();
        self.convert_at(stamp.as_str())
    }
}

} // verus!
