//! The adapter for flat JSON: a list of objects, each a mapping from field
//! names to texts and numbers, whose scores lie on a scale from 0 to 10.

use std::collections::HashSet;
use vstd::prelude::*;
use vstd::string::StringExecFns;
use crate::dates::now_rfc3339;
use crate::grouping::{
    entry_key, is_grouping, lemma_grouping_merges, lemma_grouping_skips,
    lemma_merge_keeps_stamp, merge_row, stamped, Entry,
};
use crate::json::{
    find_text, json_document, parse_document, raw_score, required_text, text_member, Json,
};
use crate::model::{
    metadata_at, metadata_block, report_failures, score_of, validity, NormalizationError,
    NormalizeData, NormalizeScore, Provider, ScoreView,
};
use crate::text::{has_prefix, strip_prefix};

verus! {

/// The adapter for flat JSON: the rows of one batch, each the members of one
/// object, and the positions of those that failed validation.
#[derive(Debug)]
pub struct ProviderHandler {
    pub data: Vec<Vec<(String, Json)>>,
    pub error_index: HashSet<usize>,
}

/// The name under which the adapter signs its records.
pub open spec fn provider_name() -> Seq<char> {
    "provider_b"@
}

/// The name of the format that the adapter reads.
pub open spec fn format_name() -> Seq<char> {
    "flat_key_value"@
}

/// The message of a document that is well-formed JSON and yet no list of
/// objects.
pub open spec fn structure_message() -> Seq<char> {
    "Input is not a list of flat records"@
}

/// The prefix of the name of every field that bears a score.
pub open spec fn score_prefix() -> Seq<char> {
    "score_"@
}

/// The rows as the contracts speak of them.
pub open spec fn rows_view(data: Seq<Vec<(String, Json)>>) -> Seq<Seq<(String, Json)>> {
    Seq::new(data.len(), |i: int| data[i]@)
}

/// The rows that a JSON document writes: a list of which every item is an
/// object.
pub open spec fn decoded_rows(document: Json) -> Option<Seq<Seq<(String, Json)>>> {
    match document {
        Json::Array(items) => if forall|i: int|
            0 <= i < items@.len() ==> #[trigger] items@[i] is Object {
            Some(Seq::new(items@.len(), |i: int| items@[i]->Object_0@))
        } else {
            None
        },
        _ => None,
    }
}

/// The rows that a text writes, or the message of the parse failure: that of
/// the JSON reader where the text is no JSON document, else that of a
/// document which is no list of objects.
pub open spec fn rows_of_text(text: Seq<char>) -> Result<Seq<Seq<(String, Json)>>, Seq<char>> {
    match json_document(text) {
        Ok(document) => match decoded_rows(document) {
            Some(rows) => Ok(rows),
            None => Err(structure_message()),
        },
        Err(message) => Err(message),
    }
}

/// The row names its patient, the patient's name, the assessment type and
/// the notes, each as a text.
pub open spec fn identified(row: Seq<(String, Json)>) -> bool {
    &&& text_member(row, "patient_id"@) is Some
    &&& text_member(row, "patient_name"@) is Some
    &&& text_member(row, "assessment_type"@) is Some
    &&& text_member(row, "notes"@) is Some
}

/// Every field among the first `n` whose name starts with the score prefix
/// holds an integer that can be brought onto the canonical scale.
pub open spec fn scores_whole(row: Seq<(String, Json)>, n: int) -> bool {
    forall|i: int|
        0 <= i < n && i < row.len() && has_prefix((#[trigger] row[i]).0@, score_prefix())
            ==> raw_score(row[i].1) is Some
}

/// The row passes validation.
pub open spec fn row_valid(row: Seq<(String, Json)>) -> bool {
    identified(row) && scores_whole(row, row.len() as int)
}

/// The scores that the first `n` fields of a row bear, in the order of the
/// fields: for each field whose name starts with the score prefix and which
/// holds an integer, the rest of the name as the dimension and ten times the
/// integer as the value.
pub open spec fn score_fields(row: Seq<(String, Json)>, n: nat) -> Seq<ScoreView>
    decreases n,
{
    if n == 0 {
        Seq::empty()
    } else {
        let before = score_fields(row, (n - 1) as nat);
        if n <= row.len() && has_prefix(row[n - 1].0@, score_prefix()) && raw_score(
            row[n - 1].1,
        ) is Some {
            before.push(
                score_of(
                    row[n - 1].0@.subrange(score_prefix().len() as int, row[n - 1].0@.len() as int),
                    10 * raw_score(row[n - 1].1)->0,
                ),
            )
        } else {
            before
        }
    }
}

/// The text of a field, or the empty text where the row has no such text.
pub open spec fn text_or_empty(row: Seq<(String, Json)>, name: Seq<char>) -> Seq<char> {
    match text_member(row, name) {
        Some(text) => text,
        None => Seq::empty(),
    }
}

/// A row as validation and conversion see it.
pub open spec fn entry_of(row: Seq<(String, Json)>) -> Entry {
    Entry {
        valid: row_valid(row),
        patient: text_or_empty(row, "patient_id"@),
        kind: text_or_empty(row, "assessment_type"@),
        scores: score_fields(row, row.len()),
    }
}

/// The rows as validation and conversion see them.
pub open spec fn entries_of(rows: Seq<Seq<(String, Json)>>) -> Seq<Entry> {
    Seq::new(rows.len(), |i: int| entry_of(rows[i]))
}

/// What the adapter makes of a text.
pub open spec fn reading_of(text: Seq<char>) -> Result<Seq<Entry>, Seq<char>> {
    match rows_of_text(text) {
        Ok(rows) => Ok(entries_of(rows)),
        Err(message) => Err(message),
    }
}

/// Every row whose position is not flagged passes validation.
pub open spec fn unflagged_valid(rows: Seq<Seq<(String, Json)>>, flagged: Set<usize>) -> bool {
    forall|i: int|
        0 <= i < rows.len() && !flagged.contains(i as usize) ==> row_valid(#[trigger] rows[i])
}

/// Field `i` of the row bears `score`: its name starts with the score prefix,
/// it holds an integer, and the score has the rest of the name as its
/// dimension and ten times the integer as its value.
pub open spec fn field_bears(row: Seq<(String, Json)>, i: int, score: ScoreView) -> bool {
    &&& 0 <= i < row.len()
    &&& has_prefix(row[i].0@, score_prefix())
    &&& raw_score(row[i].1) is Some
    &&& score == score_of(
        row[i].0@.subrange(score_prefix().len() as int, row[i].0@.len() as int),
        10 * raw_score(row[i].1)->0,
    )
}

/// Every score of a row is ten times the integer of one of its score fields.
pub proof fn lemma_scores_are_tenfold(row: Seq<(String, Json)>, n: nat, k: int)
    requires
        0 <= k < score_fields(row, n).len(),
    ensures
        exists|i: int| 0 <= i < n && #[trigger] field_bears(row, i, score_fields(row, n)[k]),
    decreases n,
{
    let before = score_fields(row, (n - 1) as nat);
    if k < before.len() {
        lemma_scores_are_tenfold(row, (n - 1) as nat, k);
        let i = choose|i: int| 0 <= i < n - 1 && #[trigger] field_bears(row, i, before[k]);
        assert(0 <= i < n && field_bears(row, i, score_fields(row, n)[k]));
    } else {
        assert(0 <= n - 1 < n && field_bears(row, n - 1, score_fields(row, n)[k]));
    }
}

/// Takes the rows out of a JSON document.
pub fn decode_rows(document: Json) -> (rows: Option<Vec<Vec<(String, Json)>>>)
    ensures
        match rows {
            Some(list) => decoded_rows(document) == Some(rows_view(list@)),
            None => decoded_rows(document) is None,
        },
{
    match document {
        Json::Array(items) => {
            let ghost original = items;
            let ghost all = items@;
            let mut items = items;
            let mut reversed: Vec<Vec<(String, Json)>> = Vec::new();
            while items.len() > 0
                invariant
                    document == Json::Array(original),
                    all == original@,
                    items@.len() <= all.len(),
                    items@ == all.subrange(0, items@.len() as int),
                    reversed.len() == all.len() - items@.len(),
                    forall|j: int| items@.len() <= j < all.len() ==> #[trigger] all[j] is Object,
                    forall|j: int|
                        0 <= j < reversed.len() ==> (#[trigger] reversed[j])@ == all[all.len() - 1
                            - j]->Object_0@,
                decreases items.len(),
            {
                match items.pop() {
                    Some(Json::Object(members)) => {
                        reversed.push(members);
                    },
                    _ => {
                        return None;
                    },
                }
            }
            let mut rows: Vec<Vec<(String, Json)>> = Vec::new();
            while reversed.len() > 0
                invariant
                    reversed.len() + rows.len() == all.len(),
                    forall|j: int| 0 <= j < all.len() ==> #[trigger] all[j] is Object,
                    forall|j: int|
                        0 <= j < reversed.len() ==> (#[trigger] reversed[j])@ == all[all.len() - 1
                            - j]->Object_0@,
                    forall|j: int|
                        0 <= j < rows.len() ==> (#[trigger] rows[j])@ == all[j]->Object_0@,
                decreases reversed.len(),
            {
                match reversed.pop() {
                    Some(members) => {
                        rows.push(members);
                    },
                    None => {},
                }
            }
            Some(rows)
        },
        _ => None,
    }
}

/// Whether the row passes validation.
fn row_passes(row: &Vec<(String, Json)>) -> (r: bool)
    ensures
        r == row_valid(row@),
{
    if find_text(row, "patient_id").is_none() || find_text(row, "patient_name").is_none()
        || find_text(row, "assessment_type").is_none() || find_text(row, "notes").is_none() {
        return false;
    }
    let mut i: usize = 0;
    while i < row.len()
        invariant
            i <= row.len(),
            identified(row@),
            scores_whole(row@, i as int),
        decreases row.len() - i,
    {
        if strip_prefix(row[i].0.as_str(), "score_").is_some() {
            match &row[i].1 {
                Json::Number(Some(raw)) => {
                    if *raw > i64::MAX / 10 || *raw < i64::MIN / 10 {
                        return false;
                    }
                },
                _ => {
                    return false;
                },
            }
        }
        i = i + 1;
    }
    true
}

/// The scores that the fields of a row bear, on the canonical scale.
fn score_list(row: &Vec<(String, Json)>) -> (scores: Vec<NormalizeScore>)
    ensures
        scores.deep_view() == score_fields(row@, row@.len()),
{
    let mut scores: Vec<NormalizeScore> = Vec::new();
    let mut i: usize = 0;
    while i < row.len()
        invariant
            i <= row.len(),
            scores.deep_view() == score_fields(row@, i as nat),
        decreases row.len() - i,
    {
        match (strip_prefix(row[i].0.as_str(), "score_"), &row[i].1) {
            (Some(dimension), Json::Number(Some(raw))) => {
                if *raw <= i64::MAX / 10 && *raw >= i64::MIN / 10 {
                    scores.push(
                        NormalizeScore::on_canonical_scale(String::from_str(dimension), *raw * 10),
                    );
                }
            },
            _ => {},
        }
        i = i + 1;
    }
    scores
}

impl ProviderHandler {
    /// An adapter without rows and with an empty error index.
    pub fn new() -> (handler: Self)
        ensures
            handler.data@.len() == 0,
            handler.error_index@ == Set::<usize>::empty(),
            handler.parsed(),
            handler.ready(),
    {
        ProviderHandler { data: Vec::new(), error_index: HashSet::new() }
    }

    /// The identifier by which the pipeline selects this adapter.
    pub fn name() -> (name: String)
        ensures
            name@ == "b"@,
    {
        String::from_str("b")
    }

    /// Groups the rows that are not flagged into canonical records, every
    /// record dated `stamp` and with the metadata block of that moment.
    pub fn convert_at(&self, stamp: &str) -> (records: Vec<NormalizeData>)
        requires
            self.ready(),
        ensures
            is_grouping(records.deep_view(), self.entries(), self.flagged(), self.entries().len()),
            stamped(
                records.deep_view(),
                stamp@,
                metadata_block(provider_name(), format_name(), stamp@),
            ),
    {
        broadcast use vstd::std_specs::hash::group_hash_axioms;

        let metadata = metadata_at("provider_b", "flat_key_value", stamp);
        let mut groups: Vec<NormalizeData> = Vec::new();
        let ghost entries = self.entries();
        let ghost flagged = self.flagged();
        let mut i: usize = 0;
        while i < self.data.len()
            invariant
                i <= self.data.len(),
                entries == entries_of(rows_view(self.data@)),
                flagged == self.error_index@,
                unflagged_valid(rows_view(self.data@), flagged),
                metadata.deep_view() == metadata_block(provider_name(), format_name(), stamp@),
                is_grouping(groups.deep_view(), entries, flagged, i as nat),
                stamped(groups.deep_view(), stamp@, metadata.deep_view()),
            decreases self.data.len() - i,
        {
            if !self.error_index.contains(&i) {
                let row = &self.data[i];
                assert(row_valid(rows_view(self.data@)[i as int]));
                let patient = String::from_str(required_text(row, "patient_id"));
                let kind = String::from_str(required_text(row, "assessment_type"));
                let scores = score_list(row);
                let ghost before = groups.deep_view();
                let at = merge_row(&mut groups, patient, kind, scores, stamp, &metadata);
                proof {
                    lemma_grouping_merges(
                        before,
                        groups.deep_view(),
                        at as int,
                        entries,
                        flagged,
                        i as nat,
                        stamp@,
                        metadata.deep_view(),
                    );
                    lemma_merge_keeps_stamp(
                        before,
                        groups.deep_view(),
                        at as int,
                        entry_key(entries[i as int]),
                        entries[i as int].scores,
                        stamp@,
                        metadata.deep_view(),
                    );
                }
            } else {
                proof {
                    lemma_grouping_skips(groups.deep_view(), entries, flagged, i as nat);
                }
            }
            i = i + 1;
        }
        groups
    }
}

impl Provider for ProviderHandler {
    open spec fn source_provider(&self) -> Seq<char> {
        provider_name()
    }

    open spec fn source_format(&self) -> Seq<char> {
        format_name()
    }

    open spec fn entries(&self) -> Seq<Entry> {
        entries_of(rows_view(self.data@))
    }

    open spec fn flagged(&self) -> Set<usize> {
        self.error_index@
    }

    open spec fn reading(&self, text: Seq<char>) -> Result<Seq<Entry>, Seq<char>> {
        reading_of(text)
    }

    open spec fn parsed(&self) -> bool {
        true
    }

    open spec fn ready(&self) -> bool {
        unflagged_valid(rows_view(self.data@), self.error_index@)
    }

    fn get_metadata(&self) -> (block: Vec<(String, String)>) {
        let stamp = now_rfc3339();
        metadata_at("provider_b", "flat_key_value", stamp.as_str())
    }

    fn parse(&mut self, data: &str) -> (result: Result<(), NormalizationError>)
        ensures
            match rows_of_text(data@) {
                Ok(rows) => rows_view(final(self).data@) == rows,
                Err(_) => final(self).data == old(self).data,
            },
            final(self).error_index == old(self).error_index,
    {
        match parse_document(data) {
            Ok(document) => match decode_rows(document) {
                Some(rows) => {
                    self.data = rows;
                    Ok(())
                },
                None => Err(
                    NormalizationError::Parse(
                        String::from_str("Input is not a list of flat records"),
                    ),
                ),
            },
            Err(message) => Err(NormalizationError::Parse(message)),
        }
    }

    fn validate(&mut self) -> (report: NormalizationError)
        ensures
            final(self).data == old(self).data,
    {
        let mut passes: Vec<bool> = Vec::new();
        let mut i: usize = 0;
        while i < self.data.len()
            invariant
                i <= self.data.len(),
                passes.len() == i,
                forall|j: int| 0 <= j < i ==> #[trigger] passes[j] == row_valid(self.data[j]@),
            decreases self.data.len() - i,
        {
            passes.push(row_passes(&self.data[i]));
            i = i + 1;
        }
        assert(passes@ =~= validity(self.entries()));
        report_failures(&passes, &mut self.error_index)
    }

    fn convert(&self) -> (records: Vec<NormalizeData>) {
        let stamp = now_rfc3339();
        self.convert_at(stamp.as_str())
    }
}

} // verus!
