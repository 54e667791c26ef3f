//! The adapter for nested JSON: a list of records, each with a patient and an
//! assessment whose scores lie on a scale from 0 to 10.

use std::collections::HashSet;
use vstd::prelude::*;
use vstd::string::StringExecFns;
use crate::dates::{date_written, now_rfc3339, parse_date, CalendarDate};
use crate::grouping::{
    entry_key, is_grouping, lemma_grouping_merges, lemma_grouping_skips,
    lemma_merge_keeps_stamp, merge_row, stamped, Entry,
};
use crate::json::{
    find_object, find_text, json_document, object_member, parse_document, raw_score, scalable,
    text_member, Json,
};
use crate::model::{
    invalid_positions, lemma_failing_positions, metadata_at, metadata_block, report_failures,
    score_of, validity, NormalizationError, NormalizeData, NormalizeScore, Provider, ScoreView,
};

verus! {

/// The patient of a record.
#[derive(Clone, Debug)]
pub struct Patient {
    pub id: String,
    pub name: String,
    pub dob: Option<CalendarDate>,
}

/// The assessment of a record. The scores stand in the order in which the
/// document hands them out.
#[derive(Clone, Debug)]
pub struct Assessment {
    pub type_: String,
    pub scores: Vec<(String, i64)>,
    pub notes: String,
}

/// One record of the nested format.
#[derive(Clone, Debug)]
pub struct Data {
    pub patient: Patient,
    pub assessment: Assessment,
}

/// Mathematical model of a [`Patient`].
pub struct PatientView {
    pub id: Seq<char>,
    pub name: Seq<char>,
    pub dob: Option<CalendarDate>,
}

/// Mathematical model of an [`Assessment`].
pub struct AssessmentView {
    pub kind: Seq<char>,
    pub scores: Seq<(Seq<char>, i64)>,
    pub notes: Seq<char>,
}

/// Mathematical model of a [`Data`].
pub struct DataView {
    pub patient: PatientView,
    pub assessment: AssessmentView,
}

impl DeepView for Patient {
    type V = PatientView;

    open spec fn deep_view(&self) -> PatientView {
        PatientView { id: self.id@, name: self.name@, dob: self.dob }
    }
}

impl DeepView for Assessment {
    type V = AssessmentView;

    open spec fn deep_view(&self) -> AssessmentView {
        AssessmentView {
            kind: self.type_@,
            scores: self.scores.deep_view(),
            notes: self.notes@,
        }
    }
}

impl DeepView for Data {
    type V = DataView;

    open spec fn deep_view(&self) -> DataView {
        DataView { patient: self.patient.deep_view(), assessment: self.assessment.deep_view() }
    }
}

/// The format in which a date of birth is written.
pub open spec fn dob_format() -> Seq<char> {
    "%Y%m%d"@
}

/// The message of a document that is well-formed JSON and yet no list of
/// records of this format.
pub open spec fn structure_message() -> Seq<char> {
    "Input is not a list of patient assessments"@
}

/// The scores that the members of an object write: every member an integer,
/// by its dimension.
pub open spec fn decoded_scores(members: Seq<(String, Json)>) -> Option<Seq<(Seq<char>, i64)>> {
    if forall|i: int| 0 <= i < members.len() ==> raw_score(#[trigger] members[i].1) is Some {
        Some(Seq::new(members.len(), |i: int| (members[i].0@, raw_score(members[i].1)->0)))
    } else {
        None
    }
}

/// The patient that the members of an object write: `id`, `name` and `dob`,
/// each a text. A date of birth that is no day in the format `%Y%m%d` is held
/// as absent.
pub open spec fn decoded_patient(members: Seq<(String, Json)>) -> Option<PatientView> {
    match (
        text_member(members, "id"@),
        text_member(members, "name"@),
        text_member(members, "dob"@),
    ) {
        (Some(id), Some(name), Some(dob)) => Some(
            PatientView { id, name, dob: date_written(dob, dob_format()) },
        ),
        _ => None,
    }
}

/// The assessment that the members of an object write: `type` and `notes`,
/// each a text, and `scores`, an object of integers.
pub open spec fn decoded_assessment(members: Seq<(String, Json)>) -> Option<AssessmentView> {
    match (
        text_member(members, "type"@),
        object_member(members, "scores"@),
        text_member(members, "notes"@),
    ) {
        (Some(kind), Some(scores), Some(notes)) => match decoded_scores(scores) {
            Some(scores) => Some(AssessmentView { kind, scores, notes }),
            None => None,
        },
        _ => None,
    }
}

/// The record that a JSON value writes: an object with a `patient` and an
/// `assessment`, each an object.
pub open spec fn decoded_record(value: Json) -> Option<DataView> {
    match value {
        Json::Object(members) => match (
            object_member(members@, "patient"@),
            object_member(members@, "assessment"@),
        ) {
            (Some(patient), Some(assessment)) => match (
                decoded_patient(patient),
                decoded_assessment(assessment),
            ) {
                (Some(patient), Some(assessment)) => Some(DataView { patient, assessment }),
                _ => None,
            },
            _ => None,
        },
        _ => None,
    }
}

/// The records that a JSON document writes: a list of which every item is a
/// record.
pub open spec fn decoded_records(document: Json) -> Option<Seq<DataView>> {
    match document {
        Json::Array(items) => if forall|i: int|
            0 <= i < items@.len() ==> decoded_record(#[trigger] items@[i]) is Some {
            Some(Seq::new(items@.len(), |i: int| decoded_record(items@[i])->0))
        } else {
            None
        },
        _ => None,
    }
}

/// The records that a text writes, or the message of the parse failure: that
/// of the JSON reader where the text is no JSON document, else that of a
/// document which is no list of records.
pub open spec fn rows_of_text(text: Seq<char>) -> Result<Seq<DataView>, Seq<char>> {
    match json_document(text) {
        Ok(document) => match decoded_records(document) {
            Some(rows) => Ok(rows),
            None => Err(structure_message()),
        },
        Err(message) => Err(message),
    }
}

/// Every significant field of the record is empty or absent.
pub open spec fn blank(row: DataView) -> bool {
    &&& row.patient.id.len() == 0
    &&& row.patient.name.len() == 0
    &&& row.patient.dob is None
    &&& row.assessment.kind.len() == 0
    &&& row.assessment.scores.len() == 0
    &&& row.assessment.notes.len() == 0
}

/// The scores of a record on the canonical scale: each ten times the raw
/// integer.
pub open spec fn scaled_scores(scores: Seq<(Seq<char>, i64)>) -> Seq<ScoreView> {
    Seq::new(scores.len(), |i: int| score_of(scores[i].0, 10 * scores[i].1))
}

/// A record as validation and conversion see it. A record fails validation
/// only when it is blank.
pub open spec fn entry_of(row: DataView) -> Entry {
    Entry {
        valid: !blank(row),
        patient: row.patient.id,
        kind: row.assessment.kind,
        scores: scaled_scores(row.assessment.scores),
    }
}

/// The records as validation and conversion see them.
pub open spec fn entries_of(rows: Seq<DataView>) -> Seq<Entry> {
    Seq::new(rows.len(), |i: int| entry_of(rows[i]))
}

/// Every score of every record can be brought onto the canonical scale.
pub open spec fn all_scalable(rows: Seq<DataView>) -> bool {
    forall|i: int, j: int|
        0 <= i < rows.len() && 0 <= j < rows[i].assessment.scores.len() ==> scalable(
            #[trigger] rows[i].assessment.scores[j].1,
        )
}

/// What the adapter makes of a text.
pub open spec fn reading_of(text: Seq<char>) -> Result<Seq<Entry>, Seq<char>> {
    match rows_of_text(text) {
        Ok(rows) => Ok(entries_of(rows)),
        Err(message) => Err(message),
    }
}

/// Reads a date of birth: the day that the text writes in the format
/// `%Y%m%d`, or nothing.
pub fn parse_dob(text: &str) -> (dob: Option<CalendarDate>)
    ensures
        dob == date_written(text@, dob_format()),
{
    parse_date(text, "%Y%m%d")
}

/// Reads the scores off the members of an object.
fn decode_scores(members: &Vec<(String, Json)>) -> (scores: Option<Vec<(String, i64)>>)
    ensures
        scores.deep_view() == decoded_scores(members@),
{
    let mut scores: Vec<(String, i64)> = Vec::new();
    let mut i: usize = 0;
    while i < members.len()
        invariant
            i <= members.len(),
            scores.len() == i,
            forall|j: int| 0 <= j < i ==> raw_score(#[trigger] members@[j].1) is Some,
            forall|j: int|
                0 <= j < i ==> (#[trigger] scores[j]).deep_view() == (
                    members[j].0@,
                    raw_score(members[j].1)->0,
                ),
        decreases members.len() - i,
    {
        match &members[i].1 {
            Json::Number(Some(raw)) => {
                if *raw > i64::MAX / 10 || *raw < i64::MIN / 10 {
                    return None;
                }
                scores.push((members[i].0.clone(), *raw));
            },
            _ => {
                return None;
            },
        }
        i = i + 1;
    }
    Some(scores)
}

/// Reads a patient off the members of an object.
fn decode_patient(members: &Vec<(String, Json)>) -> (patient: Option<Patient>)
    ensures
        patient.deep_view() == decoded_patient(members@),
{
    match (find_text(members, "id"), find_text(members, "name"), find_text(members, "dob")) {
        (Some(id), Some(name), Some(dob)) => Some(
            Patient { id: id.clone(), name: name.clone(), dob: parse_dob(dob.as_str()) },
        ),
        _ => None,
    }
}

/// Reads an assessment off the members of an object.
fn decode_assessment(members: &Vec<(String, Json)>) -> (assessment: Option<Assessment>)
    ensures
        assessment.deep_view() == decoded_assessment(members@),
{
    match (
        find_text(members, "type"),
        find_object(members, "scores"),
        find_text(members, "notes"),
    ) {
        (Some(kind), Some(scores), Some(notes)) => match decode_scores(scores) {
            Some(scores) => Some(
                Assessment { type_: kind.clone(), scores, notes: notes.clone() },
            ),
            None => None,
        },
        _ => None,
    }
}

/// Reads one record off a JSON value.
fn decode_record(value: &Json) -> (row: Option<Data>)
    ensures
        row.deep_view() == decoded_record(*value),
{
    match value {
        Json::Object(members) => match (
            find_object(members, "patient"),
            find_object(members, "assessment"),
        ) {
            (Some(patient), Some(assessment)) => match (
                decode_patient(patient),
                decode_assessment(assessment),
            ) {
                (Some(patient), Some(assessment)) => Some(Data { patient, assessment }),
                _ => None,
            },
            _ => None,
        },
        _ => None,
    }
}

/// Reads the records off a JSON document.
pub fn decode_records(document: &Json) -> (rows: Option<Vec<Data>>)
    ensures
        rows.deep_view() == decoded_records(*document),
        rows matches Some(list) ==> all_scalable(list.deep_view()),
{
    match document {
        Json::Array(items) => {
            let mut rows: Vec<Data> = Vec::new();
            let mut i: usize = 0;
            while i < items.len()
                invariant
                    i <= items.len(),
                    rows.len() == i,
                    *document == Json::Array(*items),
                    forall|j: int| 0 <= j < i ==> decoded_record(#[trigger] items@[j]) is Some,
                    forall|j: int|
                        0 <= j < i ==> (#[trigger] rows[j]).deep_view() == decoded_record(
                            items@[j],
                        )->0,
                decreases items.len() - i,
            {
                match decode_record(&items[i]) {
                    Some(row) => {
                        rows.push(row);
                    },
                    None => {
                        return None;
                    },
                }
                i = i + 1;
            }
            proof {
                lemma_decoded_records_scalable(*document);
            }
            Some(rows)
        },
        _ => None,
    }
}

/// Every score of a decoded record can be brought onto the canonical scale.
pub proof fn lemma_decoded_records_scalable(document: Json)
    requires
        decoded_records(document) is Some,
    ensures
        all_scalable(decoded_records(document)->0),
{
    let rows = decoded_records(document)->0;
    assert forall|i: int, j: int|
        0 <= i < rows.len() && 0 <= j < rows[i].assessment.scores.len() implies scalable(
        #[trigger] rows[i].assessment.scores[j].1,
    ) by {
        let items = document->Array_0;
        let assessment = object_member(items@[i]->Object_0@, "assessment"@)->0;
        let scores = object_member(assessment, "scores"@)->0;
        assert(raw_score(scores[j].1) is Some);
    }
}

/// A record fails validation exactly when it is blank: the report of a
/// validation pass lists the positions of the blank records and no other.
pub proof fn lemma_only_blank_rows_fail(rows: Seq<DataView>, i: int)
    ensures
        invalid_positions(entries_of(rows)).contains(i) <==> 0 <= i < rows.len() && blank(rows[i]),
{
    let passes = validity(entries_of(rows));
    lemma_failing_positions(passes, rows.len());
    let positions = invalid_positions(entries_of(rows));
    if positions.contains(i) {
        let j = choose|j: int| 0 <= j < positions.len() && positions[j] == i;
        assert(!passes[positions[j]]);
    }
}

/// Every score of a record is ten times the raw integer of the same
/// dimension.
pub proof fn lemma_scores_are_tenfold(row: DataView, j: int)
    requires
        0 <= j < row.assessment.scores.len(),
    ensures
        entry_of(row).scores.len() == row.assessment.scores.len(),
        entry_of(row).scores[j] == score_of(
            row.assessment.scores[j].0,
            10 * row.assessment.scores[j].1,
        ),
{
}

/// The adapter for nested JSON: the records of one batch and the positions
/// of those that failed validation.
#[derive(Debug)]
pub struct ProviderHandler {
    pub data: Vec<Data>,
    pub error_index: HashSet<usize>,
}

/// The name under which the adapter signs its records.
pub open spec fn provider_name() -> Seq<char> {
    "provider_a"@
}

/// The name of the format that the adapter reads.
pub open spec fn format_name() -> Seq<char> {
    "nested_json"@
}

/// Whether every significant field of the record is empty or absent.
fn is_blank(row: &Data) -> (r: bool)
    ensures
        r == blank(row.deep_view()),
{
    row.patient.id.as_str().is_empty() && row.patient.name.as_str().is_empty()
        && row.patient.dob.is_none() && row.assessment.type_.as_str().is_empty()
        && row.assessment.scores.len() == 0 && row.assessment.notes.as_str().is_empty()
}

/// Brings the raw scores of a record onto the canonical scale.
fn scale_scores(scores: &Vec<(String, i64)>) -> (scaled: Vec<NormalizeScore>)
    requires
        forall|j: int| 0 <= j < scores.len() ==> scalable(#[trigger] scores[j].1),
    ensures
        scaled.deep_view() == scaled_scores(scores.deep_view()),
{
    let mut scaled: Vec<NormalizeScore> = Vec::new();
    let mut j: usize = 0;
    while j < scores.len()
        invariant
            j <= scores.len(),
            scaled.len() == j,
            forall|k: int| 0 <= k < scores.len() ==> scalable(#[trigger] scores[k].1),
            forall|k: int|
                0 <= k < j ==> (#[trigger] scaled[k])@ == score_of(scores[k].0@, 10 * scores[k].1),
        decreases scores.len() - j,
    {
        scaled.push(NormalizeScore::on_canonical_scale(scores[j].0.clone(), scores[j].1 * 10));
        j = j + 1;
    }
    scaled
}

impl ProviderHandler {
    /// An adapter without rows and with an empty error index.
    pub fn new() -> (handler: Self)
        ensures
            handler.data@.len() == 0,
            handler.error_index@ == Set::<usize>::empty(),
            handler.parsed(),
            handler.ready(),
    {
        let handler = ProviderHandler { data: Vec::new(), error_index: HashSet::new() };
        handler
    }

    /// The identifier by which the pipeline selects this adapter.
    pub fn name() -> (name: String)
        ensures
            name@ == "a"@,
    {
        String::from_str("a")
    }

    /// Groups the rows that are not flagged into canonical records, every
    /// record dated `stamp` and with the metadata block of that moment.
    pub fn convert_at(&self, stamp: &str) -> (records: Vec<NormalizeData>)
        requires
            self.ready(),
        ensures
            is_grouping(records.deep_view(), self.entries(), self.flagged(), self.entries().len()),
            stamped(
                records.deep_view(),
                stamp@,
                metadata_block(provider_name(), format_name(), stamp@),
            ),
    {
        broadcast use vstd::std_specs::hash::group_hash_axioms;

        let metadata = metadata_at("provider_a", "nested_json", stamp);
        let mut groups: Vec<NormalizeData> = Vec::new();
        let ghost entries = self.entries();
        let ghost flagged = self.flagged();
        let mut i: usize = 0;
        while i < self.data.len()
            invariant
                i <= self.data.len(),
                entries == entries_of(self.data.deep_view()),
                flagged == self.error_index@,
                all_scalable(self.data.deep_view()),
                metadata.deep_view() == metadata_block(provider_name(), format_name(), stamp@),
                is_grouping(groups.deep_view(), entries, flagged, i as nat),
                stamped(groups.deep_view(), stamp@, metadata.deep_view()),
            decreases self.data.len() - i,
        {
            if !self.error_index.contains(&i) {
                let row = &self.data[i];
                assert forall|j: int| 0 <= j < row.assessment.scores.len() implies scalable(
                    #[trigger] row.assessment.scores[j].1,
                ) by {
                    assert(scalable(self.data.deep_view()[i as int].assessment.scores[j].1));
                }
                let scores = scale_scores(&row.assessment.scores);
                let ghost before = groups.deep_view();
                let at = merge_row(
                    &mut groups,
                    row.patient.id.clone(),
                    row.assessment.type_.clone(),
                    scores,
                    stamp,
                    &metadata,
                );
                proof {
                    lemma_grouping_merges(
                        before,
                        groups.deep_view(),
                        at as int,
                        entries,
                        flagged,
                        i as nat,
                        stamp@,
                        metadata.deep_view(),
                    );
                    lemma_merge_keeps_stamp(
                        before,
                        groups.deep_view(),
                        at as int,
                        entry_key(entries[i as int]),
                        entries[i as int].scores,
                        stamp@,
                        metadata.deep_view(),
                    );
                }
            } else {
                proof {
                    lemma_grouping_skips(groups.deep_view(), entries, flagged, i as nat);
                }
            }
            i = i + 1;
        }
        groups
    }
}

impl Provider for ProviderHandler {
    open spec fn source_provider(&self) -> Seq<char> {
        provider_name()
    }

    open spec fn source_format(&self) -> Seq<char> {
        format_name()
    }

    open spec fn entries(&self) -> Seq<Entry> {
        entries_of(self.data.deep_view())
    }

    open spec fn flagged(&self) -> Set<usize> {
        self.error_index@
    }

    open spec fn reading(&self, text: Seq<char>) -> Result<Seq<Entry>, Seq<char>> {
        reading_of(text)
    }

    open spec fn parsed(&self) -> bool {
        all_scalable(self.data.deep_view())
    }

    open spec fn ready(&self) -> bool {
        all_scalable(self.data.deep_view())
    }

    fn get_metadata(&self) -> (block: Vec<(String, String)>) {
        let stamp = now_rfc3339();
        metadata_at("provider_a", "nested_json", stamp.as_str())
    }

    fn parse(&mut self, data: &str) -> (result: Result<(), NormalizationError>)
        ensures
            match rows_of_text(data@) {
                Ok(rows) => final(self).data.deep_view() == rows,
                Err(_) => final(self).data == old(self).data,
            },
            final(self).error_index == old(self).error_index,
    {
        match parse_document(data) {
            Ok(document) => match decode_records(&document) {
                Some(rows) => {
                    self.data = rows;
                    Ok(())
                },
                None => Err(
                    NormalizationError::Parse(
                        String::from_str("Input is not a list of patient assessments"),
                    ),
                ),
            },
            Err(message) => Err(NormalizationError::Parse(message)),
        }
    }

    fn validate(&mut self) -> (report: NormalizationError)
        ensures
            final(self).data == old(self).data,
    {
        let mut passes: Vec<bool> = Vec::new();
        let mut i: usize = 0;
        while i < self.data.len()
            invariant
                i <= self.data.len(),
                passes.len() == i,
                forall|j: int|
                    0 <= j < i ==> #[trigger] passes[j] == !blank(self.data[j].deep_view()),
            decreases self.data.len() - i,
        {
            passes.push(!is_blank(&self.data[i]));
            i = i + 1;
        }
        assert(passes@ =~= validity(self.entries()));
        report_failures(&passes, &mut self.error_index)
    }

    fn convert(&self) -> (records: Vec<NormalizeData>) {
        let stamp = now_rfc3339();
        self.convert_at(stamp.as_str())
    }
}

} // verus!
