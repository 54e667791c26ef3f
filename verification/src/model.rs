//! Canonical value types: scores, canonical records, the error taxonomy and
//! the capability set that every provider adapter offers.

use std::collections::HashSet;
use vstd::prelude::*;
use vstd::string::StringExecFns;
use crate::grouping::{is_grouping, stamped, Entry};
use crate::text::{lemma_text_lt_transitive, text_lt};

verus! {

/// One score of an assessment, normalized onto the 0-100 scale.
#[derive(Clone, Debug, PartialEq, Eq)]
pub struct NormalizeScore {
    pub dimension: String,
    pub value: i64,
    pub scale: String,
}

/// Mathematical model of a [`NormalizeScore`].
pub struct ScoreView {
    pub dimension: Seq<char>,
    pub value: int,
    pub scale: Seq<char>,
}

impl View for NormalizeScore {
    type V = ScoreView;

    open spec fn view(&self) -> ScoreView {
        ScoreView { dimension: self.dimension@, value: self.value as int, scale: self.scale@ }
    }
}

impl DeepView for NormalizeScore {
    type V = ScoreView;

    open spec fn deep_view(&self) -> ScoreView {
        self@
    }
}

/// The text that every score carries as its scale.
pub open spec fn scale_label() -> Seq<char> {
    "0-100"@
}

/// The model of a score of the given dimension and value on the canonical scale.
pub open spec fn score_of(dimension: Seq<char>, value: int) -> ScoreView {
    ScoreView { dimension, value, scale: scale_label() }
}

impl NormalizeScore {
    /// A score on the canonical scale.
    pub fn on_canonical_scale(dimension: String, value: i64) -> (score: NormalizeScore)
        ensures
            score@ == score_of(dimension@, value as int),
    {
        NormalizeScore { dimension, value, scale: String::from_str("0-100") }
    }
}

/// The canonical record of one assessment of one patient.
#[allow(non_snake_case)]
#[derive(Clone, Debug, PartialEq, Eq)]
pub struct NormalizeData {
    pub patientId: String,
    pub assessmentDate: String,
    pub assessmentType: String,
    pub scores: Vec<NormalizeScore>,
    pub metadata: Vec<(String, String)>,
}

/// Mathematical model of a [`NormalizeData`].
pub struct RecordView {
    pub patient_id: Seq<char>,
    pub assessment_date: Seq<char>,
    pub assessment_type: Seq<char>,
    pub scores: Seq<ScoreView>,
    pub metadata: Seq<(Seq<char>, Seq<char>)>,
}

impl View for NormalizeData {
    type V = RecordView;

    open spec fn view(&self) -> RecordView {
        RecordView {
            patient_id: self.patientId@,
            assessment_date: self.assessmentDate@,
            assessment_type: self.assessmentType@,
            scores: self.scores.deep_view(),
            metadata: self.metadata.deep_view(),
        }
    }
}

impl DeepView for NormalizeData {
    type V = RecordView;

    open spec fn deep_view(&self) -> RecordView {
        self@
    }
}

impl NormalizeData {
    /// A record without scores. `date` is the RFC 3339 text of the moment at
    /// which the record is made.
    #[allow(non_snake_case)]
    pub fn new(
        patientId: String,
        assessmentType: String,
        date: String,
        metadata: Vec<(String, String)>,
    ) -> (record: NormalizeData)
        ensures
            record@ == (RecordView {
                patient_id: patientId@,
                assessment_date: date@,
                assessment_type: assessmentType@,
                scores: Seq::empty(),
                metadata: metadata.deep_view(),
            }),
    {
        let record = NormalizeData {
            patientId,
            assessmentType,
            assessmentDate: date,
            scores: Vec::new(),
            metadata,
        };
        assert(record.scores.deep_view() =~= Seq::empty());
        record
    }
}

/// The metadata that a record carries: the four entries in the order of their
/// keys.
pub open spec fn metadata_block(provider: Seq<char>, format: Seq<char>, stamp: Seq<char>) -> Seq<
    (Seq<char>, Seq<char>),
> {
    seq![
        ("ingestedAt"@, stamp),
        ("sourceFormat"@, format),
        ("sourceProvider"@, provider),
        ("version"@, "1.0"@),
    ]
}

/// The keys of a metadata block stand in strictly ascending order, so that
/// none occurs twice.
pub proof fn lemma_metadata_keys_ascend(provider: Seq<char>, format: Seq<char>, stamp: Seq<char>)
    ensures
        forall|i: int, j: int|
            0 <= i < j < 4 ==> text_lt(
                #[trigger] metadata_block(provider, format, stamp)[i].0,
                #[trigger] metadata_block(provider, format, stamp)[j].0,
            ),
{
    reveal_strlit("ingestedAt");
    reveal_strlit("sourceFormat");
    reveal_strlit("sourceProvider");
    reveal_strlit("version");
    reveal_with_fuel(text_lt, 8);
    let block = metadata_block(provider, format, stamp);
    lemma_text_lt_transitive(block[0].0, block[1].0, block[2].0);
    lemma_text_lt_transitive(block[0].0, block[2].0, block[3].0);
    lemma_text_lt_transitive(block[1].0, block[2].0, block[3].0);
}

/// Builds the metadata block of an adapter for the given moment.
pub fn metadata_at(provider: &str, format: &str, stamp: &str) -> (block: Vec<(String, String)>)
    ensures
        block.deep_view() == metadata_block(provider@, format@, stamp@),
{
    let mut block: Vec<(String, String)> = Vec::new();
    block.push((String::from_str("ingestedAt"), String::from_str(stamp)));
    block.push((String::from_str("sourceFormat"), String::from_str(format)));
    block.push((String::from_str("sourceProvider"), String::from_str(provider)));
    block.push((String::from_str("version"), String::from_str("1.0")));
    block
}

/// A copy of a metadata block.
pub fn copy_block(block: &Vec<(String, String)>) -> (copy: Vec<(String, String)>)
    ensures
        copy.deep_view() == block.deep_view(),
{
    let mut copy: Vec<(String, String)> = Vec::new();
    let mut i: usize = 0;
    while i < block.len()
        invariant
            i <= block.len(),
            copy.len() == i,
            forall|j: int| 0 <= j < i ==> (#[trigger] copy[j]).deep_view() == block[j].deep_view(),
        decreases block.len() - i,
    {
        copy.push((block[i].0.clone(), block[i].1.clone()));
        i = i + 1;
    }
    copy
}

/// A failure of the normalization pipeline.
#[derive(Debug, PartialEq, Eq)]
pub enum NormalizationError {
    /// Nothing went wrong.
    NoError,
    /// The text is not in the adapter's format; with the message.
    Parse(String),
    /// One row failed validation; with the message and the row's position.
    Validate(String, usize),
    /// The failures of a validation pass, one for each row that failed.
    Aggregate(Vec<NormalizationError>),
    /// Any other failure, such as an identifier that names no adapter.
    Unknown(String),
}

impl NormalizationError {
    /// Whether the value stands for "no error": `NoError` itself, or an
    /// aggregate without entries.
    pub fn is_clean(&self) -> (clean: bool)
        ensures
            clean == (*self is NoError || (*self matches NormalizationError::Aggregate(list)
                && list@.len() == 0)),
    {
        match self {
            NormalizationError::NoError => true,
            NormalizationError::Aggregate(list) => list.len() == 0,
            _ => false,
        }
    }
}

/// The message of every entry of a validation report.
pub open spec fn invalid_message() -> Seq<char> {
    "Data is invalid"@
}

/// Whether each row passes validation, row by row.
pub open spec fn validity(entries: Seq<Entry>) -> Seq<bool> {
    Seq::new(entries.len(), |i: int| entries[i].valid)
}

/// The positions, in ascending order, of the rows among the first `n` that
/// do not pass.
pub open spec fn failing_positions(passes: Seq<bool>, n: nat) -> Seq<int>
    decreases n,
{
    if n == 0 {
        Seq::empty()
    } else {
        let before = failing_positions(passes, (n - 1) as nat);
        if n <= passes.len() && !passes[n - 1] {
            before.push(n - 1)
        } else {
            before
        }
    }
}

/// The positions of the rows among the first `n` that do not pass, as the
/// error index holds them.
pub open spec fn failing_rows(passes: Seq<bool>, n: nat) -> Set<usize> {
    Set::new(|i: usize| i < n && i < passes.len() && !passes[i as int])
}

/// The positions, in ascending order, of the rows that fail validation.
pub open spec fn invalid_positions(entries: Seq<Entry>) -> Seq<int> {
    failing_positions(validity(entries), entries.len())
}

/// The positions of the rows that fail validation, as the error index holds
/// them.
pub open spec fn invalid_rows(entries: Seq<Entry>) -> Set<usize> {
    failing_rows(validity(entries), entries.len())
}

/// `error` says that the row at `position` failed validation.
pub open spec fn is_failure(error: NormalizationError, position: int) -> bool {
    error matches NormalizationError::Validate(message, index) && message@ == invalid_message()
        && index == position
}

/// `list` holds one failure for each of the positions, in their order.
pub open spec fn is_failure_list(list: Seq<NormalizationError>, positions: Seq<int>) -> bool {
    list.len() == positions.len() && forall|j: int|
        0 <= j < list.len() ==> is_failure(#[trigger] list[j], positions[j])
}

/// `report` is the result of a validation pass in which the rows at
/// `positions` failed: no error where none failed, else the aggregate of one
/// failure for each.
pub open spec fn is_report(report: NormalizationError, positions: Seq<int>) -> bool {
    if positions.len() == 0 {
        report is NoError
    } else {
        report matches NormalizationError::Aggregate(list) && is_failure_list(list@, positions)
    }
}

/// `records` is the conversion of the rows whose positions are not flagged:
/// their grouping, every record with the date and the metadata block of one
/// moment.
pub open spec fn is_conversion(
    records: Seq<RecordView>,
    entries: Seq<Entry>,
    flagged: Set<usize>,
    provider: Seq<char>,
    format: Seq<char>,
) -> bool {
    &&& is_grouping(records, entries, flagged, entries.len())
    &&& exists|stamp: Seq<char>| #[trigger]
        stamped(records, stamp, metadata_block(provider, format, stamp))
}

/// `block` is the metadata block of the adapter for some moment.
pub open spec fn is_metadata(
    block: Seq<(Seq<char>, Seq<char>)>,
    provider: Seq<char>,
    format: Seq<char>,
) -> bool {
    exists|stamp: Seq<char>| block == #[trigger] metadata_block(provider, format, stamp)
}

/// The positions that a validation report lists stand in ascending order and
/// are those of the rows that do not pass, each once.
pub proof fn lemma_failing_positions(passes: Seq<bool>, n: nat)
    requires
        n <= passes.len(),
    ensures
        forall|j: int, k: int|
            0 <= j < k < failing_positions(passes, n).len() ==> failing_positions(passes, n)[j]
                < failing_positions(passes, n)[k],
        forall|j: int|
            0 <= j < failing_positions(passes, n).len() ==> 0 <= #[trigger] failing_positions(
                passes,
                n,
            )[j] < n && !passes[failing_positions(passes, n)[j]],
        forall|i: int|
            0 <= i < n && !passes[i] ==> #[trigger] failing_positions(passes, n).contains(i),
    decreases n,
{
    if n > 0 {
        let before = failing_positions(passes, (n - 1) as nat);
        let now = failing_positions(passes, n);
        lemma_failing_positions(passes, (n - 1) as nat);
        assert forall|i: int| 0 <= i < n && !passes[i] implies #[trigger] now.contains(i) by {
            if i == n - 1 {
                assert(now[now.len() - 1] == i);
            } else {
                assert(before.contains(i));
                let j = choose|j: int| 0 <= j < before.len() && before[j] == i;
                assert(now[j] == i);
            }
        }
    }
}

/// A second validation pass over the same rows adds nothing to the error
/// index.
pub proof fn lemma_revalidation_adds_nothing(flagged: Set<usize>, entries: Seq<Entry>)
    ensures
        flagged.union(invalid_rows(entries)).union(invalid_rows(entries)) == flagged.union(
            invalid_rows(entries),
        ),
{
}

/// The report of a validation pass stands for "no error" exactly when every
/// row passes.
pub proof fn lemma_clean_report(report: NormalizationError, entries: Seq<Entry>)
    requires
        is_report(report, invalid_positions(entries)),
    ensures
        (report is NoError || (report matches NormalizationError::Aggregate(list) && list@.len()
            == 0)) <==> forall|i: int| 0 <= i < entries.len() ==> (#[trigger] entries[i]).valid,
{
    let passes = validity(entries);
    lemma_failing_positions(passes, entries.len());
    let positions = invalid_positions(entries);
    if positions.len() > 0 {
        assert(!entries[positions[0]].valid);
    } else {
        assert forall|i: int| 0 <= i < entries.len() implies (#[trigger] entries[i]).valid by {
            if !entries[i].valid {
                assert(positions.contains(i));
            }
        }
    }
}

/// Closes a validation pass over rows of which `passes` says which pass: the
/// positions of the others join the error index, and the report is no error
/// where every row passes, else the aggregate of one failure for each row
/// that does not, in ascending order.
pub fn report_failures(passes: &Vec<bool>, error_index: &mut HashSet<usize>) -> (report:
    NormalizationError)
    ensures
        final(error_index)@ == old(error_index)@.union(failing_rows(passes@, passes@.len())),
        is_report(report, failing_positions(passes@, passes@.len())),
{
    broadcast use vstd::std_specs::hash::group_hash_axioms;

    let mut failures: Vec<NormalizationError> = Vec::new();
    let mut i: usize = 0;
    while i < passes.len()
        invariant
            i <= passes.len(),
            error_index@ == old(error_index)@.union(failing_rows(passes@, i as nat)),
            is_failure_list(failures@, failing_positions(passes@, i as nat)),
        decreases passes.len() - i,
    {
        if !passes[i] {
            failures.push(NormalizationError::Validate(String::from_str("Data is invalid"), i));
            error_index.insert(i);
        }
        i = i + 1;
    }
    if failures.len() > 0 {
        NormalizationError::Aggregate(failures)
    } else {
        NormalizationError::NoError
    }
}

/// The capability set of a provider adapter. An adapter owns the rows of one
/// batch and the error index of that batch.
pub trait Provider {
    /// The name under which the adapter signs its records.
    spec fn source_provider(&self) -> Seq<char>;

    /// The name of the wire format that the adapter reads.
    spec fn source_format(&self) -> Seq<char>;

    /// The parsed rows, each as validation and conversion see it.
    spec fn entries(&self) -> Seq<Entry>;

    /// The error index: the positions of the rows that conversion skips.
    spec fn flagged(&self) -> Set<usize>;

    /// What the adapter makes of a text: the rows, or the message of the
    /// parse failure.
    spec fn reading(&self, text: Seq<char>) -> Result<Seq<Entry>, Seq<char>>;

    /// The rows are such as `parse` leaves them.
    spec fn parsed(&self) -> bool;

    /// The rows are such as `parse` leaves them, and every row that is not
    /// flagged passes validation.
    spec fn ready(&self) -> bool;

    /// The metadata block of the adapter, for the present moment.
    fn get_metadata(&self) -> (block: Vec<(String, String)>)
        ensures
            is_metadata(block.deep_view(), self.source_provider(), self.source_format()),
    ;

    /// Reads a whole batch. On success the rows of the text replace the rows
    /// held before; on failure the adapter is left as it was. The error index
    /// is not touched.
    fn parse(&mut self, data: &str) -> (result: Result<(), NormalizationError>)
        ensures
            final(self).flagged() == old(self).flagged(),
            final(self).source_provider() == old(self).source_provider(),
            final(self).source_format() == old(self).source_format(),
            match old(self).reading(data@) {
                Ok(rows) => result is Ok && final(self).entries() == rows && final(self).parsed(),
                Err(message) => result matches Err(NormalizationError::Parse(text)) && text@
                    == message && final(self).entries() == old(self).entries()
                    && final(self).parsed() == old(self).parsed() && final(self).ready() == old(
                    self,
                ).ready(),
            },
            forall|text: Seq<char>| #[trigger]
                final(self).reading(text) == old(self).reading(text),
    ;

    /// Checks every row. The positions of the rows that fail join the error
    /// index, and the report lists them in ascending order.
    fn validate(&mut self) -> (report: NormalizationError)
        requires
            old(self).parsed(),
        ensures
            final(self).entries() == old(self).entries(),
            final(self).source_provider() == old(self).source_provider(),
            final(self).source_format() == old(self).source_format(),
            final(self).flagged() == old(self).flagged().union(invalid_rows(old(self).entries())),
            is_report(report, invalid_positions(old(self).entries())),
            final(self).parsed(),
            final(self).ready(),
            forall|text: Seq<char>| #[trigger]
                final(self).reading(text) == old(self).reading(text),
    ;

    /// Groups the rows that are not flagged into canonical records, dated
    /// with the present moment.
    fn convert(&self) -> (records: Vec<NormalizeData>)
        requires
            self.ready(),
        ensures
            is_conversion(
                records.deep_view(),
                self.entries(),
                self.flagged(),
                self.source_provider(),
                self.source_format(),
            ),
    ;
}

} // verus!
