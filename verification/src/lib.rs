//! Normalization of clinical-assessment records from several source formats
//! into one canonical record shape, keyed by patient and assessment type.

use vstd::prelude::*;
use vstd::string::StringExecFns;
use crate::grouping::{bears, group_scores, lemma_group_scores_origin, Entry};
use crate::model::{
    invalid_positions, invalid_rows, is_conversion, is_report, NormalizationError, NormalizeData,
    Provider,
};
use crate::text::same_text;

pub mod dates;
pub mod delimited;
pub mod grouping;
pub mod json;
pub mod model;
pub mod provider_a;
pub mod provider_b;
pub mod provider_c;
pub mod text;

verus! {

/// What the pipeline returns for a batch of which the adapter makes `reading`
/// and whose error index held `flagged` before: the parse failure, or the
/// conversion of the rows that pass validation together with the validation
/// report.
pub open spec fn is_outcome(
    result: Result<(Vec<NormalizeData>, NormalizationError), NormalizationError>,
    reading: Result<Seq<Entry>, Seq<char>>,
    flagged: Set<usize>,
    provider: Seq<char>,
    format: Seq<char>,
) -> bool {
    match reading {
        Ok(rows) => {
            &&& result matches Ok(output)
            &&& is_report(output.1, invalid_positions(rows))
            &&& is_conversion(
                output.0.deep_view(),
                rows,
                flagged.union(invalid_rows(rows)),
                provider,
                format,
            )
        },
        Err(message) => result matches Err(NormalizationError::Parse(text)) && text@ == message,
    }
}

/// Runs one batch through an adapter: parse, then validate, then convert. A
/// parse failure ends the run with that error, and the adapter is not asked
/// to validate or convert. A validation failure does not: the rows that
/// failed are left out of the records, and the report comes back with them.
pub fn run_provider<P: Provider + ?Sized>(data: &str, provider: &mut P) -> (result: Result<
    (Vec<NormalizeData>, NormalizationError),
    NormalizationError,
>)
    ensures
        is_outcome(
            result,
            old(provider).reading(data@),
            old(provider).flagged(),
            old(provider).source_provider(),
            old(provider).source_format(),
        ),
        result is Err ==> final(provider).entries() == old(provider).entries()
            && final(provider).flagged() == old(provider).flagged(),
        old(provider).reading(data@) matches Ok(rows) ==> final(provider).entries() == rows
            && final(provider).flagged() == old(provider).flagged().union(invalid_rows(rows)),
{
    match provider.parse(data) {
        Err(err) => Err(err),
        Ok(_) => {
            let report = provider.validate();
            let records = provider.convert();
            Ok((records, report))
        },
    }
}

/// An adapter of one of the supported formats.
#[derive(Debug)]
pub enum Adapter {
    NestedJson(provider_a::ProviderHandler),
    FlatJson(provider_b::ProviderHandler),
    Delimited(provider_c::ProviderHandler),
}

impl Provider for Adapter {
    open spec fn source_provider(&self) -> Seq<char> {
        match self {
            Adapter::NestedJson(handler) => handler.source_provider(),
            Adapter::FlatJson(handler) => handler.source_provider(),
            Adapter::Delimited(handler) => handler.source_provider(),
        }
    }

    open spec fn source_format(&self) -> Seq<char> {
        match self {
            Adapter::NestedJson(handler) => handler.source_format(),
            Adapter::FlatJson(handler) => handler.source_format(),
            Adapter::Delimited(handler) => handler.source_format(),
        }
    }

    open spec fn entries(&self) -> Seq<Entry> {
        match self {
            Adapter::NestedJson(handler) => handler.entries(),
            Adapter::FlatJson(handler) => handler.entries(),
            Adapter::Delimited(handler) => handler.entries(),
        }
    }

    open spec fn flagged(&self) -> Set<usize> {
        match self {
            Adapter::NestedJson(handler) => handler.flagged(),
            Adapter::FlatJson(handler) => handler.flagged(),
            Adapter::Delimited(handler) => handler.flagged(),
        }
    }

    open spec fn reading(&self, text: Seq<char>) -> Result<Seq<Entry>, Seq<char>> {
        match self {
            Adapter::NestedJson(handler) => handler.reading(text),
            Adapter::FlatJson(handler) => handler.reading(text),
            Adapter::Delimited(handler) => handler.reading(text),
        }
    }

    open spec fn parsed(&self) -> bool {
        match self {
            Adapter::NestedJson(handler) => handler.parsed(),
            Adapter::FlatJson(handler) => handler.parsed(),
            Adapter::Delimited(handler) => handler.parsed(),
        }
    }

    open spec fn ready(&self) -> bool {
        match self {
            Adapter::NestedJson(handler) => handler.ready(),
            Adapter::FlatJson(handler) => handler.ready(),
            Adapter::Delimited(handler) => handler.ready(),
        }
    }

    fn get_metadata(&self) -> (block: Vec<(String, String)>) {
        match self {
            Adapter::NestedJson(handler) => handler.get_metadata(),
            Adapter::FlatJson(handler) => handler.get_metadata(),
            Adapter::Delimited(handler) => handler.get_metadata(),
        }
    }

    fn parse(&mut self, data: &str) -> (result: Result<(), NormalizationError>) {
        match self {
            Adapter::NestedJson(handler) => handler.parse(data),
            Adapter::FlatJson(handler) => handler.parse(data),
            Adapter::Delimited(handler) => handler.parse(data),
        }
    }

    fn validate(&mut self) -> (report: NormalizationError) {
        match self {
            Adapter::NestedJson(handler) => handler.validate(),
            Adapter::FlatJson(handler) => handler.validate(),
            Adapter::Delimited(handler) => handler.validate(),
        }
    }

    fn convert(&self) -> (records: Vec<NormalizeData>) {
        match self {
            Adapter::NestedJson(handler) => handler.convert(),
            Adapter::FlatJson(handler) => handler.convert(),
            Adapter::Delimited(handler) => handler.convert(),
        }
    }
}

/// The message for an identifier that names no adapter.
pub open spec fn unknown_message(provider_name: Seq<char>) -> Seq<char> {
    "Provider not found with name: "@ + provider_name
}

/// `adapter` has no rows and an empty error index.
pub open spec fn is_fresh(adapter: Adapter) -> bool {
    adapter.entries().len() == 0 && adapter.flagged() == Set::<usize>::empty() && adapter.parsed()
        && adapter.ready()
}

/// A new adapter for the format that the identifier names: `a` for nested
/// JSON, `b` for flat JSON, `c` for delimited text. Any other identifier is
/// refused as unknown.
pub fn select(provider_name: &str) -> (result: Result<Adapter, NormalizationError>)
    ensures
        if provider_name@ == "a"@ {
            result matches Ok(adapter) && adapter is NestedJson && is_fresh(adapter)
        } else if provider_name@ == "b"@ {
            result matches Ok(adapter) && adapter is FlatJson && is_fresh(adapter)
        } else if provider_name@ == "c"@ {
            result matches Ok(adapter) && adapter is Delimited && is_fresh(adapter)
        } else {
            result matches Err(NormalizationError::Unknown(message)) && message@
                == unknown_message(provider_name@)
        },
{
    if same_text(provider_name, "a") {
        Ok(Adapter::NestedJson(provider_a::ProviderHandler::new()))
    } else if same_text(provider_name, "b") {
        Ok(Adapter::FlatJson(provider_b::ProviderHandler::new()))
    } else if same_text(provider_name, "c") {
        Ok(Adapter::Delimited(provider_c::ProviderHandler::new()))
    } else {
        Err(
            NormalizationError::Unknown(
                String::from_str("Provider not found with name: ").concat(provider_name),
            ),
        )
    }
}

/// Runs one batch, given as the whole text of its file, through a new adapter
/// of the format that the identifier names.
pub fn handle_data(provider_name: &str, data: &str) -> (result: Result<
    (Vec<NormalizeData>, NormalizationError),
    NormalizationError,
>)
    ensures
        if provider_name@ == "a"@ {
            is_outcome(
                result,
                provider_a::reading_of(data@),
                Set::empty(),
                provider_a::provider_name(),
                provider_a::format_name(),
            )
        } else if provider_name@ == "b"@ {
            is_outcome(
                result,
                provider_b::reading_of(data@),
                Set::empty(),
                provider_b::provider_name(),
                provider_b::format_name(),
            )
        } else if provider_name@ == "c"@ {
            is_outcome(
                result,
                provider_c::reading_of(data@),
                Set::empty(),
                provider_c::provider_name(),
                provider_c::format_name(),
            )
        } else {
            result matches Err(NormalizationError::Unknown(message)) && message@
                == unknown_message(provider_name@)
        },
{
    match select(provider_name) {
        Ok(adapter) => {
            let mut adapter = adapter;
            run_provider(data, &mut adapter)
        },
        Err(error) => Err(error),
    }
}

/// Every score of every record that the pipeline returns is a score of a row
/// that passes validation and names the record's patient and assessment type.
pub proof fn lemma_records_hold_valid_rows_only(
    entries: Seq<Entry>,
    flagged: Set<usize>,
    key: (Seq<char>, Seq<char>),
    k: int,
)
    requires
        entries.len() <= usize::MAX,
        0 <= k < group_scores(
            entries,
            flagged.union(invalid_rows(entries)),
            key,
            entries.len(),
        ).len(),
    ensures
        exists|i: int, m: int|
            0 <= i < entries.len() && entries[i].valid && #[trigger] bears(
                entries,
                flagged.union(invalid_rows(entries)),
                key,
                i,
                m,
                group_scores(entries, flagged.union(invalid_rows(entries)), key, entries.len())[k],
            ),
{
    let skipped = flagged.union(invalid_rows(entries));
    lemma_group_scores_origin(entries, skipped, key, entries.len(), k);
    let score = group_scores(entries, skipped, key, entries.len())[k];
    let (i, m) = choose|i: int, m: int|
        0 <= i < entries.len() && #[trigger] bears(entries, skipped, key, i, m, score);
    // A counted row is none of those that fail validation.
    assert(!invalid_rows(entries).contains(i as usize));
    assert(entries[i].valid);
}

} // verus!
