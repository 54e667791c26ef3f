//! Grouping of rows into canonical records: one record for each distinct pair
//! of patient and assessment type, the records in the order of those pairs.

use vstd::prelude::*;
use vstd::string::StringExecFns;
use crate::model::{copy_block, NormalizeData, NormalizeScore, RecordView, ScoreView};
use crate::text::{
    lemma_text_lt_irreflexive, lemma_text_lt_total, lemma_text_lt_transitive, precedes,
    same_text, text_lt,
};

verus! {

/// What validation and conversion read of one parsed row: whether the row
/// passes validation, the patient and the assessment type that it
/// names, and the scores that it bears, already on the canonical scale.
pub struct Entry {
    pub valid: bool,
    pub patient: Seq<char>,
    pub kind: Seq<char>,
    pub scores: Seq<ScoreView>,
}

/// The pair by which a row is grouped.
pub open spec fn entry_key(entry: Entry) -> (Seq<char>, Seq<char>) {
    (entry.patient, entry.kind)
}

/// The pair by which a record is ordered.
pub open spec fn record_key(record: RecordView) -> (Seq<char>, Seq<char>) {
    (record.patient_id, record.assessment_type)
}

/// Order of two pairs: by patient first, then by assessment type.
pub open spec fn key_lt(a: (Seq<char>, Seq<char>), b: (Seq<char>, Seq<char>)) -> bool {
    text_lt(a.0, b.0) || (a.0 == b.0 && text_lt(a.1, b.1))
}

/// The records stand in strictly ascending order of their pairs.
pub open spec fn ascending(records: Seq<RecordView>) -> bool {
    forall|i: int, j: int|
        0 <= i < j < records.len() ==> key_lt(
            record_key(#[trigger] records[i]),
            record_key(#[trigger] records[j]),
        )
}

/// Row `i` exists and its position is not in the error index.
pub open spec fn counted(entries: Seq<Entry>, flagged: Set<usize>, i: int) -> bool {
    0 <= i < entries.len() && !flagged.contains(i as usize)
}

/// The pairs named by the counted rows among the first `n`.
pub open spec fn group_keys(entries: Seq<Entry>, flagged: Set<usize>, n: nat) -> Set<
    (Seq<char>, Seq<char>),
>
    decreases n,
{
    if n == 0 {
        Set::empty()
    } else {
        let before = group_keys(entries, flagged, (n - 1) as nat);
        if counted(entries, flagged, n - 1) {
            before.insert(entry_key(entries[n - 1]))
        } else {
            before
        }
    }
}

/// The scores that the counted rows among the first `n` bear for one pair, in
/// the order of the rows.
pub open spec fn group_scores(
    entries: Seq<Entry>,
    flagged: Set<usize>,
    key: (Seq<char>, Seq<char>),
    n: nat,
) -> Seq<ScoreView>
    decreases n,
{
    if n == 0 {
        Seq::empty()
    } else {
        let before = group_scores(entries, flagged, key, (n - 1) as nat);
        if counted(entries, flagged, n - 1) && entry_key(entries[n - 1]) == key {
            before + entries[n - 1].scores
        } else {
            before
        }
    }
}

/// Some record carries the pair.
pub open spec fn holds_key(records: Seq<RecordView>, key: (Seq<char>, Seq<char>)) -> bool {
    exists|j: int| 0 <= j < records.len() && record_key(#[trigger] records[j]) == key
}

/// `records` is the grouping of the first `n` rows: one record for each pair
/// that a counted row names, in ascending order, each with the scores of its
/// rows.
pub open spec fn is_grouping(
    records: Seq<RecordView>,
    entries: Seq<Entry>,
    flagged: Set<usize>,
    n: nat,
) -> bool {
    &&& ascending(records)
    &&& records.len() == group_keys(entries, flagged, n).len()
    &&& forall|j: int|
        0 <= j < records.len() ==> group_keys(entries, flagged, n).contains(
            record_key(#[trigger] records[j]),
        )
    &&& forall|key: (Seq<char>, Seq<char>)| #[trigger]
        group_keys(entries, flagged, n).contains(key) ==> holds_key(records, key)
    &&& forall|j: int|
        0 <= j < records.len() ==> (#[trigger] records[j]).scores == group_scores(
            entries,
            flagged,
            record_key(records[j]),
            n,
        )
}

/// Every record bears the given date and metadata.
pub open spec fn stamped(
    records: Seq<RecordView>,
    stamp: Seq<char>,
    metadata: Seq<(Seq<char>, Seq<char>)>,
) -> bool {
    forall|j: int|
        0 <= j < records.len() ==> (#[trigger] records[j]).assessment_date == stamp
            && records[j].metadata == metadata
}

/// How one row changes the records: `after` is `before` with the scores added
/// to the record of the pair at position `at`, or with a new record put in
/// at `at`, the place that keeps the order.
pub open spec fn merged_at(
    before: Seq<RecordView>,
    after: Seq<RecordView>,
    at: int,
    key: (Seq<char>, Seq<char>),
    scores: Seq<ScoreView>,
    stamp: Seq<char>,
    metadata: Seq<(Seq<char>, Seq<char>)>,
) -> bool {
    &&& 0 <= at <= before.len()
    &&& forall|j: int| 0 <= j < at ==> key_lt(record_key(#[trigger] before[j]), key)
    &&& if at < before.len() && record_key(before[at]) == key {
        after == before.update(
            at,
            RecordView { scores: before[at].scores + scores, ..before[at] },
        )
    } else {
        &&& at < before.len() ==> key_lt(key, record_key(before[at]))
        &&& after == before.insert(
            at,
            RecordView {
                patient_id: key.0,
                assessment_date: stamp,
                assessment_type: key.1,
                scores,
                metadata,
            },
        )
    }
}

/// No pair precedes itself.
pub proof fn lemma_key_lt_irreflexive(a: (Seq<char>, Seq<char>))
    ensures
        !key_lt(a, a),
{
    lemma_text_lt_irreflexive(a.0);
    lemma_text_lt_irreflexive(a.1);
}

/// The order of pairs is transitive.
pub proof fn lemma_key_lt_transitive(
    a: (Seq<char>, Seq<char>),
    b: (Seq<char>, Seq<char>),
    c: (Seq<char>, Seq<char>),
)
    requires
        key_lt(a, b),
        key_lt(b, c),
    ensures
        key_lt(a, c),
{
    if text_lt(a.0, b.0) && text_lt(b.0, c.0) {
        lemma_text_lt_transitive(a.0, b.0, c.0);
    } else if a.0 == b.0 && b.0 == c.0 {
        lemma_text_lt_transitive(a.1, b.1, c.1);
    }
}

/// The pairs of finitely many rows are finitely many.
pub proof fn lemma_group_keys_finite(entries: Seq<Entry>, flagged: Set<usize>, n: nat)
    ensures
        group_keys(entries, flagged, n).finite(),
    decreases n,
{
    if n > 0 {
        lemma_group_keys_finite(entries, flagged, (n - 1) as nat);
    }
}

/// A pair is among the pairs of the first `n` rows exactly when one of those
/// rows is counted and names it.
pub proof fn lemma_group_keys_member(
    entries: Seq<Entry>,
    flagged: Set<usize>,
    n: nat,
    key: (Seq<char>, Seq<char>),
)
    ensures
        group_keys(entries, flagged, n).contains(key) <==> exists|i: int|
            0 <= i < n && counted(entries, flagged, i) && entry_key(#[trigger] entries[i]) == key,
    decreases n,
{
    if n > 0 {
        lemma_group_keys_member(entries, flagged, (n - 1) as nat, key);
    }
}

/// A pair that no counted row names has no scores.
pub proof fn lemma_group_scores_absent(
    entries: Seq<Entry>,
    flagged: Set<usize>,
    key: (Seq<char>, Seq<char>),
    n: nat,
)
    requires
        !group_keys(entries, flagged, n).contains(key),
    ensures
        group_scores(entries, flagged, key, n) == Seq::<ScoreView>::empty(),
    decreases n,
{
    if n > 0 {
        lemma_group_scores_absent(entries, flagged, key, (n - 1) as nat);
    }
}

/// A row that is not counted leaves the grouping as it is.
pub proof fn lemma_grouping_skips(
    records: Seq<RecordView>,
    entries: Seq<Entry>,
    flagged: Set<usize>,
    n: nat,
)
    requires
        is_grouping(records, entries, flagged, n),
        !counted(entries, flagged, n as int),
    ensures
        is_grouping(records, entries, flagged, n + 1),
{
}

/// In ascending records a pair stands at one place at most, and the place
/// that `merged_at` names is the only one where it can stand.
proof fn lemma_place_is_unique(
    before: Seq<RecordView>,
    at: int,
    key: (Seq<char>, Seq<char>),
    j: int,
)
    requires
        ascending(before),
        0 <= at <= before.len(),
        forall|i: int| 0 <= i < at ==> key_lt(record_key(#[trigger] before[i]), key),
        at < before.len() ==> record_key(before[at]) == key || key_lt(key, record_key(before[at])),
        0 <= j < before.len(),
        record_key(before[j]) == key,
    ensures
        j == at,
{
    lemma_key_lt_irreflexive(key);
    if j > at && record_key(before[at]) != key {
        lemma_key_lt_transitive(key, record_key(before[at]), key);
    }
}

/// A counted row, merged into the grouping of the rows before it, gives the
/// grouping of the rows up to and including it.
pub proof fn lemma_grouping_merges(
    before: Seq<RecordView>,
    after: Seq<RecordView>,
    at: int,
    entries: Seq<Entry>,
    flagged: Set<usize>,
    n: nat,
    stamp: Seq<char>,
    metadata: Seq<(Seq<char>, Seq<char>)>,
)
    requires
        is_grouping(before, entries, flagged, n),
        counted(entries, flagged, n as int),
        merged_at(
            before,
            after,
            at,
            entry_key(entries[n as int]),
            entries[n as int].scores,
            stamp,
            metadata,
        ),
    ensures
        is_grouping(after, entries, flagged, n + 1),
{
    let key = entry_key(entries[n as int]);
    let keys = group_keys(entries, flagged, n);
    let keys_after = group_keys(entries, flagged, n + 1);
    lemma_group_keys_finite(entries, flagged, n);
    lemma_key_lt_irreflexive(key);
    if at < before.len() && record_key(before[at]) == key {
        // The pair has its record: the pairs stay as they are, and the record
        // at `at` alone gains scores.
        assert forall|k: (Seq<char>, Seq<char>)| #[trigger]
            keys_after.contains(k) implies holds_key(after, k) by {
            let j = choose|j: int| 0 <= j < before.len() && record_key(#[trigger] before[j]) == k;
            assert(record_key(after[j]) == k);
        }
        assert forall|j: int| 0 <= j < after.len() implies (#[trigger] after[j]).scores
            == group_scores(entries, flagged, record_key(after[j]), n + 1) by {
            if j != at && record_key(before[j]) == key {
                lemma_place_is_unique(before, at, key, j);
            }
        }
    } else {
        // The pair is new: its record goes in at `at`, and every record from
        // there on moves one place up.
        if keys.contains(key) {
            let j = choose|j: int| 0 <= j < before.len() && record_key(#[trigger] before[j]) == key;
            lemma_place_is_unique(before, at, key, j);
        }
        lemma_group_scores_absent(entries, flagged, key, n);
        assert forall|i: int, j: int| 0 <= i < j < after.len() implies key_lt(
            record_key(#[trigger] after[i]),
            record_key(#[trigger] after[j]),
        ) by {
            if i == at && j - 1 > at {
                lemma_key_lt_transitive(key, record_key(before[at]), record_key(before[j - 1]));
            }
        }
        assert forall|k: (Seq<char>, Seq<char>)| #[trigger]
            keys_after.contains(k) implies holds_key(after, k) by {
            if k == key {
                assert(record_key(after[at]) == k);
            } else {
                let j = choose|j: int|
                    0 <= j < before.len() && record_key(#[trigger] before[j]) == k;
                if j < at {
                    assert(record_key(after[j]) == k);
                } else {
                    assert(record_key(after[j + 1]) == k);
                }
            }
        }
    }
}

/// A row merged into records that all bear one date and one metadata block,
/// with that date and that block, leaves records that all bear them.
pub proof fn lemma_merge_keeps_stamp(
    before: Seq<RecordView>,
    after: Seq<RecordView>,
    at: int,
    key: (Seq<char>, Seq<char>),
    scores: Seq<ScoreView>,
    stamp: Seq<char>,
    metadata: Seq<(Seq<char>, Seq<char>)>,
)
    requires
        stamped(before, stamp, metadata),
        merged_at(before, after, at, key, scores, stamp, metadata),
    ensures
        stamped(after, stamp, metadata),
{
}

/// Row `i` is counted, names the pair, and bears `score` at position `m`.
pub open spec fn bears(
    entries: Seq<Entry>,
    flagged: Set<usize>,
    key: (Seq<char>, Seq<char>),
    i: int,
    m: int,
    score: ScoreView,
) -> bool {
    &&& counted(entries, flagged, i)
    &&& entry_key(entries[i]) == key
    &&& 0 <= m < entries[i].scores.len()
    &&& entries[i].scores[m] == score
}

/// Every score of a pair is a score of a counted row that names the pair: a
/// row whose position is flagged gives no score to any record.
pub proof fn lemma_group_scores_origin(
    entries: Seq<Entry>,
    flagged: Set<usize>,
    key: (Seq<char>, Seq<char>),
    n: nat,
    k: int,
)
    requires
        0 <= k < group_scores(entries, flagged, key, n).len(),
    ensures
        exists|i: int, m: int|
            0 <= i < n && #[trigger] bears(
                entries,
                flagged,
                key,
                i,
                m,
                group_scores(entries, flagged, key, n)[k],
            ),
    decreases n,
{
    let before = group_scores(entries, flagged, key, (n - 1) as nat);
    if k < before.len() {
        lemma_group_scores_origin(entries, flagged, key, (n - 1) as nat, k);
        let (i, m) = choose|i: int, m: int|
            0 <= i < n - 1 && #[trigger] bears(entries, flagged, key, i, m, before[k]);
        assert(0 <= i < n && bears(
            entries,
            flagged,
            key,
            i,
            m,
            group_scores(entries, flagged, key, n)[k],
        ));
    } else {
        assert(0 <= n - 1 < n && bears(
            entries,
            flagged,
            key,
            n - 1,
            k - before.len(),
            group_scores(entries, flagged, key, n)[k],
        ));
    }
}

/// What a flagged row holds does not matter: the pairs and the scores of the
/// rows are the same with any other row in its place.
pub proof fn lemma_flagged_row_is_left_out(
    entries: Seq<Entry>,
    flagged: Set<usize>,
    i: int,
    other: Entry,
    key: (Seq<char>, Seq<char>),
    n: nat,
)
    requires
        0 <= i < entries.len(),
        flagged.contains(i as usize),
    ensures
        group_keys(entries.update(i, other), flagged, n) == group_keys(entries, flagged, n),
        group_scores(entries.update(i, other), flagged, key, n) == group_scores(
            entries,
            flagged,
            key,
            n,
        ),
    decreases n,
{
    if n > 0 {
        lemma_flagged_row_is_left_out(entries, flagged, i, other, key, (n - 1) as nat);
    }
}

/// The grouping of the rows is also the grouping of the rows with any other
/// row in the place of a flagged one.
pub proof fn lemma_grouping_ignores_flagged_row(
    records: Seq<RecordView>,
    entries: Seq<Entry>,
    flagged: Set<usize>,
    i: int,
    other: Entry,
)
    requires
        0 <= i < entries.len(),
        flagged.contains(i as usize),
        is_grouping(records, entries, flagged, entries.len()),
    ensures
        is_grouping(records, entries.update(i, other), flagged, entries.len()),
{
    let changed = entries.update(i, other);
    let n = entries.len();
    lemma_flagged_row_is_left_out(entries, flagged, i, other, (Seq::empty(), Seq::empty()), n);
    assert forall|j: int| 0 <= j < records.len() implies (#[trigger] records[j]).scores
        == group_scores(changed, flagged, record_key(records[j]), n) by {
        lemma_flagged_row_is_left_out(entries, flagged, i, other, record_key(records[j]), n);
    }
}

/// Two groupings of the same rows carry the same pair at every position.
proof fn lemma_groupings_share_keys(
    a: Seq<RecordView>,
    b: Seq<RecordView>,
    entries: Seq<Entry>,
    flagged: Set<usize>,
    n: nat,
    j: int,
)
    requires
        is_grouping(a, entries, flagged, n),
        is_grouping(b, entries, flagged, n),
        0 <= j < a.len(),
    ensures
        record_key(a[j]) == record_key(b[j]),
    decreases j,
{
    // Each of the two pairs at `j` stands somewhere in the other grouping:
    // `ka` at `m` in `b`, `kb` at `w` in `a`.
    let ka = record_key(a[j]);
    let kb = record_key(b[j]);
    assert(holds_key(b, ka));
    assert(holds_key(a, kb));
    let m = choose|m: int| 0 <= m < b.len() && record_key(#[trigger] b[m]) == ka;
    let w = choose|w: int| 0 <= w < a.len() && record_key(#[trigger] a[w]) == kb;
    lemma_key_lt_irreflexive(ka);
    lemma_key_lt_irreflexive(kb);
    if m < j {
        // Then `a` would carry `ka` at `m` and at `j`.
        lemma_groupings_share_keys(a, b, entries, flagged, n, m);
    } else if w < j {
        lemma_groupings_share_keys(a, b, entries, flagged, n, w);
    } else if m > j && w > j {
        // Then `kb` would precede `ka` in `b`, and `ka` precede `kb` in `a`.
        lemma_key_lt_transitive(ka, kb, ka);
    }
}

/// The rows determine their grouping: two groupings of the same rows have
/// the same length and, at every position, the same pair and the same scores.
pub proof fn lemma_grouping_is_unique(
    a: Seq<RecordView>,
    b: Seq<RecordView>,
    entries: Seq<Entry>,
    flagged: Set<usize>,
    n: nat,
)
    requires
        is_grouping(a, entries, flagged, n),
        is_grouping(b, entries, flagged, n),
    ensures
        a.len() == b.len(),
        forall|j: int|
            0 <= j < a.len() ==> record_key(#[trigger] a[j]) == record_key(b[j]) && a[j].scores
                == b[j].scores,
{
    assert forall|j: int| 0 <= j < a.len() implies record_key(#[trigger] a[j]) == record_key(b[j])
        && a[j].scores == b[j].scores by {
        lemma_groupings_share_keys(a, b, entries, flagged, n, j);
    }
}

/// Whether the record's pair precedes the given one.
fn key_precedes(record: &NormalizeData, patient: &str, kind: &str) -> (r: bool)
    ensures
        r == key_lt(record_key(record@), (patient@, kind@)),
{
    if precedes(record.patientId.as_str(), patient) {
        true
    } else if same_text(record.patientId.as_str(), patient) {
        precedes(record.assessmentType.as_str(), kind)
    } else {
        false
    }
}

/// Whether the record carries the given pair.
fn key_matches(record: &NormalizeData, patient: &str, kind: &str) -> (r: bool)
    ensures
        r == (record_key(record@) == (patient@, kind@)),
{
    same_text(record.patientId.as_str(), patient) && same_text(
        record.assessmentType.as_str(),
        kind,
    )
}

/// Adds the scores of one row to the records, which stand in ascending order:
/// to the record of the row's pair where there is one, else to a new record,
/// dated `stamp`, that is put in at the place that keeps the order. Returns
/// the position of that record.
pub fn merge_row(
    groups: &mut Vec<NormalizeData>,
    patient: String,
    kind: String,
    scores: Vec<NormalizeScore>,
    stamp: &str,
    metadata: &Vec<(String, String)>,
) -> (at: usize)
    requires
        ascending(old(groups).deep_view()),
    ensures
        merged_at(
            old(groups).deep_view(),
            final(groups).deep_view(),
            at as int,
            (patient@, kind@),
            scores.deep_view(),
            stamp@,
            metadata.deep_view(),
        ),
{
    let ghost key = (patient@, kind@);
    let ghost before = groups.deep_view();
    let mut at: usize = 0;
    let mut searching = true;
    while searching && at < groups.len()
        invariant
            at <= groups.len(),
            groups.deep_view() == before,
            key == (patient@, kind@),
            forall|j: int| 0 <= j < at ==> key_lt(record_key(#[trigger] before[j]), key),
            !searching ==> at < groups.len() && !key_lt(record_key(before[at as int]), key),
        decreases groups.len() - at + (if searching { 1int } else { 0int }),
    {
        if key_precedes(&groups[at], patient.as_str(), kind.as_str()) {
            at = at + 1;
        } else {
            searching = false;
        }
    }
    if at < groups.len() && key_matches(&groups[at], patient.as_str(), kind.as_str()) {
        let mut scores = scores;
        let ghost added = scores.deep_view();
        let ghost had = groups[at as int].scores.deep_view();
        groups[at].scores.append(&mut scores);
        assert(groups[at as int].scores.deep_view() =~= had + added);
        assert(groups.deep_view() =~= before.update(
            at as int,
            RecordView { scores: before[at as int].scores + added, ..before[at as int] },
        ));
    } else {
        let mut record = NormalizeData::new(
            patient,
            kind,
            String::from_str(stamp),
            copy_block(metadata),
        );
        record.scores = scores;
        groups.insert(at, record);
        assert(groups.deep_view() =~= before.insert(at as int, record@));
        proof {
            if at < before.len() {
                lemma_text_lt_total(before[at as int].patient_id, key.0);
                lemma_text_lt_total(before[at as int].assessment_type, key.1);
            }
        }
    }
    at
}

} // verus!
