use normalizer::model::{NormalizationError, Provider};
use normalizer::provider_a;
use normalizer::provider_c;
use normalizer::{handle_data, run_provider, select, Adapter};

#[test]
fn nested_json_end_to_end() {
    let text = r#"[{"patient":{"id":"P1","name":"n","dob":"20260101"},"assessment":{"type":"behavioral","scores":{"anxiety":7},"notes":"x"}}]"#;
    let (records, report) = handle_data("a", text).expect("a batch that parses");
    assert_eq!(report, NormalizationError::NoError);
    assert_eq!(records.len(), 1);
    assert_eq!(records[0].patientId, "P1");
    assert_eq!(records[0].assessmentType, "behavioral");
    assert_eq!(records[0].scores.len(), 1);
    assert_eq!(records[0].scores[0].dimension, "anxiety");
    assert_eq!(records[0].scores[0].value, 70);
    assert_eq!(records[0].scores[0].scale, "0-100");
    assert_eq!(records[0].metadata[2], ("sourceProvider".to_string(), "provider_a".to_string()));
    assert!(!records[0].assessmentDate.is_empty());
}

#[test]
fn delimited_text_end_to_end() {
    let text = "patient_id,assessment_date,metric_name,metric_value,category\n\
        P1,2024-10-15,attention_span,6,behavioral\n\
        P1,2024-10-15,social_engagement,4,behavioral\n\
        P2,2024-10-15,social_engagement,4,behavioral\n";
    let (records, report) = handle_data("c", text).expect("a batch that parses");
    assert_eq!(report, NormalizationError::NoError);
    assert_eq!(records.len(), 2);
    assert_eq!(records[0].patientId, "P1");
    assert_eq!(records[0].scores.len(), 2);
    assert_eq!(records[1].patientId, "P2");
    assert_eq!(records[1].scores.len(), 1);
}

#[test]
fn flat_json_end_to_end() {
    let text = r#"[{"patient_id":"P1","patient_name":"n","assessment_type":"cognitive","score_memory":8,"notes":""}]"#;
    let (records, report) = handle_data("b", text).expect("a batch that parses");
    assert_eq!(report, NormalizationError::NoError);
    assert_eq!(records.len(), 1);
    assert_eq!(records[0].scores[0].dimension, "memory");
    assert_eq!(records[0].scores[0].value, 80);
    assert_eq!(records[0].metadata[1], ("sourceFormat".to_string(), "flat_key_value".to_string()));
}

#[test]
fn malformed_delimited_text_is_a_parse_error() {
    let text = "patient_id,assessment_date,metric_name,metric_value,category\nP1,2024-10-15\n";
    assert_eq!(
        handle_data("c", text),
        Err(NormalizationError::Parse("Field count is not equal to header count".to_string()))
    );
}

#[test]
fn parse_failure_ends_the_run() {
    let mut handler = provider_a::ProviderHandler::new();
    let result = run_provider("not json", &mut handler);
    assert_eq!(
        result,
        Err(NormalizationError::Parse("expected ident at line 1 column 2".to_string()))
    );
    assert!(handler.data.is_empty());
    assert!(handler.error_index.is_empty());
}

#[test]
fn validation_failure_does_not_end_the_run() {
    let text = "patient_id,assessment_date,metric_name,metric_value,category\n\
        P1,2024-10-15,attention_span,600,behavioral\n\
        P2,2024-10-15,social_engagement,4,behavioral\n\
        ,2024-10-15,social_engagement,4,behavioral\n";
    let mut handler = provider_c::ProviderHandler::new();
    let (records, report) = run_provider(text, &mut handler).expect("a batch that parses");
    assert_eq!(
        report,
        NormalizationError::Aggregate(vec![
            NormalizationError::Validate("Data is invalid".to_string(), 0),
            NormalizationError::Validate("Data is invalid".to_string(), 2),
        ])
    );
    assert_eq!(records.len(), 1);
    assert_eq!(records[0].patientId, "P2");
}

#[test]
fn every_row_invalid_gives_no_records() {
    let text = r#"[{"patient":{"id":"","name":"","dob":""},"assessment":{"type":"","scores":{},"notes":""}}]"#;
    let (records, report) = handle_data("a", text).expect("a batch that parses");
    assert!(records.is_empty());
    assert_eq!(
        report,
        NormalizationError::Aggregate(vec![NormalizationError::Validate(
            "Data is invalid".to_string(),
            0
        )])
    );
}

#[test]
fn run_through_a_trait_object() {
    let mut handler = provider_a::ProviderHandler::new();
    let provider: &mut dyn Provider = &mut handler;
    let (records, report) = run_provider("[]", provider).expect("an empty batch");
    assert!(records.is_empty());
    assert_eq!(report, NormalizationError::NoError);
}

#[test]
fn unknown_provider_is_refused() {
    assert_eq!(
        handle_data("d", "[]"),
        Err(NormalizationError::Unknown("Provider not found with name: d".to_string()))
    );
    assert_eq!(
        handle_data("", "[]"),
        Err(NormalizationError::Unknown("Provider not found with name: ".to_string()))
    );
    assert_eq!(
        handle_data("A", "[]"),
        Err(NormalizationError::Unknown("Provider not found with name: A".to_string()))
    );
}

#[test]
fn select_makes_a_new_adapter_of_the_named_format() {
    assert!(matches!(select("a"), Ok(Adapter::NestedJson(_))));
    assert!(matches!(select("b"), Ok(Adapter::FlatJson(_))));
    assert!(matches!(select("c"), Ok(Adapter::Delimited(_))));
    match select("ab") {
        Err(NormalizationError::Unknown(message)) => {
            assert_eq!(message, "Provider not found with name: ab")
        }
        other => panic!("unexpected result: {:?}", other),
    }
}

#[test]
fn selected_adapter_runs_the_pipeline() {
    let mut adapter = select("b").expect("a known identifier");
    let text = r#"[{"patient_id":"P1","patient_name":"n","assessment_type":"t","notes":""},{"notes":""}]"#;
    let (records, report) = run_provider(text, &mut adapter).expect("a batch that parses");
    assert_eq!(records.len(), 1);
    assert_eq!(
        report,
        NormalizationError::Aggregate(vec![NormalizationError::Validate(
            "Data is invalid".to_string(),
            1
        )])
    );
    let block = adapter.get_metadata();
    assert_eq!(block[2].1, "provider_b");
}

#[test]
fn empty_aggregate_differs_from_no_error() {
    assert_ne!(NormalizationError::Aggregate(Vec::new()), NormalizationError::NoError);
    assert_eq!(
        NormalizationError::Validate("m".to_string(), 1),
        NormalizationError::Validate("m".to_string(), 1)
    );
    assert_ne!(
        NormalizationError::Validate("m".to_string(), 1),
        NormalizationError::Validate("m".to_string(), 2)
    );
    assert_ne!(
        NormalizationError::Parse("m".to_string()),
        NormalizationError::Unknown("m".to_string())
    );
}

#[test]
fn adapter_keeps_rows_and_flags_of_its_batch() {
    let mut adapter = select("c").expect("a known identifier");
    let text = "patient_id,assessment_date,metric_name,metric_value,category\n\
        P1,2024-10-15,m,5,c\n\
        P2,not-a-date,m,5,c\n";
    assert!(adapter.parse(text).is_ok());
    assert_eq!(
        adapter.validate(),
        NormalizationError::Aggregate(vec![NormalizationError::Validate(
            "Data is invalid".to_string(),
            1
        )])
    );
    let records = adapter.convert();
    assert_eq!(records.len(), 1);
    assert_eq!(records[0].assessmentDate, records[0].metadata[0].1);
    match adapter {
        Adapter::Delimited(handler) => {
            assert_eq!(handler.data.len(), 2);
            assert!(handler.error_index.contains(&1));
            assert!(!handler.error_index.contains(&0));
        }
        other => panic!("unexpected adapter: {:?}", other),
    }
}
