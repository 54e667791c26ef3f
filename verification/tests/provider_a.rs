use normalizer::dates::CalendarDate;
use normalizer::json::Json;
use normalizer::model::{NormalizationError, Provider};
use normalizer::provider_a::{decode_records, parse_dob, ProviderHandler};

#[test]
fn provider_a_test() {
    let json_str = r#"[{
            "patient": {"id": "P123a", "name": "test", "dob": "20260221"},
            "assessment": {
            "type": "behavioral_screening",
            "scores": {"anxiety": 7, "social": 4, "attention": 6},
            "notes": "This is a note"
            }
        }]"#;

    let mut handler = ProviderHandler::new();
    let provider: &mut dyn Provider = &mut handler as &mut dyn Provider;
    assert_eq!(provider.parse(json_str).is_ok(), true);
    assert_eq!(provider.validate(), NormalizationError::NoError);
    let converted = provider.convert();
    assert_eq!(converted.len(), 1);
    assert_eq!(converted[0].scores.len(), 3);
}

#[test]
fn nested_name_is_a() {
    assert_eq!(ProviderHandler::name(), "a");
}

#[test]
fn nested_new_is_empty() {
    let handler = ProviderHandler::new();
    assert!(handler.data.is_empty());
    assert!(handler.error_index.is_empty());
    assert!(handler.convert_at("2026-01-01T00:00:00+00:00").is_empty());
}

#[test]
fn nested_parse_keeps_every_field() {
    let mut handler = ProviderHandler::new();
    let text = r#"[{"patient":{"id":"P1","name":"n","dob":"20260101"},
        "assessment":{"type":"behavioral","scores":{"b":2,"a":1},"notes":"x"}}]"#;
    assert!(handler.parse(text).is_ok());
    assert_eq!(handler.data.len(), 1);
    let row = &handler.data[0];
    assert_eq!(row.patient.id, "P1");
    assert_eq!(row.patient.name, "n");
    assert_eq!(row.patient.dob, Some(CalendarDate { year: 2026, month: 1, day: 1 }));
    assert_eq!(row.assessment.type_, "behavioral");
    assert_eq!(row.assessment.notes, "x");
    assert_eq!(row.assessment.scores, vec![("a".to_string(), 1), ("b".to_string(), 2)]);
}

#[test]
fn nested_scores_are_scaled_by_ten() {
    let mut handler = ProviderHandler::new();
    let text = r#"[{"patient":{"id":"P1","name":"n","dob":"20260101"},
        "assessment":{"type":"t","scores":{"zeta":10,"alpha":0,"mid":-3},"notes":"x"}}]"#;
    assert!(handler.parse(text).is_ok());
    assert_eq!(handler.validate(), NormalizationError::NoError);
    let records = handler.convert_at("now");
    assert_eq!(records.len(), 1);
    let scores: Vec<(String, i64, String)> = records[0]
        .scores
        .iter()
        .map(|s| (s.dimension.clone(), s.value, s.scale.clone()))
        .collect();
    assert_eq!(
        scores,
        vec![
            ("alpha".to_string(), 0, "0-100".to_string()),
            ("mid".to_string(), -30, "0-100".to_string()),
            ("zeta".to_string(), 100, "0-100".to_string()),
        ]
    );
}

#[test]
fn nested_blank_row_is_the_only_invalid_row() {
    let mut handler = ProviderHandler::new();
    let text = r#"[
        {"patient":{"id":"P1","name":"","dob":""},"assessment":{"type":"","scores":{},"notes":""}},
        {"patient":{"id":"","name":"","dob":"none"},"assessment":{"type":"","scores":{},"notes":""}},
        {"patient":{"id":"","name":"","dob":"20260101"},"assessment":{"type":"","scores":{},"notes":""}},
        {"patient":{"id":"","name":"","dob":""},"assessment":{"type":"","scores":{"a":1},"notes":""}},
        {"patient":{"id":"","name":"","dob":""},"assessment":{"type":"","scores":{},"notes":"n"}},
        {"patient":{"id":"","name":"","dob":""},"assessment":{"type":"","scores":{},"notes":""}}
    ]"#;
    assert!(handler.parse(text).is_ok());
    let report = handler.validate();
    assert_eq!(
        report,
        NormalizationError::Aggregate(vec![
            NormalizationError::Validate("Data is invalid".to_string(), 1),
            NormalizationError::Validate("Data is invalid".to_string(), 5),
        ])
    );
    let mut flagged: Vec<usize> = handler.error_index.iter().copied().collect();
    flagged.sort();
    assert_eq!(flagged, vec![1, 5]);
}

#[test]
fn nested_flagged_rows_are_left_out() {
    let mut handler = ProviderHandler::new();
    let text = r#"[
        {"patient":{"id":"","name":"","dob":""},"assessment":{"type":"","scores":{},"notes":""}},
        {"patient":{"id":"P1","name":"n","dob":"20260101"},"assessment":{"type":"t","scores":{"a":1},"notes":""}}
    ]"#;
    assert!(handler.parse(text).is_ok());
    assert_ne!(handler.validate(), NormalizationError::NoError);
    let records = handler.convert_at("now");
    assert_eq!(records.len(), 1);
    assert_eq!(records[0].patientId, "P1");
}

#[test]
fn nested_unvalidated_blank_row_is_converted() {
    let mut handler = ProviderHandler::new();
    let text = r#"[{"patient":{"id":"","name":"","dob":""},"assessment":{"type":"","scores":{},"notes":""}}]"#;
    assert!(handler.parse(text).is_ok());
    let records = handler.convert_at("now");
    assert_eq!(records.len(), 1);
    assert_eq!(records[0].patientId, "");
    assert!(records[0].scores.is_empty());
}

#[test]
fn nested_groups_in_lexicographic_order() {
    let mut handler = ProviderHandler::new();
    let row = |id: &str, kind: &str, dim: &str, v: i64| {
        format!(
            r#"{{"patient":{{"id":"{}","name":"n","dob":"20260101"}},"assessment":{{"type":"{}","scores":{{"{}":{}}},"notes":""}}}}"#,
            id, kind, dim, v
        )
    };
    let text = format!(
        "[{},{},{},{},{}]",
        row("P2", "b", "x", 1),
        row("P10", "z", "x", 2),
        row("P2", "a", "x", 3),
        row("P1", "m", "x", 4),
        row("P2", "b", "y", 5)
    );
    assert!(handler.parse(&text).is_ok());
    assert_eq!(handler.validate(), NormalizationError::NoError);
    let records = handler.convert_at("now");
    let keys: Vec<(String, String, usize)> = records
        .iter()
        .map(|r| (r.patientId.clone(), r.assessmentType.clone(), r.scores.len()))
        .collect();
    assert_eq!(
        keys,
        vec![
            ("P1".to_string(), "m".to_string(), 1),
            ("P10".to_string(), "z".to_string(), 1),
            ("P2".to_string(), "a".to_string(), 1),
            ("P2".to_string(), "b".to_string(), 2),
        ]
    );
    assert_eq!(records[3].scores[0].dimension, "x");
    assert_eq!(records[3].scores[0].value, 10);
    assert_eq!(records[3].scores[1].dimension, "y");
    assert_eq!(records[3].scores[1].value, 50);
}

#[test]
fn nested_malformed_json_is_a_parse_error() {
    let mut handler = ProviderHandler::new();
    match handler.parse("[{\"patient\": ") {
        Err(NormalizationError::Parse(message)) => {
            assert_eq!(message, "EOF while parsing a value at line 1 column 13")
        }
        other => panic!("unexpected result: {:?}", other),
    }
    assert!(handler.data.is_empty());
}

#[test]
fn nested_wrong_structure_is_a_parse_error() {
    let expected = Err(NormalizationError::Parse(
        "Input is not a list of patient assessments".to_string(),
    ));
    let texts = [
        r#"{"patient":{}}"#,
        r#"[1]"#,
        r#"[{"patient":{"id":"P1","name":"n","dob":"20260101"}}]"#,
        r#"[{"patient":{"id":"P1","name":"n"},"assessment":{"type":"t","scores":{},"notes":""}}]"#,
        r#"[{"patient":{"id":1,"name":"n","dob":""},"assessment":{"type":"t","scores":{},"notes":""}}]"#,
        r#"[{"patient":{"id":"P1","name":"n","dob":null},"assessment":{"type":"t","scores":{},"notes":""}}]"#,
        r#"[{"patient":{"id":"P1","name":"n","dob":""},"assessment":{"type":"t","scores":{"a":1.5},"notes":""}}]"#,
        r#"[{"patient":{"id":"P1","name":"n","dob":""},"assessment":{"type":"t","scores":{"a":"7"},"notes":""}}]"#,
        r#"[{"patient":{"id":"P1","name":"n","dob":""},"assessment":{"type":"t","scores":[],"notes":""}}]"#,
        r#"[{"patient":{"id":"P1","name":"n","dob":""},"assessment":{"type":"t","scores":{"a":922337203685477581},"notes":""}}]"#,
    ];
    for text in texts {
        let mut handler = ProviderHandler::new();
        assert_eq!(handler.parse(text), expected, "{}", text);
    }
}

#[test]
fn nested_largest_scalable_score_is_accepted() {
    let mut handler = ProviderHandler::new();
    let text = r#"[{"patient":{"id":"P1","name":"n","dob":""},"assessment":{"type":"t","scores":{"a":922337203685477580,"b":-922337203685477580},"notes":""}}]"#;
    assert!(handler.parse(text).is_ok());
    let records = handler.convert_at("now");
    assert_eq!(records[0].scores[0].value, 9223372036854775800);
    assert_eq!(records[0].scores[1].value, -9223372036854775800);
}

#[test]
fn nested_failed_parse_keeps_the_rows() {
    let mut handler = ProviderHandler::new();
    let text = r#"[{"patient":{"id":"P1","name":"n","dob":""},"assessment":{"type":"t","scores":{},"notes":""}}]"#;
    assert!(handler.parse(text).is_ok());
    assert!(handler.parse("nonsense").is_err());
    assert_eq!(handler.data.len(), 1);
    assert!(handler.parse("[]").is_ok());
    assert!(handler.data.is_empty());
}

#[test]
fn nested_unknown_members_are_ignored() {
    let mut handler = ProviderHandler::new();
    let text = r#"[{"extra":1,"patient":{"id":"P1","name":"n","dob":"","age":3},"assessment":{"type":"t","scores":{},"notes":"","more":[]}}]"#;
    assert!(handler.parse(text).is_ok());
    assert_eq!(handler.data[0].patient.id, "P1");
}

#[test]
fn dob_is_read_leniently() {
    assert_eq!(parse_dob("20260221"), Some(CalendarDate { year: 2026, month: 2, day: 21 }));
    assert_eq!(parse_dob("2026-02-21"), None);
    assert_eq!(parse_dob("20260231"), None);
    assert_eq!(parse_dob(""), None);
}

#[test]
fn records_are_decoded_from_a_document() {
    let member = |name: &str, value: Json| (name.to_string(), value);
    let text = |value: &str| Json::Text(value.to_string());
    let document = Json::Array(vec![Json::Object(vec![
        member(
            "patient",
            Json::Object(vec![
                member("id", text("P1")),
                member("name", text("n")),
                member("dob", text("19990131")),
            ]),
        ),
        member(
            "assessment",
            Json::Object(vec![
                member("type", text("t")),
                member("scores", Json::Object(vec![member("a", Json::Number(Some(4)))])),
                member("notes", text("")),
            ]),
        ),
    ])]);
    let rows = decode_records(&document).expect("a list of records");
    assert_eq!(rows.len(), 1);
    assert_eq!(rows[0].patient.dob, Some(CalendarDate { year: 1999, month: 1, day: 31 }));
    assert_eq!(rows[0].assessment.scores, vec![("a".to_string(), 4)]);
    assert!(decode_records(&Json::Null).is_none());
    assert!(decode_records(&Json::Array(vec![Json::Number(None)])).is_none());
}

#[test]
fn nested_metadata_names_the_adapter() {
    let handler = ProviderHandler::new();
    let block = handler.get_metadata();
    let keys: Vec<&str> = block.iter().map(|(k, _)| k.as_str()).collect();
    assert_eq!(keys, vec!["ingestedAt", "sourceFormat", "sourceProvider", "version"]);
    assert!(block[0].1.contains('T'));
    assert_eq!(block[1].1, "nested_json");
    assert_eq!(block[2].1, "provider_a");
    assert_eq!(block[3].1, "1.0");
}

#[test]
fn nested_revalidation_adds_nothing() {
    let mut handler = ProviderHandler::new();
    let text = r#"[{"patient":{"id":"","name":"","dob":""},"assessment":{"type":"","scores":{},"notes":""}}]"#;
    assert!(handler.parse(text).is_ok());
    let first = handler.validate();
    let second = handler.validate();
    assert_eq!(first, second);
    assert_eq!(handler.error_index.len(), 1);
}
