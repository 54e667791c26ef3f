use normalizer::json::Json;
use normalizer::model::{NormalizationError, Provider};
use normalizer::provider_b::{decode_rows, ProviderHandler};

#[test]
fn provider_b_test() {
    let json_str = r#"[{
            "patient_id": "P123b",
            "patient_name": "last",
            "assessment_type": "cognitive",
            "score_memory": 85,
            "score_processing": 72,
            "notes": "..."
        }]"#;

    let mut handler = ProviderHandler::new();
    let provider: &mut dyn Provider = &mut handler as &mut dyn Provider;
    assert_eq!(provider.parse(json_str).is_ok(), true);
    assert_eq!(provider.validate(), NormalizationError::NoError);
    let converted = provider.convert();
    assert_eq!(converted.len(), 1);
    assert_eq!(converted[0].scores.len(), 2);
}

#[test]
fn flat_name_is_b() {
    assert_eq!(ProviderHandler::name(), "b");
}

#[test]
fn flat_scores_are_scaled_and_named_without_the_prefix() {
    let mut handler = ProviderHandler::new();
    let text = r#"[{"patient_id":"P1","patient_name":"n","assessment_type":"cognitive",
        "score_memory":8,"score_":3,"score":9,"scores_x":4,"notes":"","score_processing":0}]"#;
    assert!(handler.parse(text).is_ok());
    assert_eq!(handler.validate(), NormalizationError::NoError);
    let records = handler.convert_at("now");
    assert_eq!(records.len(), 1);
    assert_eq!(records[0].patientId, "P1");
    assert_eq!(records[0].assessmentType, "cognitive");
    let scores: Vec<(String, i64, String)> = records[0]
        .scores
        .iter()
        .map(|s| (s.dimension.clone(), s.value, s.scale.clone()))
        .collect();
    assert_eq!(
        scores,
        vec![
            ("".to_string(), 30, "0-100".to_string()),
            ("memory".to_string(), 80, "0-100".to_string()),
            ("processing".to_string(), 0, "0-100".to_string()),
        ]
    );
}

#[test]
fn flat_rows_need_their_four_texts() {
    let mut handler = ProviderHandler::new();
    let text = r#"[
        {"patient_id":"P1","patient_name":"n","assessment_type":"t","notes":""},
        {"patient_name":"n","assessment_type":"t","notes":""},
        {"patient_id":"P1","assessment_type":"t","notes":""},
        {"patient_id":"P1","patient_name":"n","notes":""},
        {"patient_id":"P1","patient_name":"n","assessment_type":"t"},
        {"patient_id":7,"patient_name":"n","assessment_type":"t","notes":""},
        {"patient_id":"P1","patient_name":null,"assessment_type":"t","notes":""},
        {"patient_id":"P1","patient_name":"n","assessment_type":["t"],"notes":""},
        {"patient_id":"P1","patient_name":"n","assessment_type":"t","notes":{}},
        {"patient_id":"","patient_name":"","assessment_type":"","notes":""}
    ]"#;
    assert!(handler.parse(text).is_ok());
    let report = handler.validate();
    let expected: Vec<NormalizationError> = (1..=8)
        .map(|i| NormalizationError::Validate("Data is invalid".to_string(), i))
        .collect();
    assert_eq!(report, NormalizationError::Aggregate(expected));
    let records = handler.convert_at("now");
    let keys: Vec<(String, String)> =
        records.iter().map(|r| (r.patientId.clone(), r.assessmentType.clone())).collect();
    assert_eq!(
        keys,
        vec![("".to_string(), "".to_string()), ("P1".to_string(), "t".to_string())]
    );
}

#[test]
fn flat_scores_must_be_integers() {
    let mut handler = ProviderHandler::new();
    let text = r#"[
        {"patient_id":"P1","patient_name":"n","assessment_type":"t","notes":"","score_a":7.5},
        {"patient_id":"P1","patient_name":"n","assessment_type":"t","notes":"","score_a":"7"},
        {"patient_id":"P1","patient_name":"n","assessment_type":"t","notes":"","score_a":null},
        {"patient_id":"P1","patient_name":"n","assessment_type":"t","notes":"","score_a":18446744073709551615},
        {"patient_id":"P1","patient_name":"n","assessment_type":"t","notes":"","score_a":922337203685477581},
        {"patient_id":"P1","patient_name":"n","assessment_type":"t","notes":"","score_a":922337203685477580},
        {"patient_id":"P1","patient_name":"n","assessment_type":"t","notes":"","score_a":1,"score_b":true},
        {"patient_id":"P1","patient_name":"n","assessment_type":"t","notes":"","other":7.5}
    ]"#;
    assert!(handler.parse(text).is_ok());
    let report = handler.validate();
    let expected: Vec<NormalizationError> = [0, 1, 2, 3, 4, 6]
        .iter()
        .map(|i| NormalizationError::Validate("Data is invalid".to_string(), *i))
        .collect();
    assert_eq!(report, NormalizationError::Aggregate(expected));
    let records = handler.convert_at("now");
    assert_eq!(records.len(), 1);
    let values: Vec<i64> = records[0].scores.iter().map(|s| s.value).collect();
    assert_eq!(values, vec![9223372036854775800]);
}

#[test]
fn flat_wrong_structure_is_a_parse_error() {
    let expected = Err(NormalizationError::Parse("Input is not a list of flat records".to_string()));
    for text in [r#"{"patient_id":"P1"}"#, r#"[1]"#, r#"[{"patient_id":"P1"},[]]"#, r#""x""#] {
        let mut handler = ProviderHandler::new();
        assert_eq!(handler.parse(text), expected, "{}", text);
    }
}

#[test]
fn flat_malformed_json_is_a_parse_error() {
    let mut handler = ProviderHandler::new();
    match handler.parse("[{\"patient_id\": \"P1\",}]") {
        Err(NormalizationError::Parse(message)) => {
            assert_eq!(message, "trailing comma at line 1 column 22")
        }
        other => panic!("unexpected result: {:?}", other),
    }
}

#[test]
fn flat_groups_rows_of_one_patient_and_type() {
    let mut handler = ProviderHandler::new();
    let text = r#"[
        {"patient_id":"b","patient_name":"n","assessment_type":"t","notes":"","score_x":1},
        {"patient_id":"B","patient_name":"n","assessment_type":"t","notes":"","score_x":2},
        {"patient_id":"b","patient_name":"n","assessment_type":"s","notes":"","score_x":3},
        {"patient_id":"b","patient_name":"m","assessment_type":"t","notes":"!","score_y":4}
    ]"#;
    assert!(handler.parse(text).is_ok());
    assert_eq!(handler.validate(), NormalizationError::NoError);
    let records = handler.convert_at("now");
    let found: Vec<(String, String, Vec<i64>)> = records
        .iter()
        .map(|r| {
            (
                r.patientId.clone(),
                r.assessmentType.clone(),
                r.scores.iter().map(|s| s.value).collect(),
            )
        })
        .collect();
    assert_eq!(
        found,
        vec![
            ("B".to_string(), "t".to_string(), vec![20]),
            ("b".to_string(), "s".to_string(), vec![30]),
            ("b".to_string(), "t".to_string(), vec![10, 40]),
        ]
    );
}

#[test]
fn rows_are_taken_out_of_a_document_in_order() {
    let row = |id: &str| vec![("patient_id".to_string(), Json::Text(id.to_string()))];
    let document = Json::Array(vec![
        Json::Object(row("1")),
        Json::Object(row("2")),
        Json::Object(row("3")),
    ]);
    let rows = decode_rows(document).expect("a list of objects");
    let ids: Vec<String> = rows
        .iter()
        .map(|r| match &r[0].1 {
            Json::Text(id) => id.clone(),
            _ => String::new(),
        })
        .collect();
    assert_eq!(ids, vec!["1", "2", "3"]);
    assert!(decode_rows(Json::Array(vec![Json::Object(row("1")), Json::Bool(true)])).is_none());
    assert!(decode_rows(Json::Object(row("1"))).is_none());
    assert_eq!(decode_rows(Json::Array(Vec::new())).map(|rows| rows.len()), Some(0));
}

#[test]
fn flat_metadata_names_the_adapter() {
    let handler = ProviderHandler::new();
    let block = handler.get_metadata();
    assert_eq!(block.len(), 4);
    assert_eq!(block[1], ("sourceFormat".to_string(), "flat_key_value".to_string()));
    assert_eq!(block[2], ("sourceProvider".to_string(), "provider_b".to_string()));
    assert_eq!(block[3], ("version".to_string(), "1.0".to_string()));
}
