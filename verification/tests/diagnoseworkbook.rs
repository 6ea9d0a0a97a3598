use elixcee::diagnose::{HiddenCellsObservation, Interval, ResolutionFailureKind};
use elixcee::diagnoseworkbook::{to_json, to_plain_text, FailureDetail, FixtureResult, InputUsed};

fn array_oob() -> Option<Box<ResolutionFailureKind>> {
    Some(Box::new(ResolutionFailureKind::ArrayIndexOutOfBounds {
        name: "arr".to_string(),
        index: 999_999_999,
        lower: 0,
        upper: 9,
    }))
}

fn runtime_failure(message: &str) -> FailureDetail {
    FailureDetail {
        rule: "no_runtime_error".to_string(),
        address: None,
        actual: None,
        message: Some(message.to_string()),
    }
}

fn sample_observation() -> HiddenCellsObservation {
    HiddenCellsObservation {
        sheet: "sheet1".to_string(),
        address: "A1:C10".to_string(),
        rows: 10,
        columns: 3,
        hidden_rows: vec![Interval { start: 3, end: 5 }],
        hidden_columns: vec![],
        total_cells: 30,
        visible_cells: 21,
    }
}

#[test]
fn to_json_success_shape_matches_test_workbook() {
    let json = to_json(&FixtureResult::Passed {
        seed: 42,
        cases_run: 100,
        hidden_cells: None,
    });
    assert!(json.contains("\"ok\":true"));
    assert!(json.contains("\"seed\":42"));
    assert!(json.contains("\"cases_run\":100"));
}

#[test]
fn to_json_unclassified_failure_reports_empty_root_causes() {
    let result = FixtureResult::Failed {
        seed: 7,
        case_index: 3,
        inputs_used: vec![InputUsed {
            address: "Input!B2".to_string(),
            value_json: "-1".to_string(),
        }],
        failure: runtime_failure("Division by zero"),
        resolution_kind: None,
        hidden_cells: None,
    };
    let json = to_json(&result);
    assert!(json.contains("\"root_causes\":[]"));
    assert!(json.contains("\"message\":\"Division by zero\""));
}

#[test]
fn to_json_classified_failure_reports_a_root_cause() {
    let result = FixtureResult::Failed {
        seed: 42,
        case_index: 17,
        inputs_used: vec![InputUsed {
            address: "Input!B2".to_string(),
            value_json: "999999999".to_string(),
        }],
        failure: runtime_failure("array 'arr' index 999999999 out of bounds"),
        resolution_kind: array_oob(),
        hidden_cells: None,
    };
    let json = to_json(&result);
    assert!(json.contains("\"code\":\"ARRAY_INDEX_OUT_OF_BOUNDS\""));
    assert!(json.contains("\"name\":\"arr\""));
    assert!(json.contains("\"index\":999999999"));
}

#[test]
fn to_plain_text_appends_root_cause_code_when_classified() {
    let result = FixtureResult::Failed {
        seed: 42,
        case_index: 17,
        inputs_used: vec![],
        failure: runtime_failure("array 'arr' index 999999999 out of bounds"),
        resolution_kind: array_oob(),
        hidden_cells: None,
    };
    let text = to_plain_text(&result);
    assert!(text.contains("root cause: ARRAY_INDEX_OUT_OF_BOUNDS"));
}

#[test]
fn to_plain_text_omits_root_cause_line_when_unclassified() {
    let result = FixtureResult::Failed {
        seed: 42,
        case_index: 17,
        inputs_used: vec![],
        failure: runtime_failure("Division by zero"),
        resolution_kind: None,
        hidden_cells: None,
    };
    let text = to_plain_text(&result);
    assert!(!text.contains("root cause"));
}

#[test]
fn to_json_passing_fixture_includes_observations_when_present() {
    let json = to_json(&FixtureResult::Passed {
        seed: 42,
        cases_run: 20,
        hidden_cells: Some(Box::new(sample_observation())),
    });
    assert!(json.contains("\"ok\":true"));
    assert!(json.contains("\"observations\":[{\"code\":\"RANGE_CONTAINS_HIDDEN_CELLS\""));
    assert!(json.contains("\"visible_cells\":21"));
}

#[test]
fn to_json_passing_fixture_omits_observations_when_absent() {
    let json = to_json(&FixtureResult::Passed {
        seed: 42,
        cases_run: 20,
        hidden_cells: None,
    });
    assert!(!json.contains("observations"));
}

#[test]
fn to_json_failing_fixture_includes_observations_alongside_root_causes() {
    let result = FixtureResult::Failed {
        seed: 42,
        case_index: 3,
        inputs_used: vec![],
        failure: runtime_failure("array 'arr' index 999999999 out of bounds"),
        resolution_kind: array_oob(),
        hidden_cells: Some(Box::new(sample_observation())),
    };
    let json = to_json(&result);
    assert!(json.contains("\"code\":\"ARRAY_INDEX_OUT_OF_BOUNDS\""));
    assert!(json.contains("\"observations\":[{\"code\":\"RANGE_CONTAINS_HIDDEN_CELLS\""));
}

#[test]
fn to_plain_text_passing_fixture_appends_the_observation_note() {
    let text = to_plain_text(&FixtureResult::Passed {
        seed: 42,
        cases_run: 20,
        hidden_cells: Some(Box::new(sample_observation())),
    });
    assert!(text.starts_with("ok: 20 case(s) passed"));
    assert!(text.contains("RANGE_CONTAINS_HIDDEN_CELLS"));
    assert!(text.contains("21 of 30"));
}

#[test]
fn fixture_json_and_text_render_every_failure_field_exactly() {
    let result = FixtureResult::Failed {
        seed: 5,
        case_index: 2,
        inputs_used: vec![
            InputUsed {
                address: "Input!B2".to_string(),
                value_json: "3".to_string(),
            },
            InputUsed {
                address: "Input!B3".to_string(),
                value_json: "\"x\"".to_string(),
            },
        ],
        failure: FailureDetail {
            rule: "equals".to_string(),
            address: Some("Out!A1".to_string()),
            actual: Some("4".to_string()),
            message: None,
        },
        resolution_kind: None,
        hidden_cells: None,
    };
    assert_eq!(
        to_json(&result),
        "{\"schema_version\":1,\"ok\":false,\"seed\":5,\"case_index\":2,\"inputs\":[{\"address\":\"Input!B2\",\"value\":3},{\"address\":\"Input!B3\",\"value\":\"x\"}],\"failure\":{\"rule\":\"equals\",\"address\":\"Out!A1\",\"actual\":\"4\"},\"root_causes\":[]}"
    );
    assert_eq!(to_plain_text(&result), "FAIL: case 2 (seed 5) - equals at Out!A1: 4");
    assert_eq!(
        to_plain_text(&FixtureResult::Passed {
            seed: 9,
            cases_run: 1,
            hidden_cells: Some(Box::new(sample_observation())),
        }),
        "ok: 1 case(s) passed (seed 9)\n  observation: RANGE_CONTAINS_HIDDEN_CELLS (21 of 30 cells visible in A1:C10)"
    );
}
