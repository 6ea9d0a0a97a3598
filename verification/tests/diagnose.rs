use elixcee::diagnose::{
    observations_json, root_cause_json, root_causes_json, to_json, to_plain_text, Diagnosis,
    HiddenCellsObservation, Interval, Rect, ResolutionEvidence, ResolutionFailureKind, RootCause,
};
use elixcee::diagnostics::SourceLocation;

fn sheet_protected() -> ResolutionFailureKind {
    ResolutionFailureKind::SheetProtected {
        sheet: "sheet1".to_string(),
    }
}

fn sample_observation() -> HiddenCellsObservation {
    HiddenCellsObservation {
        sheet: "sheet1".to_string(),
        address: "A1:C100".to_string(),
        rows: 100,
        columns: 3,
        hidden_rows: vec![
            Interval { start: 11, end: 14 },
            Interval { start: 30, end: 39 },
        ],
        hidden_columns: vec![Interval { start: 2, end: 2 }],
        total_cells: 300,
        visible_cells: 172,
    }
}

fn diagnosis_with_hidden_cells(ok: bool, hidden_cells: Option<HiddenCellsObservation>) -> Diagnosis {
    Diagnosis {
        ok,
        message: if ok { None } else { Some("Sheet 'x' not found".to_string()) },
        span: None,
        copy_span: None,
        root_cause: if ok {
            None
        } else {
            Some(RootCause::from_kind(ResolutionFailureKind::WorksheetNotFound(
                ResolutionEvidence {
                    expression: "Worksheets(\"x\")".to_string(),
                    requested: "x".to_string(),
                    available: vec![],
                    suggested: None,
                },
            )))
        },
        hidden_cells,
        messages: vec![],
    }
}

fn failed(kind: ResolutionFailureKind, message: &str) -> Diagnosis {
    Diagnosis {
        ok: false,
        message: Some(message.to_string()),
        span: None,
        copy_span: None,
        root_cause: Some(RootCause::from_kind(kind)),
        hidden_cells: None,
        messages: vec![],
    }
}

fn area(start_row: u32, start_col: u32, end_row: u32, end_col: u32) -> Rect {
    Rect {
        start_row,
        start_col,
        end_row,
        end_col,
    }
}

#[test]
fn paste_into_non_anchor_merged_cell_reports_the_correct_root_cause() {
    let rc = RootCause::from_kind(ResolutionFailureKind::PasteIntoNonAnchorMergedCell {
        dest_addr: "C1".to_string(),
        dest_sheet: "sheet1".to_string(),
        merged_range: ((1, 2), (1, 4)),
        copy_span: None,
    });
    assert_eq!(rc.code, "PASTE_INTO_NON_ANCHOR_MERGED_CELL");
    assert_eq!(
        rc.suggestions(),
        vec![
            "unmerge B1:D1 before pasting".to_string(),
            "or paste into its top-left cell B1 instead".to_string(),
        ]
    );
    let json = root_cause_json(&rc, None);
    assert!(json.contains("PASTE_INTO_NON_ANCHOR_MERGED_CELL"));
    assert!(json.contains("\"dest_addr\":\"C1\""));
    assert!(json.contains("\"merged_range\":\"B1:D1\""));
}

#[test]
fn paste_partial_merged_range_reports_the_correct_root_cause() {
    let rc = RootCause::from_kind(ResolutionFailureKind::PastePartialMergedRange {
        dest_addr: "B1:C1".to_string(),
        dest_sheet: "sheet1".to_string(),
        conflicts: vec![((1, 2), (1, 4))],
        copy_span: None,
    });
    assert_eq!(rc.code, "PASTE_PARTIAL_MERGED_RANGE");
    assert_eq!(
        rc.suggestions(),
        vec!["unmerge B1:D1 before pasting, or resize the destination to fully contain it".to_string()]
    );
    let json = root_cause_json(&rc, None);
    assert!(json.contains("PASTE_PARTIAL_MERGED_RANGE"));
    assert!(json.contains("\"conflicts\":[\"B1:D1\"]"));
}

#[test]
fn paste_merge_layout_mismatch_reports_the_correct_root_cause_directly() {
    let rc = RootCause::from_kind(ResolutionFailureKind::PasteMergeLayoutMismatch {
        source_addr: "A1:C10".to_string(),
        source_sheet: "sheet1".to_string(),
        dest_addr: "E1:G10".to_string(),
        dest_sheet: "sheet1".to_string(),
        conflicts: vec![((1, 5), (1, 7))],
        copy_span: None,
    });
    assert_eq!(rc.code, "PASTE_MERGE_LAYOUT_MISMATCH");
    assert_eq!(
        rc.suggestions(),
        vec![
            "unmerge E1:G1 before pasting".to_string(),
            "or make the source and destination merge layouts identical".to_string(),
        ]
    );
    let json = root_cause_json(&rc, None);
    assert!(json.contains("PASTE_MERGE_LAYOUT_MISMATCH"));
    assert!(json.contains("\"source_addr\":\"A1:C10\""));
    assert!(json.contains("\"dest_addr\":\"E1:G10\""));
    assert!(json.contains("\"conflicts\":[\"E1:G1\"]"));
}

#[test]
fn root_causes_json_renders_an_empty_array_for_none() {
    assert_eq!(root_causes_json(None), "[]");
}

#[test]
fn root_causes_json_matches_diagnosis_to_json_exactly_for_the_same_kind() {
    let kind = sheet_protected();
    let diag = Diagnosis {
        ok: false,
        message: Some("Cannot write: sheet is protected".to_string()),
        span: None,
        copy_span: None,
        root_cause: Some(RootCause::from_kind(sheet_protected())),
        hidden_cells: None,
        messages: vec![],
    };
    let full_json = to_json(&diag, None, None);
    let root_causes_fragment = format!("\"root_causes\":{}", root_causes_json(Some(&kind)));
    assert!(
        full_json.contains(&root_causes_fragment),
        "expected {} to contain {}",
        full_json,
        root_causes_fragment
    );
}

#[test]
fn observations_json_renders_an_empty_array_for_none() {
    assert_eq!(observations_json(None), "[]");
}

#[test]
fn observations_json_renders_the_completion_condition_shape() {
    let json = observations_json(Some(&sample_observation()));
    assert!(json.contains("\"code\":\"RANGE_CONTAINS_HIDDEN_CELLS\""));
    assert!(json.contains("\"certainty\":\"observed\""));
    assert!(json.contains(
        "\"range\":{\"sheet\":\"sheet1\",\"address\":\"A1:C100\",\"rows\":100,\"columns\":3}"
    ));
    assert!(json.contains("\"hidden_rows\":[\"11:14\",\"30:39\"]"));
    assert!(json.contains("\"hidden_columns\":[\"B:B\"]"));
    assert!(json.contains("\"total_cells\":300"));
    assert!(json.contains("\"visible_cells\":172"));
}

#[test]
fn to_json_omits_the_observations_field_when_there_is_nothing_to_observe() {
    assert!(!to_json(&diagnosis_with_hidden_cells(true, None), None, None).contains("observations"));
    assert!(!to_json(&diagnosis_with_hidden_cells(false, None), None, None).contains("observations"));
}

#[test]
fn to_json_includes_observations_on_a_successful_run() {
    let json = to_json(
        &diagnosis_with_hidden_cells(true, Some(sample_observation())),
        None,
        None,
    );
    assert!(json.contains("\"ok\":true"));
    assert!(json.contains("\"observations\":[{\"code\":\"RANGE_CONTAINS_HIDDEN_CELLS\""));
}

#[test]
fn to_json_includes_observations_alongside_root_causes_on_a_failing_run() {
    let json = to_json(
        &diagnosis_with_hidden_cells(false, Some(sample_observation())),
        None,
        None,
    );
    assert!(json.contains("\"root_causes\":[{\"code\":\"WORKSHEET_NOT_FOUND\""));
    assert!(json.contains("\"observations\":[{\"code\":\"RANGE_CONTAINS_HIDDEN_CELLS\""));
}

#[test]
fn to_plain_text_appends_the_hidden_cells_note_on_success() {
    let text = to_plain_text(
        &diagnosis_with_hidden_cells(true, Some(sample_observation())),
        None,
        None,
    );
    assert!(text.starts_with("OK: no resolution failure detected"));
    assert!(text.contains("RANGE_CONTAINS_HIDDEN_CELLS"));
    assert!(text.contains("172"));
}

#[test]
fn to_plain_text_appends_the_hidden_cells_note_on_failure() {
    let text = to_plain_text(
        &diagnosis_with_hidden_cells(false, Some(sample_observation())),
        None,
        None,
    );
    assert!(text.contains("WORKSHEET_NOT_FOUND"));
    assert!(text.contains("RANGE_CONTAINS_HIDDEN_CELLS"));
}

#[test]
fn successful_diagnosis_json_and_text_are_exact() {
    let mut diag = diagnosis_with_hidden_cells(true, None);
    diag.messages = vec!["hi \"there\"".to_string()];
    assert_eq!(
        to_json(&diag, None, None),
        "{\"schema_version\":1,\"ok\":true,\"messages\":[\"hi \\\"there\\\"\"]}"
    );
    assert_eq!(to_plain_text(&diag, None, None), "OK: no resolution failure detected");
    let text = to_plain_text(
        &diagnosis_with_hidden_cells(true, Some(sample_observation())),
        None,
        None,
    );
    assert_eq!(
        text,
        "OK: no resolution failure detected\n\nRANGE_CONTAINS_HIDDEN_CELLS: A1:C100 (sheet1) has 172 of 300 cells visible (hidden rows: 11:14, 30:39; hidden columns: B:B)"
    );
}

#[test]
fn missing_worksheet_with_a_near_miss_suggests_it() {
    let kind = ResolutionFailureKind::WorksheetNotFound(ResolutionEvidence {
        expression: "Worksheets(\"売上2025\")".to_string(),
        requested: "売上2025".to_string(),
        available: vec!["入力".to_string(), "売上2026".to_string()],
        suggested: Some("売上2026".to_string()),
    });
    let diag = failed(kind, "Sheet '売上2025' not found");
    let location = SourceLocation {
        file: "Module1.bas".to_string(),
        line: 2,
        column: 5,
    };
    assert_eq!(
        to_json(&diag, Some(&location), None),
        "{\"schema_version\":1,\"ok\":false,\"message\":\"Sheet '売上2025' not found\",\"location\":{\"file\":\"Module1.bas\",\"line\":2,\"column\":5},\"root_causes\":[{\"code\":\"WORKSHEET_NOT_FOUND\",\"certainty\":\"definite\",\"expression\":\"Worksheets(\\\"売上2025\\\")\",\"requested\":\"売上2025\",\"available\":[\"入力\",\"売上2026\"],\"suggested\":\"売上2026\",\"suggestions\":[\"did you mean '売上2026'?\"]}],\"messages\":[]}"
    );
    assert_eq!(
        to_plain_text(&diag, Some(&location), None),
        "FAILED: Sheet '売上2025' not found\n  at Module1.bas:2:5\n\nWORKSHEET_NOT_FOUND: Worksheets(\"売上2025\")\n  requested: 売上2025\n  available: 入力, 売上2026\n  did you mean: 売上2026\n  suggestion: did you mean '売上2026'?"
    );
}

#[test]
fn missing_workbook_without_a_near_miss_lists_the_available_names() {
    let rc = RootCause::from_kind(ResolutionFailureKind::WorkbookNotFound(ResolutionEvidence {
        expression: "Workbooks(\"data.xlsx\")".to_string(),
        requested: "data.xlsx".to_string(),
        available: vec!["Book1".to_string(), "Book2".to_string()],
        suggested: None,
    }));
    assert_eq!(rc.code, "WORKBOOK_NOT_FOUND");
    assert_eq!(rc.certainty, "definite");
    assert_eq!(rc.suggestions(), vec!["check the available names: Book1, Book2".to_string()]);
    let none = RootCause::from_kind(ResolutionFailureKind::WorkbookNotFound(ResolutionEvidence {
        expression: "Workbooks(1)".to_string(),
        requested: "1".to_string(),
        available: vec![],
        suggested: None,
    }));
    assert!(none.suggestions().is_empty());
    assert!(root_cause_json(&none, None).contains("\"available\":[],\"suggested\":null,\"suggestions\":[]"));
}

#[test]
fn array_index_out_of_bounds_reports_its_bounds() {
    let kind = ResolutionFailureKind::ArrayIndexOutOfBounds {
        name: "values".to_string(),
        index: 6,
        lower: 0,
        upper: 5,
    };
    let diag = failed(kind, "Subscript out of range");
    let rc = diag.root_cause.as_ref().unwrap();
    assert_eq!(rc.code, "ARRAY_INDEX_OUT_OF_BOUNDS");
    assert_eq!(
        rc.suggestions(),
        vec!["check that 'values' is large enough for index 6 (valid range is 0 To 5)".to_string()]
    );
    assert!(to_json(&diag, None, None)
        .contains("\"name\":\"values\",\"index\":6,\"lower\":0,\"upper\":5"));
    assert!(to_plain_text(&diag, None, None)
        .contains("ARRAY_INDEX_OUT_OF_BOUNDS: array 'values' index 6 out of bounds (valid range: 0 To 5)"));
    let negative = RootCause::from_kind(ResolutionFailureKind::ArrayIndexOutOfBounds {
        name: "v".to_string(),
        index: -1,
        lower: 1,
        upper: 3,
    });
    assert!(root_cause_json(&negative, None).contains("\"index\":-1"));
}

#[test]
fn paste_shape_mismatch_suggests_a_resized_destination() {
    let kind = ResolutionFailureKind::PasteShapeMismatch {
        source_addr: "A1:C10".to_string(),
        source_rows: 10,
        source_cols: 3,
        dest_addr: "E1:F10".to_string(),
        dest_rows: 10,
        dest_cols: 2,
        dest_row1: 1,
        dest_col1: 5,
        transpose: false,
        copy_span: None,
    };
    let diag = failed(kind, "Paste shape mismatch");
    let rc = diag.root_cause.as_ref().unwrap();
    assert_eq!(rc.code, "PASTE_SHAPE_MISMATCH");
    assert_eq!(
        rc.suggestions(),
        vec![
            "resize the destination to E1:G10".to_string(),
            "or specify only the top-left cell E1".to_string(),
        ]
    );
    let copy = SourceLocation {
        file: "m.bas".to_string(),
        line: 2,
        column: 5,
    };
    let json = to_json(&diag, None, Some(&copy));
    assert!(json.contains("\"source_addr\":\"A1:C10\""));
    assert!(json.contains("\"dest_addr\":\"E1:F10\""));
    assert!(json.contains("\"transpose\":false,\"copy_location\":{\"file\":\"m.bas\",\"line\":2,\"column\":5}"));
    assert!(json.contains("resize the destination to E1:G10"));
    assert!(to_plain_text(&diag, None, Some(&copy)).contains(
        "copy source A1:C10 (10x3) does not match paste destination E1:F10 (10x2)\n  copied at m.bas:2:5"
    ));
    let transposed = RootCause::from_kind(ResolutionFailureKind::PasteShapeMismatch {
        source_addr: "A1:C10".to_string(),
        source_rows: 10,
        source_cols: 3,
        dest_addr: "E1".to_string(),
        dest_rows: 1,
        dest_cols: 1,
        dest_row1: 1,
        dest_col1: 5,
        transpose: true,
        copy_span: None,
    });
    assert_eq!(
        transposed.suggestions()[0],
        "resize the destination to E1:N3".to_string()
    );
}

#[test]
fn paste_without_copy_and_protected_sheets_report_their_fix() {
    let diag = failed(
        ResolutionFailureKind::PasteWithoutCopy {
            dest_addr: "A1".to_string(),
        },
        "nothing to paste",
    );
    let json = to_json(&diag, None, None);
    assert!(json.contains("\"code\":\"PASTE_WITHOUT_COPY\",\"certainty\":\"definite\",\"dest_addr\":\"A1\""));
    assert!(to_plain_text(&diag, None, None).contains("Paste to A1 attempted with an empty clipboard"));
    assert_eq!(
        root_causes_json(Some(&sheet_protected())),
        "[{\"code\":\"SHEET_PROTECTED\",\"certainty\":\"definite\",\"sheet\":\"sheet1\",\"suggestions\":[\"unprotect the sheet first: Worksheets(\\\"sheet1\\\").Unprotect\"]}]"
    );
}

#[test]
fn multi_area_pastes_report_their_areas() {
    let kind = ResolutionFailureKind::MultiAreaToSingleAreaPaste {
        source_areas: vec![area(1, 1, 10, 1), area(1, 3, 10, 3)],
        destination_areas: vec![area(1, 5, 10, 6)],
    };
    let diag = failed(kind, "Paste failed");
    let rc = diag.root_cause.as_ref().unwrap();
    assert_eq!(rc.code, "MULTI_AREA_TO_SINGLE_AREA_PASTE");
    assert_eq!(
        rc.suggestions(),
        vec![
            "paste each source area separately".to_string(),
            "copy a contiguous rectangular range".to_string(),
            "use destination areas with matching count and shapes".to_string(),
        ]
    );
    let json = to_json(&diag, None, None);
    assert!(json.contains(
        "\"source_areas\":[{\"address\":\"A1:A10\",\"rows\":10,\"columns\":1},{\"address\":\"C1:C10\",\"rows\":10,\"columns\":1}]"
    ));
    assert!(json.contains("\"destination_areas\":[{\"address\":\"E1:F10\",\"rows\":10,\"columns\":2}]"));
    assert!(to_plain_text(&diag, None, None).contains(
        "copy source has 2 area(s) (A1:A10, C1:C10), paste destination has 1 area(s) (E1:F10)"
    ));
    let shape = failed(
        ResolutionFailureKind::MultiAreaShapeMismatch {
            area_index: 2,
            source_area: area(1, 3, 10, 3),
            destination_area: area(1, 9, 10, 10),
        },
        "Paste failed",
    );
    let json = to_json(&shape, None, None);
    assert!(json.contains("\"area_index\":2"));
    assert!(json.contains("\"source_area\":{\"address\":\"C1:C10\",\"rows\":10,\"columns\":1}"));
    assert!(json.contains("\"destination_area\":{\"address\":\"I1:J10\",\"rows\":10,\"columns\":2}"));
    assert!(json.contains("resize destination area 2 to match the source area's shape"));
    assert!(to_plain_text(&shape, None, None)
        .contains("area 2 shape mismatch: source C1:C10 (10x1) vs destination I1:J10 (10x2)"));
    let count = RootCause::from_kind(ResolutionFailureKind::MultiAreaCountMismatch {
        source_areas: vec![area(1, 1, 1, 1)],
        destination_areas: vec![],
    });
    assert!(root_cause_json(&count, None).contains("\"destination_areas\":[]"));
    let unsupported = RootCause::from_kind(ResolutionFailureKind::MultiAreaPasteUnsupported {
        source_areas: vec![area(1, 1, 10, 2)],
        destination_areas: vec![area(1, 5, 10, 5), area(1, 7, 10, 7)],
    });
    assert_eq!(unsupported.code, "MULTI_AREA_PASTE_UNSUPPORTED");
    assert_eq!(unsupported.suggestions(), vec!["paste each source area separately".to_string()]);
}

#[test]
fn a_failure_without_a_root_cause_reports_an_empty_root_causes_array() {
    let diag = Diagnosis {
        ok: false,
        message: None,
        span: None,
        copy_span: None,
        root_cause: None,
        hidden_cells: None,
        messages: vec!["msg".to_string()],
    };
    assert_eq!(
        to_json(&diag, None, None),
        "{\"schema_version\":1,\"ok\":false,\"message\":\"\",\"location\":null,\"root_causes\":[],\"messages\":[\"msg\"]}"
    );
    assert_eq!(to_plain_text(&diag, None, None), "FAILED: (unknown error)");
}
