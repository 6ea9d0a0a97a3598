use elixcee::sheetjson::{
    cell_json, table_filter_column_json, workbook_json, worksheet_json, BufferSheet, BufferWorkbook,
    CellStyleDef, ChartDef, CommentNote, ConditionalFormatRule, DataValidationRule, DxfStyle, FilterColumn,
    FilterCriteria, FreezePane, SheetCell, SheetJsonCell, TableColumn, TableDef, XlsxDefinedName,
};
use elixcee::types::ExcelError;

fn sheet(name: &str, cells: Vec<((u32, u32), SheetCell)>) -> BufferSheet {
    BufferSheet {
        name: name.to_string(),
        cells: cells
            .into_iter()
            .map(|((row, col), value)| SheetJsonCell { row, col, value, formula: None, fmt_id: None, style: None })
            .collect(),
        dimension: None,
        merged_ranges: vec![],
        hidden_rows: vec![],
        hidden_columns: vec![],
        data_validations: vec![],
        tables: vec![],
        charts: vec![],
        comment_notes: vec![],
        conditional_formats: vec![],
        freeze_pane: None,
    }
}

fn wb1(s: BufferSheet) -> BufferWorkbook {
    BufferWorkbook { sheets: vec![s], number_formats: vec![], date1904: false, defined_names: vec![] }
}

fn cell_at(s: &mut BufferSheet, pos: (u32, u32)) -> &mut SheetJsonCell {
    s.cells.iter_mut().find(|c| (c.row, c.col) == pos).expect("cell exists")
}

fn plain_style() -> CellStyleDef {
    CellStyleDef {
        bold: false,
        italic: false,
        underline: false,
        font_color: None,
        fill_color: None,
        border_bottom: None,
        border_bottom_color: None,
        border_left: None,
        border_left_color: None,
        border_right: None,
        border_right_color: None,
        border_top: None,
        border_top_color: None,
        horizontal: None,
        vertical: None,
        wrap_text: None,
    }
}

#[test]
fn workbook_json_shapes_an_empty_sheet_with_no_ref() {
    let json = workbook_json(&wb1(sheet("Sheet1", vec![])));
    assert_eq!(json, r#"{"SheetNames":["Sheet1"],"Sheets":{"Sheet1":{}},"!date1904":false}"#);
}

#[test]
fn workbook_json_computes_ref_and_cell_types_from_mixed_cells() {
    let json = workbook_json(&wb1(sheet(
        "Sheet1",
        vec![
            ((1, 1), SheetCell::Integer(1)),
            ((2, 2), SheetCell::Str("hi".to_string())),
            ((3, 1), SheetCell::Bool(true)),
        ],
    )));
    assert!(json.contains(r#""A1":{"t":"n","v":1}"#));
    assert!(json.contains(r#""B2":{"t":"s","v":"hi"}"#));
    assert!(json.contains(r#""A3":{"t":"b","v":true}"#));
    assert!(json.contains(r#""!ref":"A1:B3""#));
}

#[test]
fn workbook_json_includes_merges_as_zero_based_ranges() {
    let mut s = sheet("Sheet1", vec![((1, 1), SheetCell::Integer(1))]);
    s.merged_ranges.push(((1, 1), (1, 3)));
    let json = workbook_json(&wb1(s));
    assert!(json.contains(r#""!merges":[{"s":{"r":0,"c":0},"e":{"r":0,"c":2}}]"#));
}

#[test]
fn worksheet_json_prefers_dimension_over_the_populated_bounding_box() {
    let mut s = sheet("Sheet1", vec![((1, 1), SheetCell::Integer(1))]);
    s.dimension = Some(((1, 1), (10, 5)));
    let json = workbook_json(&wb1(s));
    assert!(json.contains(r#""!ref":"A1:E10""#));
}

#[test]
fn worksheet_json_uses_dimension_even_when_no_cells_are_populated() {
    let mut s = sheet("Sheet1", vec![]);
    s.dimension = Some(((1, 1), (3, 3)));
    let json = workbook_json(&wb1(s));
    assert!(json.contains(r#""!ref":"A1:C3""#));
}

#[test]
fn worksheet_json_falls_back_to_the_bounding_box_when_dimension_is_absent() {
    let json = workbook_json(&wb1(sheet(
        "Sheet1",
        vec![((2, 2), SheetCell::Integer(1)), ((3, 4), SheetCell::Integer(2))],
    )));
    assert!(json.contains(r#""!ref":"B2:D3""#));
}

#[test]
fn worksheet_json_collapses_a_single_cell_bounding_box_ref_no_colon() {
    let json = workbook_json(&wb1(sheet("Sheet1", vec![((2, 2), SheetCell::Integer(1))])));
    assert!(json.contains(r#""!ref":"B2""#));
    assert!(!json.contains("\"!ref\":\"B2:B2\""));
}

#[test]
fn worksheet_json_collapses_a_single_cell_dimension_ref_no_colon() {
    let mut s = sheet("Sheet1", vec![((1, 1), SheetCell::Integer(1))]);
    s.dimension = Some(((1, 1), (1, 1)));
    let json = workbook_json(&wb1(s));
    assert!(json.contains(r#""!ref":"A1""#));
    assert!(!json.contains("\"!ref\":\"A1:A1\""));
}

#[test]
fn cell_json_includes_f_when_a_formula_is_present() {
    let mut s = sheet("Sheet1", vec![((1, 1), SheetCell::Integer(3))]);
    cell_at(&mut s, (1, 1)).formula = Some("SUM(B1:B2)".to_string());
    let json = workbook_json(&wb1(s));
    assert!(json.contains(r#""A1":{"t":"n","v":3,"f":"SUM(B1:B2)"}"#));
}

#[test]
fn cell_json_omits_f_when_no_formula_is_present() {
    let json = workbook_json(&wb1(sheet("Sheet1", vec![((1, 1), SheetCell::Integer(3))])));
    assert!(json.contains(r#""A1":{"t":"n","v":3}"#));
    assert!(!json.contains("\"f\":"));
}

#[test]
fn worksheet_json_includes_hidden_row_and_col_intervals_when_present() {
    let mut s = sheet("Sheet1", vec![((1, 1), SheetCell::Integer(1))]);
    s.hidden_rows.push((11, 14));
    s.hidden_columns.push((2, 2));
    let json = workbook_json(&wb1(s));
    assert!(json.contains(r#""!hiddenRows":[[11,14]]"#));
    assert!(json.contains(r#""!hiddenCols":[[2,2]]"#));
}

#[test]
fn worksheet_json_omits_hidden_interval_keys_when_none_are_hidden() {
    let json = workbook_json(&wb1(sheet("Sheet1", vec![((1, 1), SheetCell::Integer(1))])));
    assert!(!json.contains("!hiddenRows"));
    assert!(!json.contains("!hiddenCols"));
}

#[test]
fn worksheet_json_projects_data_validation_type_and_ranges() {
    let mut s = sheet("Sheet1", vec![]);
    s.data_validations.push(DataValidationRule {
        validation_type: "list".to_string(),
        operator: None,
        formula1: Some("Yes,No".to_string()),
        formula2: None,
        allow_blank: true,
        show_input_message: false,
        prompt_title: None,
        prompt: None,
        show_error_message: true,
        error_style: None,
        error_title: None,
        error: None,
        sqref: vec![((1, 5), (1, 5)), ((2, 5), (4, 5))],
        dirty: false,
        raw_span: String::new(),
    });
    let json = workbook_json(&wb1(s));
    assert!(json.contains(r#""!dataValidations":[{"type":"list","sqref":["E1","E2:E4"]}]"#));
}

#[test]
fn cell_json_includes_fmt_id_when_a_non_zero_style_id_is_present() {
    let mut s = sheet("Sheet1", vec![((1, 1), SheetCell::Integer(3))]);
    cell_at(&mut s, (1, 1)).fmt_id = Some(14);
    let json = workbook_json(&wb1(s));
    assert!(json.contains(r#""A1":{"t":"n","v":3,"fmtId":14}"#));
}

#[test]
fn cell_json_omits_fmt_id_when_no_style_id_is_present() {
    let json = workbook_json(&wb1(sheet("Sheet1", vec![((1, 1), SheetCell::Integer(3))])));
    assert!(!json.contains("\"fmtId\":"));
}

#[test]
fn workbook_json_includes_num_fmts_when_present() {
    let wb = BufferWorkbook {
        sheets: vec![sheet("Sheet1", vec![])],
        number_formats: vec![(164u32, "0.00\"kg\"".to_string())],
        date1904: false,
        defined_names: Vec::new(),
    };
    let json = workbook_json(&wb);
    assert!(json.contains(r#""!numFmts":{"164":"0.00\"kg\""}"#));
}

#[test]
fn workbook_json_omits_num_fmts_when_empty() {
    let json = workbook_json(&wb1(sheet("Sheet1", vec![])));
    assert!(!json.contains("!numFmts"));
}

#[test]
fn workbook_json_exposes_defined_names_with_scope() {
    let mut wb = wb1(sheet("Sheet1", vec![]));
    wb.defined_names.push(XlsxDefinedName {
        name: "SalesRange".to_string(),
        local_sheet_id: Some(0),
        raw_text: "Sheet1!$A$1:$A$2".to_string(),
    });
    let json = workbook_json(&wb);
    assert!(json.contains(r#""Workbook":{"Names":[{"Name":"SalesRange","Ref":"Sheet1!$A$1:$A$2","Sheet":0}]}"#));
}

#[test]
fn workbook_json_always_includes_date1904() {
    let mut wb = wb1(sheet("Sheet1", vec![]));
    wb.date1904 = true;
    let json = workbook_json(&wb);
    assert!(json.contains(r#""!date1904":true"#));
}

#[test]
fn cells_are_written_in_row_then_column_order() {
    let s = sheet(
        "S",
        vec![
            ((2, 1), SheetCell::Integer(3)),
            ((1, 2), SheetCell::Integer(2)),
            ((1, 1), SheetCell::Integer(1)),
            ((10, 1), SheetCell::Integer(4)),
        ],
    );
    assert_eq!(
        worksheet_json(&s),
        r#"{"A1":{"t":"n","v":1},"B1":{"t":"n","v":2},"A2":{"t":"n","v":3},"A10":{"t":"n","v":4},"!ref":"A1:B10"}"#
    );
}

#[test]
fn number_formats_are_written_by_increasing_id() {
    let wb = BufferWorkbook {
        sheets: vec![],
        number_formats: vec![(200, "b".to_string()), (164, "a".to_string())],
        date1904: false,
        defined_names: vec![],
    };
    assert_eq!(
        workbook_json(&wb),
        r#"{"SheetNames":[],"Sheets":{},"!numFmts":{"164":"a","200":"b"},"!date1904":false}"#
    );
}

#[test]
fn cell_values_of_every_kind() {
    let c = |value| SheetJsonCell { row: 1, col: 1, value, formula: None, fmt_id: None, style: None };
    assert_eq!(cell_json(&c(SheetCell::Integer(-7))), r#"{"t":"n","v":-7}"#);
    assert_eq!(cell_json(&c(SheetCell::Float("1.5".to_string()))), r#"{"t":"n","v":1.5}"#);
    assert_eq!(cell_json(&c(SheetCell::Str("a\"b".to_string()))), r#"{"t":"s","v":"a\"b"}"#);
    assert_eq!(cell_json(&c(SheetCell::Bool(false))), r#"{"t":"b","v":false}"#);
    assert_eq!(cell_json(&c(SheetCell::Error(ExcelError::NA))), r#"{"t":"e","v":42}"#);
}

#[test]
fn cell_style_parts_are_written_in_order() {
    let mut style = plain_style();
    style.bold = true;
    style.underline = true;
    style.font_color = Some("FF0000".to_string());
    style.fill_color = Some("00FF00".to_string());
    style.border_left = Some("thin".to_string());
    style.border_top = Some("double".to_string());
    style.border_top_color = Some("0000FF".to_string());
    style.vertical = Some("top".to_string());
    style.wrap_text = Some(true);
    let c = SheetJsonCell { row: 1, col: 1, value: SheetCell::Integer(1), formula: None, fmt_id: Some(3), style: Some(style) };
    assert_eq!(
        cell_json(&c),
        [
            r#"{"t":"n","v":1,"fmtId":3,"s":{"font":{"bold":true,"underline":true,"color":{"rgb":"FF0000"}},"#,
            r#""fill":{"fgColor":{"rgb":"00FF00"}},"border":{"left":{"style":"thin"},"top":{"style":"double","color":{"rgb":"0000FF"}}},"#,
            r#""alignment":{"vertical":"top","wrapText":true}}}"#,
        ]
        .concat()
    );
}

#[test]
fn a_style_without_parts_writes_no_s_key() {
    let c = SheetJsonCell { row: 1, col: 1, value: SheetCell::Bool(true), formula: None, fmt_id: None, style: Some(plain_style()) };
    assert_eq!(cell_json(&c), r#"{"t":"b","v":true}"#);
}

#[test]
fn filter_columns_of_every_criteria_kind() {
    let col = |criteria| FilterColumn { col_offset: 2, hidden_button: false, show_button: true, criteria };
    assert_eq!(
        table_filter_column_json(&col(FilterCriteria::Values(vec!["a".to_string(), "b".to_string()]))),
        r#"{"colId":2,"hiddenButton":false,"showButton":true,"criteria":{"kind":"values","values":["a","b"]}}"#
    );
    assert_eq!(
        table_filter_column_json(&col(FilterCriteria::Blank)),
        r#"{"colId":2,"hiddenButton":false,"showButton":true,"criteria":{"kind":"blank"}}"#
    );
    assert_eq!(
        table_filter_column_json(&col(FilterCriteria::Custom {
            op1: "greaterThan".to_string(),
            val1: "5".to_string(),
            and: true,
            op2: Some("lessThan".to_string()),
            val2: Some("9".to_string()),
        })),
        r#"{"colId":2,"hiddenButton":false,"showButton":true,"criteria":{"kind":"custom","op1":"greaterThan","val1":"5","and":true,"op2":"lessThan","val2":"9"}}"#
    );
    assert_eq!(
        table_filter_column_json(&col(FilterCriteria::Custom {
            op1: "equal".to_string(),
            val1: "x".to_string(),
            and: false,
            op2: Some("equal".to_string()),
            val2: None,
        })),
        r#"{"colId":2,"hiddenButton":false,"showButton":true,"criteria":{"kind":"custom","op1":"equal","val1":"x","and":false}}"#
    );
    assert_eq!(
        table_filter_column_json(&col(FilterCriteria::Top10 { top: true, percent: false, val: "10".to_string() })),
        r#"{"colId":2,"hiddenButton":false,"showButton":true,"criteria":{"kind":"top10","top":true,"percent":false,"val":10}}"#
    );
    assert_eq!(
        table_filter_column_json(&col(FilterCriteria::DateGroup)),
        r#"{"colId":2,"hiddenButton":false,"showButton":true,"criteria":{"kind":"dateGroup"}}"#
    );
}

#[test]
fn tables_charts_comments_formats_and_panes() {
    let mut s = sheet("S", vec![]);
    s.tables.push(TableDef {
        name: "T1".to_string(),
        display_name: "Sales".to_string(),
        ref_range: ((1, 1), (3, 2)),
        auto_filter_ref: Some(((1, 1), (3, 2))),
        autofilter_columns: vec![FilterColumn {
            col_offset: 0,
            hidden_button: false,
            show_button: true,
            criteria: FilterCriteria::Blank,
        }],
        columns: vec![TableColumn { name: "Region".to_string() }, TableColumn { name: "Amount".to_string() }],
        style_name: Some("TableStyleMedium2".to_string()),
    });
    s.charts.push(ChartDef {
        ref_range: ((5, 1), (5, 1)),
        chart_type: "bar".to_string(),
        title: "Totals".to_string(),
        x_axis_title: None,
        y_axis_title: Some("USD".to_string()),
        legend: false,
        series_colors: vec!["4472C4".to_string()],
        width_cols: 8,
        height_rows: 15,
    });
    s.comment_notes.push(CommentNote { cell: (2, 3), author: "Ann".to_string(), text: "check".to_string() });
    s.conditional_formats.push(ConditionalFormatRule {
        rule_type: "cellIs".to_string(),
        operator: Some("greaterThan".to_string()),
        sqref: vec![((2, 2), (3, 2))],
        formula1: "100".to_string(),
        formula2: None,
        priority: Some(1),
        stop_if_true: true,
        dxf: Some(DxfStyle {
            bold: false,
            italic: true,
            underline: false,
            font_color: None,
            fill_color: Some("FFC7CE".to_string()),
        }),
    });
    s.freeze_pane = Some(FreezePane { rows: 1, cols: 0 });
    assert_eq!(
        worksheet_json(&s),
        [
            "{",
            r#","!tables":[{"name":"T1","displayName":"Sales","ref":"A1:B3","autoFilterRef":"A1:B3","#,
            r#""autoFilterColumns":[{"colId":0,"hiddenButton":false,"showButton":true,"criteria":{"kind":"blank"}}],"#,
            r#""columns":[{"name":"Region"},{"name":"Amount"}],"styleName":"TableStyleMedium2"}]"#,
            r#","!charts":[{"ref":"A5","type":"bar","title":"Totals","yAxisTitle":"USD","legend":false,"colors":["4472C4"],"widthCols":8,"heightRows":15}]"#,
            r#","!comments":[{"ref":"C2","author":"Ann","text":"check"}]"#,
            r#","!conditionalFormats":[{"type":"cellIs","operator":"greaterThan","sqref":["B2:B3"],"formula":"100","priority":1,"stopIfTrue":true,"dxf":{"font":{"italic":true},"fill":{"fgColor":{"rgb":"FFC7CE"}}}}]"#,
            r#","!freezePane":{"rows":1,"cols":0}"#,
            "}",
        ]
        .concat()
    );
}

#[test]
fn a_zero_merge_coordinate_stays_zero() {
    let mut s = sheet("S", vec![((1, 1), SheetCell::Integer(1))]);
    s.merged_ranges.push(((0, 2), (4, 0)));
    assert_eq!(
        worksheet_json(&s),
        r#"{"A1":{"t":"n","v":1},"!ref":"A1","!merges":[{"s":{"r":0,"c":1},"e":{"r":3,"c":0}}]}"#
    );
}

#[test]
fn keys_after_the_cells_always_begin_with_a_comma() {
    // With no cell and no `!ref`, the first key still follows a comma.
    let mut s = sheet("S", vec![]);
    s.freeze_pane = Some(FreezePane { rows: 2, cols: 1 });
    assert_eq!(worksheet_json(&s), r#"{,"!freezePane":{"rows":2,"cols":1}}"#);
}
