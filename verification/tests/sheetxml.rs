use elixcee::sheetxml::{
    build_xlsx_sheet, xlsx_cell_xml, OpaqueWorksheetFragments, SheetXmlCell, WorksheetContent, SavedCellValue,
};
use elixcee::types::ExcelError;

fn index(strings: &[&str]) -> Vec<(String, usize)> {
    strings.iter().enumerate().map(|(i, s)| (s.to_string(), i)).collect()
}

fn no_fragments() -> OpaqueWorksheetFragments {
    OpaqueWorksheetFragments {
        root_attrs: None,
        sheet_pr: None,
        sheet_views: None,
        sheet_format_pr: None,
        phonetic_pr: None,
        data_validations: None,
        hyperlinks: vec![],
        page_margins: None,
        page_setup: None,
        table_parts: None,
        drawing: None,
        legacy_drawing: None,
    }
}

fn cell(row: u32, col: u32, value: SavedCellValue) -> SheetXmlCell {
    SheetXmlCell { row, col, value, formula: None, style_idx: None }
}

const HEAD: &str = "<?xml version=\"1.0\" encoding=\"UTF-8\" standalone=\"yes\"?>\n<worksheet xmlns=\"http://schemas.openxmlformats.org/spreadsheetml/2006/main\">\n";

#[test]
fn cell_xml_of_every_value_kind() {
    let idx = index(&["a", "hello"]);
    let x = |v: &SavedCellValue| xlsx_cell_xml("B2", v, &idx, None, None);
    assert_eq!(x(&SavedCellValue::Integer(-3)).unwrap(), r#"<c r="B2"><v>-3</v></c>"#);
    assert_eq!(x(&SavedCellValue::Float("2.5".to_string())).unwrap(), r#"<c r="B2"><v>2.5</v></c>"#);
    assert_eq!(x(&SavedCellValue::Date(45000)).unwrap(), r#"<c r="B2"><v>45000</v></c>"#);
    assert_eq!(x(&SavedCellValue::Str("hello".to_string())).unwrap(), r#"<c r="B2" t="s"><v>1</v></c>"#);
    assert_eq!(x(&SavedCellValue::Error(ExcelError::Value)).unwrap(), r##"<c r="B2" t="e"><v>#VALUE!</v></c>"##);
    assert_eq!(x(&SavedCellValue::Boolean(true)).unwrap(), r#"<c r="B2" t="b"><v>1</v></c>"#);
    assert_eq!(x(&SavedCellValue::Boolean(false)).unwrap(), r#"<c r="B2" t="b"><v>0</v></c>"#);
    assert!(x(&SavedCellValue::Blank).is_none());
}

#[test]
fn cell_xml_carries_style_and_a_cleaned_formula() {
    let idx = index(&[]);
    assert_eq!(
        xlsx_cell_xml("A1", &SavedCellValue::Integer(3), &idx, Some(7), Some("  ==SUM(A2:A3)<1  ")).unwrap(),
        r#"<c r="A1" s="7"><f>SUM(A2:A3)&lt;1</f><v>3</v></c>"#
    );
}

#[test]
fn an_empty_sheet_is_only_its_frame() {
    let content = WorksheetContent { cells: vec![], hidden_rows: vec![], hidden_columns: vec![], merges: vec![] };
    assert_eq!(
        build_xlsx_sheet(&content, &index(&[]), &no_fragments()),
        format!("{HEAD}<sheetData>\n</sheetData>\n</worksheet>\n")
    );
}

#[test]
fn rows_come_in_order_with_hidden_rows_and_cells_by_column() {
    let content = WorksheetContent {
        cells: vec![
            cell(3, 2, SavedCellValue::Integer(32)),
            cell(1, 2, SavedCellValue::Integer(12)),
            cell(3, 1, SavedCellValue::Str("a".to_string())),
            cell(0, 1, SavedCellValue::Integer(0)),
            cell(6, 1, SavedCellValue::Blank),
        ],
        hidden_rows: vec![(4, 5), (3, 3)],
        hidden_columns: vec![(2, 4)],
        merges: vec![((1, 1), (1, 2))],
    };
    let expected = [
        HEAD,
        "<cols>\n<col min=\"2\" max=\"4\" hidden=\"1\"/>\n</cols>\n",
        "<sheetData>\n",
        "<row r=\"1\">\n<c r=\"B1\"><v>12</v></c>\n</row>\n",
        "<row r=\"3\" hidden=\"1\">\n<c r=\"A3\" t=\"s\"><v>0</v></c>\n<c r=\"B3\"><v>32</v></c>\n</row>\n",
        "<row r=\"4\" hidden=\"1\">\n</row>\n",
        "<row r=\"5\" hidden=\"1\">\n</row>\n",
        "<row r=\"6\">\n</row>\n",
        "</sheetData>\n",
        "<mergeCells count=\"1\">\n<mergeCell ref=\"A1:B1\"/>\n</mergeCells>\n",
        "</worksheet>\n",
    ]
    .concat();
    assert_eq!(build_xlsx_sheet(&content, &index(&["a"]), &no_fragments()), expected);
}

#[test]
fn fragments_are_placed_in_schema_order() {
    let content = WorksheetContent { cells: vec![], hidden_rows: vec![], hidden_columns: vec![], merges: vec![] };
    let fr = OpaqueWorksheetFragments {
        root_attrs: Some("xmlns=\"m\" xmlns:r=\"r\"".to_string()),
        sheet_pr: Some("<sheetPr/>".to_string()),
        sheet_views: Some("<sheetViews/>".to_string()),
        sheet_format_pr: Some("<sheetFormatPr/>".to_string()),
        phonetic_pr: Some("<phoneticPr/>".to_string()),
        data_validations: Some("<dataValidations/>".to_string()),
        hyperlinks: vec!["<hyperlink ref=\"A1\" location=\"B2\"/>".to_string()],
        page_margins: Some("<pageMargins/>".to_string()),
        page_setup: Some("<pageSetup/>".to_string()),
        table_parts: Some("<tableParts/>".to_string()),
        drawing: Some("<drawing r:id=\"rId1\"/>".to_string()),
        legacy_drawing: Some("<legacyDrawing r:id=\"rId2\"/>".to_string()),
    };
    let expected = [
        "<?xml version=\"1.0\" encoding=\"UTF-8\" standalone=\"yes\"?>\n",
        "<worksheet xmlns=\"m\" xmlns:r=\"r\">\n",
        "<sheetPr/>\n<sheetViews/>\n<sheetFormatPr/>\n",
        "<sheetData>\n</sheetData>\n",
        "<phoneticPr/>\n<dataValidations/>\n",
        "<hyperlinks>\n<hyperlink ref=\"A1\" location=\"B2\"/>\n</hyperlinks>\n",
        "<pageMargins/>\n<pageSetup/>\n<drawing r:id=\"rId1\"/>\n<legacyDrawing r:id=\"rId2\"/>\n<tableParts/>\n",
        "</worksheet>\n",
    ]
    .concat();
    assert_eq!(build_xlsx_sheet(&content, &index(&[]), &fr), expected);
}
