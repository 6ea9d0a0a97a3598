use elixcee::ods::{build_ods_content, ods_cell_xml, OdsSheet};
use elixcee::sheetxml::SavedCellValue;
use elixcee::types::ExcelError;

const HEAD: &str = "<?xml version=\"1.0\" encoding=\"UTF-8\"?>\n<office:document-content xmlns:office=\"urn:oasis:names:tc:opendocument:xmlns:office:1.0\" xmlns:table=\"urn:oasis:names:tc:opendocument:xmlns:table:1.0\" xmlns:text=\"urn:oasis:names:tc:opendocument:xmlns:text:1.0\" office:version=\"1.2\">\n<office:body><office:spreadsheet>\n";
const FOOT: &str = "</office:spreadsheet></office:body>\n</office:document-content>\n";
const EMPTY: &str = "<table:table-cell/>";

#[test]
fn ods_cells_of_every_value_kind() {
    assert_eq!(
        ods_cell_xml(&SavedCellValue::Integer(7)),
        r#"<table:table-cell office:value-type="float" office:value="7"><text:p>7</text:p></table:table-cell>"#
    );
    assert_eq!(
        ods_cell_xml(&SavedCellValue::Float("0.25".to_string())),
        r#"<table:table-cell office:value-type="float" office:value="0.25"><text:p>0.25</text:p></table:table-cell>"#
    );
    assert_eq!(
        ods_cell_xml(&SavedCellValue::Str("a<b".to_string())),
        r#"<table:table-cell office:value-type="string"><text:p>a&lt;b</text:p></table:table-cell>"#
    );
    assert_eq!(
        ods_cell_xml(&SavedCellValue::Boolean(true)),
        r#"<table:table-cell office:value-type="boolean" office:boolean-value="true"><text:p>TRUE</text:p></table:table-cell>"#
    );
    assert_eq!(
        ods_cell_xml(&SavedCellValue::Error(ExcelError::DivZero)),
        r#"<table:table-cell office:value-type="string"><text:p>#DIV/0!</text:p></table:table-cell>"#
    );
    assert_eq!(ods_cell_xml(&SavedCellValue::Blank), EMPTY);
}

#[test]
fn a_sheet_is_a_dense_grid_up_to_its_last_cell() {
    let sheets = vec![
        OdsSheet {
            name: "Q&A".to_string(),
            cells: vec![((2, 2), SavedCellValue::Integer(5)), ((1, 1), SavedCellValue::Boolean(false))],
        },
        OdsSheet { name: "Empty".to_string(), cells: vec![] },
    ];
    let b = r#"<table:table-cell office:value-type="boolean" office:boolean-value="false"><text:p>FALSE</text:p></table:table-cell>"#;
    let n = r#"<table:table-cell office:value-type="float" office:value="5"><text:p>5</text:p></table:table-cell>"#;
    let expected = [
        HEAD,
        "<table:table table:name=\"Q&amp;A\">\n",
        "<table:table-row>",
        b,
        EMPTY,
        "</table:table-row>\n",
        "<table:table-row>",
        EMPTY,
        n,
        "</table:table-row>\n",
        "</table:table>\n",
        "<table:table table:name=\"Empty\">\n</table:table>\n",
        FOOT,
    ]
    .concat();
    assert_eq!(build_ods_content(&sheets), expected);
}

#[test]
fn cells_at_row_or_column_zero_only_widen_nothing() {
    let sheets = vec![OdsSheet { name: "S".to_string(), cells: vec![((0, 3), SavedCellValue::Integer(1))] }];
    assert_eq!(build_ods_content(&sheets), [HEAD, "<table:table table:name=\"S\">\n</table:table>\n", FOOT].concat());
}
