use elixcee::a1::{cell_ref, col_letters, format_rect};
use elixcee::formula::tables::{
    replace_table_ref_case_insensitive, rewrite_table_structured_formulas, TableSheet, TableSpec,
};
use elixcee::formula::workbook::normalize_defined_name_ref;

type Cells = Vec<((u32, u32), Option<String>)>;

fn sales_table() -> TableSheet {
    TableSheet {
        name: "Sheet1".to_string(),
        tables: vec![TableSpec {
            name: "Sales".to_string(),
            display_name: "Sales".to_string(),
            ref_range: ((1, 1), (3, 2)),
            header_row_count: 1,
            totals_row_count: 0,
            columns: vec!["Amount".to_string(), "Qty".to_string()],
        }],
    }
}

fn one_cell(sheet: &str, pos: (u32, u32), formula: &str) -> Vec<(String, Cells)> {
    vec![(sheet.to_string(), vec![(pos, Some(formula.to_string()))])]
}

fn rewritten(sheets: &[(String, Cells)]) -> String {
    sheets[0].1[0].1.clone().unwrap()
}

#[test]
fn col_letters_matches_the_usual_a1_z1_aa1_examples() {
    assert_eq!(col_letters(1), "A");
    assert_eq!(col_letters(26), "Z");
    assert_eq!(col_letters(27), "AA");
    assert_eq!(col_letters(702), "ZZ");
}

#[test]
fn col_letters_of_column_zero_is_empty() {
    assert_eq!(col_letters(0), "");
    assert_eq!(col_letters(703), "AAA");
}

#[test]
fn cell_ref_and_format_rect_render_a1_text() {
    assert_eq!(cell_ref(2, 3), "C2");
    assert_eq!(format_rect(&((2, 2), (2, 2))), "B2");
    assert_eq!(format_rect(&((1, 1), (3, 28))), "A1:AB3");
}

#[test]
fn structured_reference_rewrite_respects_formula_token_boundaries() {
    assert_eq!(
        replace_table_ref_case_insensitive("=SUM(Sales[Amount])", "Sales[Amount]", "B2:B3"),
        "=SUM(B2:B3)"
    );
    assert_eq!(
        replace_table_ref_case_insensitive("=\"Sales[Amount]\"", "Sales[Amount]", "B2:B3"),
        "=\"Sales[Amount]\""
    );
    assert_eq!(
        replace_table_ref_case_insensitive("=MySales[Amount]", "Sales[Amount]", "B2:B3"),
        "=MySales[Amount]"
    );
    assert_eq!(
        replace_table_ref_case_insensitive(
            "=\"Sales[\"\"Amount\"\"]\"",
            "Sales[Amount]",
            "B2:B3"
        ),
        "=\"Sales[\"\"Amount\"\"]\""
    );
}

#[test]
fn structured_reference_matching_ignores_ascii_case_and_replaces_every_occurrence() {
    assert_eq!(
        replace_table_ref_case_insensitive("=sales[AMOUNT]+SALES[amount]", "Sales[Amount]", "B2:B3"),
        "=B2:B3+B2:B3"
    );
    assert_eq!(
        replace_table_ref_case_insensitive("=Sales[Amount]_x", "Sales[Amount]", "B2:B3"),
        "=Sales[Amount]_x"
    );
}

#[test]
fn normalize_defined_name_ref_supports_quoted_and_local_absolute_refs() {
    assert_eq!(
        normalize_defined_name_ref("'Sheet 1'!$A$1:$B$2"),
        "Sheet 1!$A$1:$B$2"
    );
    assert_eq!(normalize_defined_name_ref("$A$1"), "A1");
}

#[test]
fn normalize_defined_name_ref_unescapes_quotes_and_keeps_bare_qualifiers() {
    assert_eq!(normalize_defined_name_ref("'Bob''s'!$A$1"), "Bob's!$A$1");
    assert_eq!(normalize_defined_name_ref("Sheet1!$A$1"), "Sheet1!$A$1");
    assert_eq!(normalize_defined_name_ref("'!$A$1"), "'!$A$1");
}

#[test]
fn table_column_reference_becomes_its_data_range_on_the_table_sheet() {
    let mut sheets = one_cell("Sheet1", (5, 1), "=SUM(Sales[Amount])");
    rewrite_table_structured_formulas(&mut sheets, &vec![sales_table()]);
    assert_eq!(rewritten(&sheets), "=SUM(A2:A3)");
}

#[test]
fn table_column_reference_from_another_sheet_is_qualified() {
    let mut sheets = one_cell("Sheet2", (1, 1), "=SUM(Sales[Qty])");
    rewrite_table_structured_formulas(&mut sheets, &vec![sales_table()]);
    assert_eq!(rewritten(&sheets), "=SUM(Sheet1!B2:B3)");
}

#[test]
fn this_row_reference_becomes_the_cell_on_the_formula_row() {
    let mut sheets = one_cell("Sheet1", (2, 3), "=Sales[@Qty]*2");
    rewrite_table_structured_formulas(&mut sheets, &vec![sales_table()]);
    assert_eq!(rewritten(&sheets), "=B2*2");
}

#[test]
fn this_row_reference_on_another_sheet_is_left_alone() {
    let mut sheets = one_cell("Sheet2", (2, 3), "=Sales[@Qty]");
    rewrite_table_structured_formulas(&mut sheets, &vec![sales_table()]);
    assert_eq!(rewritten(&sheets), "=Sales[@Qty]");
}

#[test]
fn table_item_specifiers_name_headers_all_and_data() {
    let mut sheets = vec![(
        "Sheet1".to_string(),
        vec![
            ((6, 1), Some("=COUNTA(Sales[#Headers])".to_string())),
            ((7, 1), Some("=COUNTA(Sales[#All])".to_string())),
            ((8, 1), Some("=SUM(Sales[#Data])".to_string())),
            ((9, 1), Some("=SUM(Sales[[#All],[Qty]])".to_string())),
            ((10, 1), None),
        ],
    )];
    rewrite_table_structured_formulas(&mut sheets, &vec![sales_table()]);
    let cells = &sheets[0].1;
    assert_eq!(cells[0].1.as_deref(), Some("=COUNTA(A1:B1)"));
    assert_eq!(cells[1].1.as_deref(), Some("=COUNTA(A1:B3)"));
    assert_eq!(cells[2].1.as_deref(), Some("=SUM(A2:B3)"));
    assert_eq!(cells[3].1.as_deref(), Some("=SUM(B1:B3)"));
    assert_eq!(cells[4].1, None);
}

#[test]
fn formulas_without_table_references_are_unchanged() {
    let mut sheets = one_cell("Sheet1", (4, 4), "=A1+\"Sales[Amount]\"");
    rewrite_table_structured_formulas(&mut sheets, &vec![sales_table()]);
    assert_eq!(rewritten(&sheets), "=A1+\"Sales[Amount]\"");
}
