use elixcee::formula::parse;
use elixcee::formula::summary::{contains_qualified_reference, diagnose_formulas, diagnosis_error_json};

type Formulas = Vec<((u32, u32), String)>;

fn sheet(name: &str, formulas: &[((u32, u32), &str)]) -> (String, Formulas) {
    (
        name.to_string(),
        formulas.iter().map(|(pos, f)| (*pos, f.to_string())).collect(),
    )
}

#[test]
fn qualified_references_are_found_at_any_depth() {
    assert!(contains_qualified_reference(&parse("=SUM(1,-Sheet2!A1:B2)").unwrap()));
    assert!(contains_qualified_reference(&parse("='My Sheet'!C3*2").unwrap()));
    assert!(!contains_qualified_reference(&parse("=SUM(A1:B2)+1").unwrap()));
    assert!(!contains_qualified_reference(&parse("=\"Sheet2!A1\"").unwrap()));
}

#[test]
fn diagnosis_counts_formulas_qualified_references_and_parse_errors() {
    let sheets = vec![
        sheet("Sheet1", &[((1, 1), "A2+1"), ((2, 1), "Sheet2!A1"), ((3, 1), "SUM(")]),
        sheet("Sheet2", &[((1, 1), "Sheet1!A1")]),
    ];
    assert_eq!(
        diagnose_formulas(&sheets),
        "{\"ok\":true,\"sheetCount\":2,\"formulaCount\":4,\"qualifiedFormulaCount\":2,\"formulaParseErrors\":1,\"hasFormulaCycle\":true}"
    );
}

#[test]
fn diagnosis_of_acyclic_and_empty_workbooks() {
    let sheets = vec![sheet("Data", &[((1, 2), "A1*2"), ((1, 3), "B1+A1")])];
    assert_eq!(
        diagnose_formulas(&sheets),
        "{\"ok\":true,\"sheetCount\":1,\"formulaCount\":2,\"qualifiedFormulaCount\":0,\"formulaParseErrors\":0,\"hasFormulaCycle\":false}"
    );
    assert_eq!(
        diagnose_formulas(&Vec::new()),
        "{\"ok\":true,\"sheetCount\":0,\"formulaCount\":0,\"qualifiedFormulaCount\":0,\"formulaParseErrors\":0,\"hasFormulaCycle\":false}"
    );
}

#[test]
fn diagnosis_of_an_unreadable_workbook_carries_the_escaped_error() {
    assert_eq!(
        diagnosis_error_json("bad \"zip\"\n"),
        "{\"ok\":false,\"error\":\"bad \\\"zip\\\"\\n\"}"
    );
}
