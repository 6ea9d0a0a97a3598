use elixcee::formula::cycle::workbook_has_formula_cycle;

type Cells = Vec<((u32, u32), Option<String>)>;

fn sheet(name: &str, cells: &[((u32, u32), Option<&str>)]) -> (String, Cells) {
    (
        name.to_string(),
        cells
            .iter()
            .map(|(pos, f)| (*pos, f.map(|s| s.to_string())))
            .collect(),
    )
}

#[test]
fn formula_cycle_diagnostic_distinguishes_cyclic_and_acyclic_workbooks() {
    let cyclic = vec![sheet(
        "Sheet1",
        &[((1, 1), Some("=B1+1")), ((1, 2), Some("=A1+1"))],
    )];
    assert!(workbook_has_formula_cycle(&cyclic));

    let acyclic = vec![sheet("Sheet1", &[((1, 1), Some("=B1+1")), ((1, 2), None)])];
    assert!(!workbook_has_formula_cycle(&acyclic));
}

#[test]
fn formula_cycle_diagnostic_crosses_qualified_sheet_references() {
    let sheets = vec![
        sheet("Input", &[((1, 1), Some("=Calc!A1+1"))]),
        sheet("Calc", &[((1, 1), Some("=Input!A1+1"))]),
    ];
    assert!(workbook_has_formula_cycle(&sheets));

    let sheets = vec![
        sheet("Input", &[((1, 1), Some("=Calc!A1+1"))]),
        sheet("Calc", &[((1, 1), None)]),
    ];
    assert!(!workbook_has_formula_cycle(&sheets));
}

#[test]
fn formula_cycle_through_a_range_and_a_self_reference() {
    let through_range = vec![sheet(
        "S",
        &[((1, 1), Some("=SUM(A2:A3)")), ((3, 1), Some("=A1*2"))],
    )];
    assert!(workbook_has_formula_cycle(&through_range));
    let reversed_range = vec![sheet(
        "S",
        &[((1, 1), Some("=SUM(A3:A2)")), ((3, 1), Some("=A1*2"))],
    )];
    assert!(workbook_has_formula_cycle(&reversed_range));
    let self_ref = vec![sheet("S", &[((2, 2), Some("=B2"))])];
    assert!(workbook_has_formula_cycle(&self_ref));
}

#[test]
fn formula_cycle_ignores_unparsed_formulas_and_other_sheets() {
    let sheets = vec![
        sheet("A", &[((1, 1), Some("=B!A1")), ((1, 2), Some("=A1+"))]),
        sheet("B", &[((1, 1), Some("=A!B1"))]),
    ];
    assert!(!workbook_has_formula_cycle(&sheets));
    let case_blind = vec![
        sheet("Alpha", &[((1, 1), Some("=beta!A1"))]),
        sheet("BETA", &[((1, 1), Some("=ALPHA!A1"))]),
    ];
    assert!(workbook_has_formula_cycle(&case_blind));
    let chain = vec![sheet(
        "S",
        &[((1, 1), Some("=A2")), ((2, 1), Some("=A3")), ((3, 1), Some("=1"))],
    )];
    assert!(!workbook_has_formula_cycle(&chain));
    assert!(!workbook_has_formula_cycle(&Vec::new()));
}
