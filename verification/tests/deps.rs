use elixcee::formula::deps::{formula_dependencies, formula_dependency_diagnostics, formula_io_candidates};

type Cells = Vec<((u32, u32), Option<String>)>;

fn sheet(name: &str, cells: &[((u32, u32), Option<&str>)]) -> (String, Cells) {
    (
        name.to_string(),
        cells.iter().map(|(pos, f)| (*pos, f.map(|s| s.to_string()))).collect(),
    )
}

#[test]
fn formula_dependency_snapshot_edges_are_bounded_and_deterministic() {
    let sheets = vec![sheet("Sheet1", &[((1, 1), Some("=Sheet2!B2+Sheet1!A1:A2"))])];
    let edges = formula_dependencies(&sheets);
    assert_eq!(edges.len(), 2);
    assert_eq!(edges[0].target_kind, "range");
    assert_eq!(edges[0].target_sheet, "sheet1");
    assert_eq!((edges[0].target_row, edges[0].target_end_row), (1, 2));
    assert_eq!(edges[1].target_kind, "cell");
    assert_eq!(edges[1].target_sheet, "sheet2");
}

#[test]
fn formula_io_candidates_are_bounded_and_deterministic() {
    let sheets = vec![sheet(
        "Sheet1",
        &[((1, 1), None), ((2, 1), Some("=A1+1")), ((3, 1), Some("=SUM(A1:A2)"))],
    )];
    let (inputs, outputs) = formula_io_candidates(&sheets);
    assert_eq!(inputs.len(), 2);
    assert_eq!((inputs[0].sheet.as_str(), inputs[0].row, inputs[0].col), ("sheet1", 1, 1));
    assert_eq!(inputs[1].kind, "range");
    assert_eq!(outputs.len(), 1);
    assert_eq!((outputs[0].sheet.as_str(), outputs[0].row, outputs[0].col), ("sheet1", 3, 1));
    assert_eq!(outputs[0].kind, "formula");
}

#[test]
fn formula_dependency_diagnostics_report_parse_missing_sheet_and_cycle() {
    let sheets = vec![sheet(
        "Sheet1",
        &[
            ((1, 1), Some("=Missing!A1")),
            ((1, 2), Some("=B1")),
            ((1, 3), Some("=A1")),
            ((1, 4), Some("=+")),
        ],
    )];
    let diagnostics = formula_dependency_diagnostics(&sheets);
    assert!(diagnostics.iter().any(|item| item.kind == "unresolved_sheet" && item.detail == "missing"));
    assert!(diagnostics.iter().any(|item| item.kind == "cycle"));
    assert!(diagnostics.iter().any(|item| item.kind == "parse_error"));
}

#[test]
fn duplicate_references_give_one_edge_and_edges_are_ordered_by_source() {
    let sheets = vec![
        sheet("b", &[((1, 1), Some("=A2+A2"))]),
        sheet("A", &[((2, 1), Some("=b!A1")), ((1, 1), Some("=C3"))]),
    ];
    let edges = formula_dependencies(&sheets);
    let listed: Vec<(String, u32, u32, String, u32, u32)> = edges
        .iter()
        .map(|e| {
            (
                e.source_sheet.clone(),
                e.source_row,
                e.source_col,
                e.target_sheet.clone(),
                e.target_row,
                e.target_col,
            )
        })
        .collect();
    assert_eq!(
        listed,
        vec![
            ("A".to_string(), 1, 1, "a".to_string(), 3, 3),
            ("A".to_string(), 2, 1, "b".to_string(), 1, 1),
            ("b".to_string(), 1, 1, "b".to_string(), 2, 1),
        ]
    );
}

#[test]
fn diagnostics_are_listed_by_cell_then_kind_with_the_cycle_first() {
    let sheets = vec![sheet(
        "S",
        &[((2, 1), Some("=X!A1+Y!A1+X!B2")), ((1, 1), Some("=A1")), ((1, 2), Some("=(")) ],
    )];
    let listed: Vec<(String, u32, u32, String, String)> = formula_dependency_diagnostics(&sheets)
        .iter()
        .map(|d| (d.source_sheet.clone(), d.source_row, d.source_col, d.kind.to_string(), d.detail.clone()))
        .collect();
    assert_eq!(
        listed,
        vec![
            (String::new(), 0, 0, "cycle".to_string(), "formula dependency graph contains a cycle".to_string()),
            ("S".to_string(), 1, 2, "parse_error".to_string(), "formula could not be parsed".to_string()),
            ("S".to_string(), 2, 1, "unresolved_sheet".to_string(), "x".to_string()),
            ("S".to_string(), 2, 1, "unresolved_sheet".to_string(), "y".to_string()),
        ]
    );
}

#[test]
fn a_formula_cell_read_through_a_cell_reference_is_neither_input_nor_output() {
    let sheets = vec![sheet("Sheet1", &[((1, 1), Some("=1")), ((1, 2), Some("=A1*2"))])];
    let (inputs, outputs) = formula_io_candidates(&sheets);
    assert!(inputs.is_empty());
    assert_eq!(outputs.len(), 1);
    assert_eq!((outputs[0].row, outputs[0].col), (1, 2));
}
