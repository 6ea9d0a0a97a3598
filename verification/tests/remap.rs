use elixcee::formula::ast::FormulaExpr;
use elixcee::formula::parse;
use elixcee::formula::remap::{contains_named_range, remap_expr};

fn names(pairs: &[(&str, &str)]) -> Vec<(String, String)> {
    pairs.iter().map(|(k, v)| (k.to_string(), v.to_string())).collect()
}

fn offsets(pairs: &[(&str, u32)]) -> Vec<(String, u32)> {
    pairs.iter().map(|(k, v)| (k.to_string(), *v)).collect()
}

#[test]
fn a_bare_defined_name_is_found_in_any_case() {
    let named = names(&[("taxrate", "Sheet1!$B$1")]);
    let e = parse("TaxRate*2").unwrap();
    assert!(contains_named_range(&e, &named, None));
    let e = parse("SUM(A1, taxrate)").unwrap();
    assert!(contains_named_range(&e, &named, None));
}

#[test]
fn a_call_with_arguments_is_not_a_defined_name() {
    let named = names(&[("sum", "A1:A3")]);
    let e = parse("SUM(A1)").unwrap();
    assert!(!contains_named_range(&e, &named, None));
}

#[test]
fn sheet_scoped_names_count_too() {
    let named = names(&[]);
    let local = names(&[("rate", "$C$1")]);
    let e = parse("-Rate").unwrap();
    assert!(contains_named_range(&e, &named, Some(&local)));
    assert!(!contains_named_range(&e, &named, None));
}

#[test]
fn plain_references_name_no_range() {
    let named = names(&[("a1", "B2")]);
    let e = parse("A1+B2:C3").unwrap();
    assert!(!contains_named_range(&e, &named, None));
}

#[test]
fn remap_moves_rows_by_the_sheet_offset_and_drops_qualifiers() {
    let offs = offsets(&[("sheet1", 0), ("sheet2", 1000)]);
    let e = parse("A2+Sheet2!B3").unwrap();
    let got = remap_expr(&e, "Sheet1", &offs).unwrap();
    assert_eq!(got, parse("A2+B1003").unwrap());
    let e = parse("SUM('sheet2'!A1:B2)").unwrap();
    let got = remap_expr(&e, "Sheet1", &offs).unwrap();
    assert_eq!(got, parse("SUM(A1001:B1002)").unwrap());
}

#[test]
fn remap_uses_the_host_sheet_for_unqualified_references() {
    let offs = offsets(&[("data", 50)]);
    let e = parse("$C$4*2").unwrap();
    match remap_expr(&e, "DATA", &offs).unwrap() {
        FormulaExpr::BinOp { lhs, .. } => match *lhs {
            FormulaExpr::CellRef { col, row, abs_col, abs_row, sheet } => {
                assert_eq!((col, row, abs_col, abs_row), (3, 54, true, true));
                assert!(sheet.is_none());
            }
            other => panic!("unexpected {other:?}"),
        },
        other => panic!("unexpected {other:?}"),
    }
}

#[test]
fn remap_reports_an_unknown_sheet() {
    let offs = offsets(&[("sheet1", 0)]);
    let e = parse("A1+Other!A1").unwrap();
    assert_eq!(
        remap_expr(&e, "Sheet1", &offs).unwrap_err(),
        "unknown worksheet in formula reference: other"
    );
}

#[test]
fn remap_reports_row_overflow() {
    let offs = offsets(&[("sheet1", u32::MAX)]);
    let e = parse("A1").unwrap();
    assert_eq!(
        remap_expr(&e, "Sheet1", &offs).unwrap_err(),
        "worksheet row overflows formula coordinate remapping"
    );
}

#[test]
fn remap_reports_the_first_error_left_to_right() {
    let offs = offsets(&[("sheet1", u32::MAX)]);
    let e = parse("SUM(Nope!A1, A1)").unwrap();
    assert_eq!(
        remap_expr(&e, "Sheet1", &offs).unwrap_err(),
        "unknown worksheet in formula reference: nope"
    );
}
