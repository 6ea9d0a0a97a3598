use elixcee::formula::ast::{BinOpKind, FormulaExpr};
use elixcee::formula::grammar::{MAX_FORMULA_BYTES, MAX_FORMULA_DEPTH};
use elixcee::formula::parser::{parse, parse_with_refs, RefOccurrence};

fn n(v: f64) -> String {
    format!("{}", v)
}

#[test]
fn test_number() {
    assert_eq!(parse("=42").unwrap(), FormulaExpr::Number(n(42.0)));
    assert_eq!(parse("3.14").unwrap(), FormulaExpr::Number(n(3.14)));
}

#[test]
fn test_string() {
    assert_eq!(
        parse("=\"hello\"").unwrap(),
        FormulaExpr::Str("hello".into())
    );
}

#[test]
fn test_bool() {
    assert_eq!(parse("=TRUE").unwrap(), FormulaExpr::Bool(true));
    assert_eq!(parse("=FALSE").unwrap(), FormulaExpr::Bool(false));
}

#[test]
fn test_cell_ref() {
    assert_eq!(
        parse("=A1").unwrap(),
        FormulaExpr::CellRef {
            col: 1,
            row: 1,
            abs_col: false,
            abs_row: false,
            sheet: None,
        }
    );
    assert_eq!(
        parse("=B3").unwrap(),
        FormulaExpr::CellRef {
            col: 2,
            row: 3,
            abs_col: false,
            abs_row: false,
            sheet: None,
        }
    );
    assert_eq!(
        parse("=AA1").unwrap(),
        FormulaExpr::CellRef {
            col: 27,
            row: 1,
            abs_col: false,
            abs_row: false,
            sheet: None,
        }
    );
}

#[test]
fn test_range() {
    assert_eq!(
        parse("=A1:B10").unwrap(),
        FormulaExpr::Range {
            c1: 1,
            r1: 1,
            c2: 2,
            r2: 10,
            abs_c1: false,
            abs_r1: false,
            abs_c2: false,
            abs_r2: false,
            sheet: None,
        }
    );
}

#[test]
fn test_absolute_cell_ref() {
    assert_eq!(
        parse("=$A$1").unwrap(),
        FormulaExpr::CellRef {
            col: 1,
            row: 1,
            abs_col: true,
            abs_row: true,
            sheet: None,
        }
    );
    assert_eq!(
        parse("=A$1").unwrap(),
        FormulaExpr::CellRef {
            col: 1,
            row: 1,
            abs_col: false,
            abs_row: true,
            sheet: None,
        }
    );
    assert_eq!(
        parse("=$A1").unwrap(),
        FormulaExpr::CellRef {
            col: 1,
            row: 1,
            abs_col: true,
            abs_row: false,
            sheet: None,
        }
    );
}

#[test]
fn test_absolute_range_mixed_corners() {
    assert_eq!(
        parse("=$A1:B$10").unwrap(),
        FormulaExpr::Range {
            c1: 1,
            r1: 1,
            c2: 2,
            r2: 10,
            abs_c1: true,
            abs_r1: false,
            abs_c2: false,
            abs_r2: true,
            sheet: None,
        }
    );
    assert_eq!(
        parse("=$A$1:$B$10").unwrap(),
        FormulaExpr::Range {
            c1: 1,
            r1: 1,
            c2: 2,
            r2: 10,
            abs_c1: true,
            abs_r1: true,
            abs_c2: true,
            abs_r2: true,
            sheet: None,
        }
    );
}

#[test]
fn test_absolute_ref_errors() {
    assert!(parse("=$1").is_err());
    assert!(parse("=$A").is_err());
    assert!(parse("=A1:$B").is_err());
}

#[test]
fn test_refs_single_cell_span() {
    let (_, refs) = parse_with_refs("=A1+1").unwrap();
    assert_eq!(
        refs,
        vec![RefOccurrence::Cell {
            span: (0, 2),
            col: 1,
            row: 1,
            abs_col: false,
            abs_row: false,
            sheet: None,
        }]
    );
    let input = "A1+1";
    let (start, end) = (0, 2);
    assert_eq!(&input[start..end], "A1");
}

#[test]
fn test_refs_absolute_cell_span() {
    let (_, refs) = parse_with_refs("=1+$A$1").unwrap();
    assert_eq!(
        refs,
        vec![RefOccurrence::Cell {
            span: (2, 6),
            col: 1,
            row: 1,
            abs_col: true,
            abs_row: true,
            sheet: None,
        }]
    );
    let input = "1+$A$1";
    assert_eq!(&input[2..6], "$A$1");
}

#[test]
fn test_refs_range_spans() {
    let (_, refs) = parse_with_refs("=SUM($A1:B$10)").unwrap();
    assert_eq!(
        refs,
        vec![RefOccurrence::Range {
            span: (4, 12),
            c1: 1,
            r1: 1,
            abs_c1: true,
            abs_r1: false,
            c1_span: (4, 7),
            c2: 2,
            r2: 10,
            abs_c2: false,
            abs_r2: true,
            c2_span: (8, 12),
            sheet: None,
        }]
    );
    let input = "SUM($A1:B$10)";
    assert_eq!(&input[4..12], "$A1:B$10");
    assert_eq!(&input[4..7], "$A1");
    assert_eq!(&input[8..12], "B$10");
}

#[test]
fn test_refs_multiple_occurrences_in_expression() {
    let (_, refs) = parse_with_refs("=A1+B2*SUM(C1:D2)").unwrap();
    let input = "A1+B2*SUM(C1:D2)";
    let span_of = |r: &RefOccurrence| match r {
        RefOccurrence::Cell { span, .. } => *span,
        RefOccurrence::Range { span, .. } => *span,
    };
    assert_eq!(refs.len(), 3);
    let (s0, e0) = span_of(&refs[0]);
    let (s1, e1) = span_of(&refs[1]);
    let (s2, e2) = span_of(&refs[2]);
    assert_eq!(&input[s0..e0], "A1");
    assert_eq!(&input[s1..e1], "B2");
    assert_eq!(&input[s2..e2], "C1:D2");
}

#[test]
fn test_arithmetic() {
    assert_eq!(
        parse("=1+2*3").unwrap(),
        FormulaExpr::BinOp {
            op: BinOpKind::Add,
            lhs: Box::new(FormulaExpr::Number(n(1.0))),
            rhs: Box::new(FormulaExpr::BinOp {
                op: BinOpKind::Mul,
                lhs: Box::new(FormulaExpr::Number(n(2.0))),
                rhs: Box::new(FormulaExpr::Number(n(3.0))),
            }),
        }
    );
}

#[test]
fn test_function_call() {
    let expr = parse("=SUM(A1:A3)").unwrap();
    assert_eq!(
        expr,
        FormulaExpr::FuncCall {
            name: "SUM".into(),
            args: vec![FormulaExpr::Range {
                c1: 1,
                r1: 1,
                c2: 1,
                r2: 3,
                abs_c1: false,
                abs_r1: false,
                abs_c2: false,
                abs_r2: false,
                sheet: None,
            }],
        }
    );
}

#[test]
fn test_if_function() {
    let expr = parse("=IF(A1>0,B1,0)").unwrap();
    assert!(matches!(expr, FormulaExpr::FuncCall { ref name, .. } if name == "IF"));
}

#[test]
fn test_concat() {
    let expr = parse("=\"A\"&\"B\"").unwrap();
    assert_eq!(
        expr,
        FormulaExpr::BinOp {
            op: BinOpKind::Concat,
            lhs: Box::new(FormulaExpr::Str("A".into())),
            rhs: Box::new(FormulaExpr::Str("B".into())),
        }
    );
}

#[test]
fn test_unary_minus() {
    assert_eq!(
        parse("=-1").unwrap(),
        FormulaExpr::UnaryMinus(Box::new(FormulaExpr::Number(n(1.0))))
    );
}

#[test]
fn test_parentheses() {
    assert_eq!(
        parse("=(1+2)*3").unwrap(),
        FormulaExpr::BinOp {
            op: BinOpKind::Mul,
            lhs: Box::new(FormulaExpr::BinOp {
                op: BinOpKind::Add,
                lhs: Box::new(FormulaExpr::Number(n(1.0))),
                rhs: Box::new(FormulaExpr::Number(n(2.0))),
            }),
            rhs: Box::new(FormulaExpr::Number(n(3.0))),
        }
    );
}

#[test]
fn test_dot_function_name() {
    let expr = parse("=MODE.MULT(1,2,2)").unwrap();
    assert!(matches!(expr, FormulaExpr::FuncCall { ref name, .. } if name == "MODE.MULT"));
}

#[test]
fn test_function_name_with_digits() {
    let expr = parse("=LOG10(100)").unwrap();
    assert!(matches!(expr, FormulaExpr::FuncCall { ref name, .. } if name == "LOG10"));

    let expr = parse("=ATAN2(1,1)").unwrap();
    assert!(matches!(expr, FormulaExpr::FuncCall { ref name, .. } if name == "ATAN2"));

    assert_eq!(
        parse("=A1").unwrap(),
        FormulaExpr::CellRef {
            col: 1,
            row: 1,
            abs_col: false,
            abs_row: false,
            sheet: None,
        }
    );
    assert_eq!(
        parse("=B10").unwrap(),
        FormulaExpr::CellRef {
            col: 2,
            row: 10,
            abs_col: false,
            abs_row: false,
            sheet: None,
        }
    );
}

#[test]
fn test_qualified_cell_ref() {
    let expr = parse("=Sheet2!A1").unwrap();
    match expr {
        FormulaExpr::CellRef {
            col,
            row,
            abs_col,
            abs_row,
            sheet,
        } => {
            assert_eq!((col, row, abs_col, abs_row), (1, 1, false, false));
            let q = sheet.expect("expected a sheet qualifier");
            assert_eq!(q.normalized_name, "Sheet2");
            assert_eq!(q.raw_text, "Sheet2");
        }
        other => panic!("expected qualified CellRef, got {other:?}"),
    }
}

#[test]
fn test_qualified_range_ref() {
    let expr = parse("=Sheet2!A1:B10").unwrap();
    match expr {
        FormulaExpr::Range {
            c1,
            r1,
            c2,
            r2,
            sheet,
            ..
        } => {
            assert_eq!((c1, r1, c2, r2), (1, 1, 2, 10));
            assert_eq!(sheet.unwrap().normalized_name, "Sheet2");
        }
        other => panic!("expected qualified Range, got {other:?}"),
    }
}

#[test]
fn test_qualified_ref_with_mixed_dollar_signs() {
    let expr = parse("=Sheet2!$A1:B$10").unwrap();
    match expr {
        FormulaExpr::Range {
            abs_c1,
            abs_r1,
            abs_c2,
            abs_r2,
            sheet,
            ..
        } => {
            assert_eq!((abs_c1, abs_r1, abs_c2, abs_r2), (true, false, false, true));
            assert!(sheet.is_some());
        }
        other => panic!("expected Range, got {other:?}"),
    }
}

#[test]
fn test_quoted_sheet_qualifier() {
    let expr = parse("='Sales 2026'!A1").unwrap();
    match expr {
        FormulaExpr::CellRef { sheet, .. } => {
            let q = sheet.unwrap();
            assert_eq!(q.normalized_name, "Sales 2026");
            assert_eq!(q.raw_text, "'Sales 2026'");
        }
        other => panic!("expected CellRef, got {other:?}"),
    }
}

#[test]
fn test_quoted_sheet_qualifier_with_escaped_apostrophe() {
    let expr = parse("='Bob''s Data'!A1").unwrap();
    match expr {
        FormulaExpr::CellRef { sheet, .. } => {
            let q = sheet.unwrap();
            assert_eq!(q.normalized_name, "Bob's Data");
            assert_eq!(q.raw_text, "'Bob''s Data'");
        }
        other => panic!("expected CellRef, got {other:?}"),
    }
}

#[test]
fn test_multiple_qualified_and_unqualified_refs_in_one_formula() {
    let expr = parse("=Sheet1!A1+A1+Sheet2!B2").unwrap();
    assert!(matches!(expr, FormulaExpr::BinOp { .. }));
}

#[test]
fn test_sheet_qualifier_inside_a_string_literal_is_not_a_reference() {
    let (expr, refs) = parse_with_refs("=\"Sheet2!A1\"").unwrap();
    assert_eq!(expr, FormulaExpr::Str("Sheet2!A1".to_string()));
    assert!(refs.is_empty());
}

#[test]
fn test_qualified_ref_inside_unknown_function_call() {
    let expr = parse("=UNKNOWNFUNC(Sheet2!A1)").unwrap();
    match expr {
        FormulaExpr::FuncCall { name, args } => {
            assert_eq!(name, "UNKNOWNFUNC");
            assert_eq!(args.len(), 1);
            assert!(matches!(
                &args[0],
                FormulaExpr::CellRef { sheet: Some(_), .. }
            ));
        }
        other => panic!("expected FuncCall, got {other:?}"),
    }
}

#[test]
fn test_external_workbook_reference_is_a_parse_error() {
    assert!(parse("=[Book2.xlsx]Sheet1!A1").is_err());
}

#[test]
fn test_3d_reference_is_a_parse_error() {
    assert!(parse("=Sheet1:Sheet3!A1").is_err());
}

#[test]
fn test_qualifier_and_coordinate_spans_are_accurate() {
    let (_, refs) = parse_with_refs("=Sheet2!A1").unwrap();
    match &refs[0] {
        RefOccurrence::Cell { span, sheet, .. } => {
            let q = sheet.as_ref().unwrap();
            let input = "Sheet2!A1";
            assert_eq!(&input[q.raw_span.0..q.raw_span.1], "Sheet2");
            assert_eq!(&input[span.0..span.1], "A1");
        }
        other => panic!("expected Cell occurrence, got {other:?}"),
    }
}

#[test]
fn test_non_ascii_sheet_name_qualifier() {
    let formula = "=売上!A1";
    let (_, refs) = parse_with_refs(formula).unwrap();
    match &refs[0] {
        RefOccurrence::Cell { sheet, .. } => {
            let q = sheet.as_ref().unwrap();
            assert_eq!(q.normalized_name, "売上");
            let chars: Vec<char> = formula.trim_start_matches('=').chars().collect();
            let sliced: String = chars[q.raw_span.0..q.raw_span.1].iter().collect();
            assert_eq!(sliced, "売上");
        }
        other => panic!("expected Cell occurrence, got {other:?}"),
    }
}

#[test]
fn formula_limits_reject_excessive_input_length() {
    let input = "1".repeat(MAX_FORMULA_BYTES + 1);
    let error = parse(&input).unwrap_err();
    assert!(error.contains("too long"));
}

#[test]
fn formula_limits_reject_excessive_nesting_before_stack_growth() {
    let input = format!(
        "{}1{}",
        "(".repeat(MAX_FORMULA_DEPTH + 1),
        ")".repeat(MAX_FORMULA_DEPTH + 1)
    );
    let error = parse(&input).unwrap_err();
    assert!(error.contains("nesting"));
}
