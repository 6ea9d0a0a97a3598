use elixcee::formula::workbook::normalize_structured_refs;

fn pairs(ps: &[(&str, &str)]) -> Vec<(String, String)> {
    ps.iter().map(|(k, v)| (k.to_string(), v.to_string())).collect()
}

#[test]
fn does_not_normalize_structured_text_inside_a_string_literal() {
    let structured = pairs(&[("sales[amount]", "elixceetablesalesamount")]);
    assert_eq!(
        normalize_structured_refs("=\"Sales[Amount]\"", &structured, "Sheet1", 1),
        "=\"Sales[Amount]\""
    );
}

#[test]
fn does_not_normalize_a_structured_fragment_inside_a_longer_identifier() {
    let structured = pairs(&[("sales[amount]", "elixceetablesalesamount")]);
    assert_eq!(
        normalize_structured_refs("=MySales[Amount]", &structured, "Sheet1", 1),
        "=MySales[Amount]"
    );
}

#[test]
fn leaves_this_row_reference_unchanged_outside_the_table_data_rows() {
    let structured = pairs(&[("sales[@amount]", "@sheet:Sheet1;rows:2-3|Sheet1!B{row}")]);
    assert_eq!(
        normalize_structured_refs("=Sales[@Amount]", &structured, "Sheet1", 1),
        "=Sales[@Amount]"
    );
}

#[test]
fn normalizes_a_column_reference_case_insensitively() {
    let structured = pairs(&[("sales[amount]", "elixceetablesalesamount")]);
    assert_eq!(
        normalize_structured_refs("=SUM(SALES[amount])+\"x\"&Sales[Amount]", &structured, "Sheet1", 1),
        "=SUM(elixceetablesalesamount)+\"x\"&elixceetablesalesamount"
    );
}

#[test]
fn normalizes_this_row_reference_inside_the_scope() {
    let structured = pairs(&[("sales[@amount]", "@sheet:Sheet1;rows:2-3|Sheet1!B{row}")]);
    assert_eq!(
        normalize_structured_refs("=Sales[@Amount]*2", &structured, "sheet1", 3),
        "=Sheet1!B3*2"
    );
    assert_eq!(
        normalize_structured_refs("=Sales[@Amount]*2", &structured, "Sheet2", 3),
        "=Sales[@Amount]*2"
    );
}

#[test]
fn malformed_scopes_leave_the_formula_alone() {
    for replacement in [
        "@sheet:Sheet1|B{row}",
        "@sheet:Sheet1;rows:2|B{row}",
        "@sheet:Sheet1;rows:x-3|B{row}",
    ] {
        let structured = pairs(&[("t[c]", replacement)]);
        assert_eq!(normalize_structured_refs("=t[c]", &structured, "Sheet1", 2), "=t[c]");
    }
    let structured = pairs(&[("t[c]", "@sheet:no bar")]);
    assert_eq!(
        normalize_structured_refs("=t[c]", &structured, "Sheet1", 2),
        "=@sheet:no bar"
    );
}

#[test]
fn longer_patterns_apply_before_shorter_ones() {
    let structured = pairs(&[("t[a]", "X"), ("t[a],[b]", "Y")]);
    assert_eq!(
        normalize_structured_refs("=SUM(t[a],[b])+t[a]", &structured, "Sheet1", 1),
        "=SUM(Y)+X"
    );
}
