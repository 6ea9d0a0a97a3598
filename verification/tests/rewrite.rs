use elixcee::formula::rewrite::{
    rename_sheet_references, rewrite_defined_name_for_renames, shift_references,
    translate_references_for_move, DefinedNameRewrite, MoveRect, MoveRewrite, RefAxis,
    StructuralEdit,
};

const S1: &str = "sheet1";
const S2: &str = "sheet2";

fn insert(at: u32, count: u32) -> StructuralEdit {
    StructuralEdit::Insert { at, count }
}
fn delete(at: u32, count: u32) -> StructuralEdit {
    StructuralEdit::Delete { at, count }
}
fn shift_same_sheet(
    formula: &str,
    axis: RefAxis,
    edit: StructuralEdit,
) -> Result<Option<String>, String> {
    shift_references(formula, S1, S1, axis, edit)
}

#[test]
fn unaffected_reference_is_a_noop() {
    assert_eq!(
        shift_same_sheet("=A1+1", RefAxis::Row, insert(5, 1)).unwrap(),
        None
    );
    assert_eq!(
        shift_same_sheet("=A1+1", RefAxis::Row, delete(5, 1)).unwrap(),
        None
    );
    assert_eq!(
        shift_same_sheet("=A1+1", RefAxis::Row, insert(1, 0)).unwrap(),
        None
    );
}

#[test]
fn insert_shifts_cell_ref_at_or_after_the_insertion_point() {
    assert_eq!(
        shift_same_sheet("=A5+1", RefAxis::Row, insert(5, 2)).unwrap(),
        Some("A7+1".to_string())
    );
    assert_eq!(
        shift_same_sheet("=A10+1", RefAxis::Row, insert(5, 2)).unwrap(),
        Some("A12+1".to_string())
    );
    assert_eq!(
        shift_same_sheet("=A4+1", RefAxis::Row, insert(5, 2)).unwrap(),
        None
    );
}

#[test]
fn insert_columns_shifts_only_the_column() {
    assert_eq!(
        shift_same_sheet("=C10", RefAxis::Col, insert(2, 1)).unwrap(),
        Some("D10".to_string())
    );
    assert_eq!(
        shift_same_sheet("=C10", RefAxis::Row, insert(5, 1)).unwrap(),
        Some("C11".to_string())
    );
    assert_eq!(
        shift_same_sheet("=C10", RefAxis::Row, insert(20, 1)).unwrap(),
        None
    );
}

#[test]
fn delete_shifts_cell_ref_after_the_deleted_band() {
    assert_eq!(
        shift_same_sheet("=A10+1", RefAxis::Row, delete(5, 2)).unwrap(),
        Some("A8+1".to_string())
    );
}

#[test]
fn delete_turns_a_reference_into_the_deleted_band_into_ref_error() {
    assert_eq!(
        shift_same_sheet("=A5+1", RefAxis::Row, delete(5, 2)).unwrap(),
        Some("#REF!+1".to_string())
    );
    assert_eq!(
        shift_same_sheet("=A6+1", RefAxis::Row, delete(5, 2)).unwrap(),
        Some("#REF!+1".to_string())
    );
}

#[test]
fn absolute_flags_are_preserved_through_a_shift() {
    assert_eq!(
        shift_same_sheet("=$A$10", RefAxis::Row, insert(5, 2)).unwrap(),
        Some("$A$12".to_string())
    );
    assert_eq!(
        shift_same_sheet("=A$10", RefAxis::Row, delete(5, 2)).unwrap(),
        Some("A$8".to_string())
    );
}

#[test]
fn range_shrinks_when_deletion_falls_inside_it_without_collapsing() {
    assert_eq!(
        shift_same_sheet("=SUM(A1:A10)", RefAxis::Row, delete(3, 2)).unwrap(),
        Some("SUM(A1:A8)".to_string())
    );
    assert_eq!(
        shift_same_sheet("=SUM(A3:A10)", RefAxis::Row, delete(3, 2)).unwrap(),
        Some("SUM(A3:A8)".to_string())
    );
    assert_eq!(
        shift_same_sheet("=SUM(A1:A4)", RefAxis::Row, delete(3, 2)).unwrap(),
        Some("SUM(A1:A2)".to_string())
    );
}

#[test]
fn range_becomes_ref_error_when_fully_deleted() {
    assert_eq!(
        shift_same_sheet("=SUM(A3:A4)", RefAxis::Row, delete(3, 2)).unwrap(),
        Some("SUM(#REF!)".to_string())
    );
    assert_eq!(
        shift_same_sheet("=SUM(A1:A1)", RefAxis::Row, delete(1, 1)).unwrap(),
        Some("SUM(#REF!)".to_string())
    );
}

#[test]
fn range_insert_never_collapses_and_grows_the_range() {
    assert_eq!(
        shift_same_sheet("=SUM(A1:A10)", RefAxis::Row, insert(5, 1)).unwrap(),
        Some("SUM(A1:A11)".to_string())
    );
}

#[test]
fn reversed_range_order_is_handled_like_the_evaluator_treats_it() {
    assert_eq!(
        shift_same_sheet("=SUM(A10:A1)", RefAxis::Row, insert(5, 1)).unwrap(),
        Some("SUM(A11:A1)".to_string())
    );
}

#[test]
fn mixed_corner_absolute_flags_survive_a_range_shift() {
    assert_eq!(
        shift_same_sheet("=SUM($A1:B$10)", RefAxis::Row, insert(5, 1)).unwrap(),
        Some("SUM($A1:B$11)".to_string())
    );
}

#[test]
fn leading_equals_and_whitespace_are_normalized_away() {
    assert_eq!(
        shift_same_sheet("  =A10  ", RefAxis::Row, insert(5, 1)).unwrap(),
        Some("A11".to_string())
    );
    assert_eq!(
        shift_same_sheet("A10", RefAxis::Row, insert(5, 1)).unwrap(),
        Some("A11".to_string())
    );
}

#[test]
fn multiple_references_in_one_formula_each_patch_independently() {
    assert_eq!(
        shift_same_sheet("=A10+B2*SUM(C10:C20)", RefAxis::Row, insert(5, 1)).unwrap(),
        Some("A11+B2*SUM(C11:C21)".to_string())
    );
}

#[test]
fn propagates_a_parse_error_instead_of_silently_ignoring_it() {
    assert!(shift_same_sheet("=A1+", RefAxis::Row, insert(1, 1)).is_err());
}

#[test]
fn qualified_reference_targeting_the_edited_sheet_shifts_regardless_of_host() {
    assert_eq!(
        shift_references("=Sheet1!A10+1", S2, S1, RefAxis::Row, insert(5, 1)).unwrap(),
        Some("Sheet1!A11+1".to_string())
    );
}

#[test]
fn unqualified_reference_on_a_different_host_sheet_is_untouched() {
    assert_eq!(
        shift_references("=A10+1", S2, S1, RefAxis::Row, insert(5, 1)).unwrap(),
        None
    );
}

#[test]
fn unqualified_reference_on_the_edited_sheet_still_shifts() {
    assert_eq!(
        shift_references("=A10+1", S1, S1, RefAxis::Row, insert(5, 1)).unwrap(),
        Some("A11+1".to_string())
    );
}

#[test]
fn qualified_reference_to_a_different_sheet_is_untouched_even_when_hosted_on_the_edited_sheet()
{
    assert_eq!(
        shift_references("=Sheet2!A10+1", S1, S1, RefAxis::Row, insert(5, 1)).unwrap(),
        None
    );
}

#[test]
fn quoted_sheet_name_reference_shifts_and_keeps_its_quoting() {
    assert_eq!(
        shift_references(
            "='Sales 2026'!A10",
            S2,
            "sales 2026",
            RefAxis::Row,
            insert(5, 1)
        )
        .unwrap(),
        Some("'Sales 2026'!A11".to_string())
    );
}

#[test]
fn escaped_apostrophe_in_a_quoted_sheet_name_resolves_correctly() {
    assert_eq!(
        shift_references(
            "='Bob''s Data'!A10",
            S2,
            "bob's data",
            RefAxis::Row,
            insert(5, 1)
        )
        .unwrap(),
        Some("'Bob''s Data'!A11".to_string())
    );
}

#[test]
fn qualifier_case_does_not_matter_for_targeting() {
    assert_eq!(
        shift_references("=SHEET1!A10", S2, S1, RefAxis::Row, insert(5, 1)).unwrap(),
        Some("SHEET1!A11".to_string())
    );
}

#[test]
fn only_the_reference_naming_the_edited_sheet_is_rewritten_among_several() {
    assert_eq!(
        shift_references(
            "=Sheet1!A10+A10+Sheet3!A10",
            S1,
            S1,
            RefAxis::Row,
            insert(5, 1)
        )
        .unwrap(),
        Some("Sheet1!A11+A11+Sheet3!A10".to_string())
    );
}

#[test]
fn qualified_reference_into_a_deleted_band_becomes_ref_error_keeping_the_qualifier() {
    assert_eq!(
        shift_references("=Sheet1!A5+1", S2, S1, RefAxis::Row, delete(5, 2)).unwrap(),
        Some("Sheet1!#REF!+1".to_string())
    );
}

#[test]
fn qualified_range_partial_delete_shrinks_keeping_the_qualifier() {
    assert_eq!(
        shift_references("=SUM(Sheet1!A1:A10)", S2, S1, RefAxis::Row, delete(3, 2)).unwrap(),
        Some("SUM(Sheet1!A1:A8)".to_string())
    );
}

#[test]
fn external_and_3d_references_are_left_completely_untouched() {
    assert!(
        shift_references("=[Book2.xlsx]Sheet1!A1", S1, S1, RefAxis::Row, insert(1, 1)).is_err()
    );
    assert!(shift_references("=Sheet1:Sheet3!A1", S1, S1, RefAxis::Row, insert(1, 1)).is_err());
}

#[test]
fn a_sheet_qualifier_inside_a_string_literal_is_never_treated_as_a_reference() {
    assert_eq!(
        shift_references("=\"Sheet1!A1\"&A10", S1, S1, RefAxis::Row, insert(5, 1)).unwrap(),
        Some("\"Sheet1!A1\"&A11".to_string())
    );
}

#[test]
fn a_ref_error_literal_in_the_formula_does_not_confuse_the_qualifier_lookahead() {
    assert!(shift_references("=#REF!+A10", S1, S1, RefAxis::Row, insert(5, 1)).is_err());
}

#[test]
fn rename_rewrites_a_qualifier_naming_the_renamed_sheet() {
    assert_eq!(
        rename_sheet_references("=Sheet1!A10+1", S1, "Data").unwrap(),
        Some("Data!A10+1".to_string())
    );
}

#[test]
fn rename_never_touches_unqualified_references() {
    assert_eq!(rename_sheet_references("=A10+1", S1, "Data").unwrap(), None);
}

#[test]
fn rename_never_touches_a_qualifier_naming_a_different_sheet() {
    assert_eq!(
        rename_sheet_references("=Sheet2!A10+1", S1, "Data").unwrap(),
        None
    );
}

#[test]
fn rename_quotes_the_new_name_when_it_needs_quoting() {
    assert_eq!(
        rename_sheet_references("=Sheet1!A10", S1, "Sales 2026").unwrap(),
        Some("'Sales 2026'!A10".to_string())
    );
}

#[test]
fn rename_unquotes_when_the_new_name_no_longer_needs_it() {
    assert_eq!(
        rename_sheet_references("='Sales 2026'!A10", "sales 2026", "Sheet1").unwrap(),
        Some("Sheet1!A10".to_string())
    );
}

#[test]
fn rename_escapes_an_apostrophe_in_the_new_name() {
    assert_eq!(
        rename_sheet_references("=Sheet1!A10", S1, "Bob's Data").unwrap(),
        Some("'Bob''s Data'!A10".to_string())
    );
}

#[test]
fn rename_matches_the_old_qualifier_case_insensitively() {
    assert_eq!(
        rename_sheet_references("=SHEET1!A10", S1, "Data").unwrap(),
        Some("Data!A10".to_string())
    );
}

#[test]
fn rename_rewrites_a_qualified_range_keeping_the_coordinates_untouched() {
    assert_eq!(
        rename_sheet_references("=SUM(Sheet1!A1:B10)", S1, "Data").unwrap(),
        Some("SUM(Data!A1:B10)".to_string())
    );
}

#[test]
fn rename_only_rewrites_references_naming_the_renamed_sheet_among_several() {
    assert_eq!(
        rename_sheet_references("=Sheet1!A1+Sheet2!A1+A1", S1, "Data").unwrap(),
        Some("Data!A1+Sheet2!A1+A1".to_string())
    );
}

#[test]
fn rename_case_only_still_rewrites_to_match_the_new_display_casing() {
    assert_eq!(
        rename_sheet_references("=Sheet1!A1", S1, "SHEET1").unwrap(),
        Some("SHEET1!A1".to_string())
    );
}

#[test]
fn rename_is_a_noop_when_nothing_references_the_renamed_sheet() {
    assert_eq!(rename_sheet_references("=1+2", S1, "Data").unwrap(), None);
}

#[test]
fn rename_propagates_a_parse_error_instead_of_silently_ignoring_it() {
    assert!(rename_sheet_references("=[Book2.xlsx]Sheet1!A1", S1, "Data").is_err());
}

fn rect(r1: u32, c1: u32, r2: u32, c2: u32) -> MoveRect {
    MoveRect { r1, c1, r2, c2 }
}
fn move_same_sheet(
    formula: &str,
    source: MoveRect,
    d_row: i64,
    d_col: i64,
) -> Result<MoveRewrite, String> {
    translate_references_for_move(formula, S1, source, d_row, d_col)
}

#[test]
fn zero_offset_is_unchanged_without_parsing() {
    assert_eq!(
        move_same_sheet("=A1+", rect(1, 1, 5, 5), 0, 0).unwrap(),
        MoveRewrite::Unchanged
    );
}

#[test]
fn cell_ref_inside_the_source_rect_follows_the_move() {
    assert_eq!(
        move_same_sheet("=B2+1", rect(1, 1, 5, 5), 2, 1).unwrap(),
        MoveRewrite::Rewritten("C4+1".to_string())
    );
}

#[test]
fn cell_ref_outside_the_source_rect_is_unchanged() {
    assert_eq!(
        move_same_sheet("=Z9+1", rect(1, 1, 5, 5), 2, 1).unwrap(),
        MoveRewrite::Unchanged
    );
}

#[test]
fn absolute_flags_are_preserved_through_a_move() {
    assert_eq!(
        move_same_sheet("=$B$2", rect(1, 1, 5, 5), 2, 1).unwrap(),
        MoveRewrite::Rewritten("$C$4".to_string())
    );
}

#[test]
fn a_formula_hosted_inside_the_moved_block_still_follows_its_own_internal_ref() {
    assert_eq!(
        move_same_sheet("=B3+1", rect(1, 1, 5, 5), 2, 1).unwrap(),
        MoveRewrite::Rewritten("C5+1".to_string())
    );
}

#[test]
fn range_reference_fully_inside_the_source_rect_translates_as_a_whole() {
    assert_eq!(
        move_same_sheet("=SUM(B2:C3)", rect(1, 1, 5, 5), 2, 1).unwrap(),
        MoveRewrite::Rewritten("SUM(C4:D5)".to_string())
    );
}

#[test]
fn range_reference_fully_outside_the_source_rect_is_unchanged() {
    assert_eq!(
        move_same_sheet("=SUM(Y1:Z2)", rect(1, 1, 5, 5), 2, 1).unwrap(),
        MoveRewrite::Unchanged
    );
}

#[test]
fn range_reference_with_exactly_one_corner_inside_is_ambiguous() {
    assert_eq!(
        move_same_sheet("=SUM(A2:D2)", rect(2, 1, 2, 1), 0, 1).unwrap(),
        MoveRewrite::Ambiguous
    );
    assert_eq!(
        move_same_sheet("=SUM(A2:D2)", rect(2, 4, 2, 4), 0, 1).unwrap(),
        MoveRewrite::Ambiguous
    );
}

#[test]
fn multiple_references_only_the_ones_inside_the_rect_translate() {
    assert_eq!(
        move_same_sheet("=B2+Z9+SUM(B2:C3)", rect(1, 1, 5, 5), 2, 1).unwrap(),
        MoveRewrite::Rewritten("C4+Z9+SUM(C4:D5)".to_string())
    );
}

#[test]
fn no_reference_touches_the_source_rect_is_unchanged() {
    assert_eq!(
        move_same_sheet("=1+2", rect(1, 1, 5, 5), 2, 1).unwrap(),
        MoveRewrite::Unchanged
    );
}

#[test]
fn a_negative_offset_moves_references_up_and_left() {
    assert_eq!(
        move_same_sheet("=C4", rect(1, 1, 5, 5), -2, -1).unwrap(),
        MoveRewrite::Rewritten("B2".to_string())
    );
}

#[test]
fn self_qualified_reference_naming_the_move_sheet_still_translates() {
    assert_eq!(
        translate_references_for_move("=Sheet1!B2", S1, rect(1, 1, 5, 5), 2, 1).unwrap(),
        MoveRewrite::Rewritten("Sheet1!C4".to_string())
    );
}

#[test]
fn qualified_reference_to_a_different_sheet_is_never_touched_by_a_move() {
    assert_eq!(
        move_same_sheet("=Sheet2!B2", rect(1, 1, 5, 5), 2, 1).unwrap(),
        MoveRewrite::Unchanged
    );
}

#[test]
fn move_propagates_a_parse_error_instead_of_silently_ignoring_it() {
    assert!(move_same_sheet("=[Book2.xlsx]Sheet1!A1", rect(1, 1, 5, 5), 2, 1).is_err());
    assert!(move_same_sheet("=A1+", rect(1, 1, 5, 5), 2, 1).is_err());
}

#[test]
fn a_reversed_range_reference_is_handled_by_corner_not_by_sort_order() {
    assert_eq!(
        move_same_sheet("=SUM(B10:A1)", rect(1, 1, 10, 2), 0, 2).unwrap(),
        MoveRewrite::Rewritten("SUM(D10:C1)".to_string())
    );
}

fn renames(pairs: &[(&str, &str)]) -> Vec<(String, String)> {
    pairs
        .iter()
        .map(|(k, v)| (k.to_string(), v.to_string()))
        .collect()
}

#[test]
fn defined_name_plain_reference_rewritten_via_the_general_path() {
    assert_eq!(
        rewrite_defined_name_for_renames("Sheet1!$F$5", &renames(&[("sheet1", "NewName")])),
        DefinedNameRewrite::Rewritten("NewName!$F$5".to_string())
    );
}

#[test]
fn defined_name_referencing_an_unrelated_sheet_is_unchanged() {
    assert_eq!(
        rewrite_defined_name_for_renames("Sheet2!$F$5", &renames(&[("sheet1", "NewName")])),
        DefinedNameRewrite::Unchanged
    );
}

#[test]
fn defined_name_with_no_tracked_renames_is_unchanged() {
    assert_eq!(
        rewrite_defined_name_for_renames("Sheet1!$F$5", &Vec::new()),
        DefinedNameRewrite::Unchanged
    );
}

#[test]
fn defined_name_print_titles_style_full_row_and_column_rewritten() {
    assert_eq!(
        rewrite_defined_name_for_renames(
            "Sheet1!$1:$3,Sheet1!$A:$A",
            &renames(&[("sheet1", "Data")])
        ),
        DefinedNameRewrite::Rewritten("Data!$1:$3,Data!$A:$A".to_string())
    );
}

#[test]
fn defined_name_multi_area_print_area_rewritten() {
    assert_eq!(
        rewrite_defined_name_for_renames(
            "Sheet1!$A$1:$B$2,Sheet1!$D$1:$E$2",
            &renames(&[("sheet1", "Renamed")])
        ),
        DefinedNameRewrite::Rewritten("Renamed!$A$1:$B$2,Renamed!$D$1:$E$2".to_string())
    );
}

#[test]
fn defined_name_multi_area_only_rewrites_the_matching_sheet() {
    assert_eq!(
        rewrite_defined_name_for_renames(
            "Sheet1!$A$1,Sheet2!$B$2",
            &renames(&[("sheet1", "Renamed")])
        ),
        DefinedNameRewrite::Rewritten("Renamed!$A$1,Sheet2!$B$2".to_string())
    );
}

#[test]
fn defined_name_quoted_sheet_name_with_escaped_quote_rewritten() {
    assert_eq!(
        rewrite_defined_name_for_renames(
            "'My ''Old'' Sheet'!$A$1:$B$2",
            &renames(&[("my 'old' sheet", "New Sheet")])
        ),
        DefinedNameRewrite::Rewritten("'New Sheet'!$A$1:$B$2".to_string())
    );
}

#[test]
fn defined_name_multi_area_with_no_matching_rename_is_unchanged() {
    assert_eq!(
        rewrite_defined_name_for_renames(
            "Sheet2!$1:$3,Sheet2!$A:$A",
            &renames(&[("sheet1", "Data")])
        ),
        DefinedNameRewrite::Unchanged
    );
}

#[test]
fn defined_name_unparseable_value_mentioning_the_renamed_sheet_is_dropped() {
    assert_eq!(
        rewrite_defined_name_for_renames(
            "OFFSET(Sheet1!$A$1,0,0,COUNTA(Sheet1!$A:$A),1)",
            &renames(&[("sheet1", "Data")])
        ),
        DefinedNameRewrite::Drop
    );
}

#[test]
fn defined_name_unparseable_value_not_mentioning_any_renamed_sheet_is_unchanged() {
    assert_eq!(
        rewrite_defined_name_for_renames(
            "OFFSET(Sheet3!$A$1,0,0,COUNTA(Sheet3!$A:$A),1)",
            &renames(&[("sheet1", "Data")])
        ),
        DefinedNameRewrite::Unchanged
    );
}

#[test]
fn defined_name_dynamic_range_with_simple_refs_rewritten_via_general_path() {
    assert_eq!(
        rewrite_defined_name_for_renames(
            "OFFSET(Sheet1!$A$1,0,0,10,1)",
            &renames(&[("sheet1", "Data")])
        ),
        DefinedNameRewrite::Rewritten("OFFSET(Data!$A$1,0,0,10,1)".to_string())
    );
}

#[test]
fn defined_name_multiple_renames_chained_in_one_pass() {
    assert_eq!(
        rewrite_defined_name_for_renames(
            "Sheet1!$A$1,Sheet2!$B$2",
            &renames(&[("sheet1", "First"), ("sheet2", "Second")])
        ),
        DefinedNameRewrite::Rewritten("First!$A$1,Second!$B$2".to_string())
    );
}

#[test]
fn checked_shift_reports_coordinate_overflow() {
    assert_eq!(
        elixcee::formula::rewrite::shift_references_checked(
            "=A4294967295",
            S1,
            S1,
            RefAxis::Row,
            insert(1, 1)
        ),
        None
    );
    assert_eq!(
        elixcee::formula::rewrite::shift_references_checked(
            "=A4294967295",
            S2,
            S1,
            RefAxis::Row,
            insert(1, 1)
        ),
        Some(Ok(None))
    );
    assert_eq!(
        elixcee::formula::rewrite::shift_references_checked("=A10", S1, S1, RefAxis::Row, insert(5, 1)),
        Some(Ok(Some("A11".to_string())))
    );
}

#[test]
fn checked_move_reports_offset_overflow() {
    assert_eq!(
        elixcee::formula::rewrite::translate_references_for_move_checked(
            "=B2",
            S1,
            rect(1, 1, 5, 5),
            i64::MAX,
            0
        ),
        None
    );
    assert_eq!(
        elixcee::formula::rewrite::translate_references_for_move_checked(
            "=Z9",
            S1,
            rect(1, 1, 5, 5),
            i64::MAX,
            0
        ),
        Some(Ok(MoveRewrite::Unchanged))
    );
    assert_eq!(
        elixcee::formula::rewrite::translate_references_for_move_checked(
            "=SUM(A2:D2)+B2",
            S1,
            rect(2, 1, 2, 1),
            0,
            i64::MAX
        ),
        Some(Ok(MoveRewrite::Ambiguous))
    );
}

#[test]
fn deleting_the_inserted_band_restores_the_formula() {
    let shifted = shift_same_sheet("=SUM(A3:A10)+B7", RefAxis::Row, insert(5, 2))
        .unwrap()
        .unwrap();
    assert_eq!(shifted, "SUM(A3:A12)+B9");
    assert_eq!(
        shift_same_sheet(&shifted, RefAxis::Row, delete(5, 2)).unwrap(),
        Some("SUM(A3:A10)+B7".to_string())
    );
}

#[test]
fn column_shift_renders_multi_letter_columns() {
    assert_eq!(
        shift_same_sheet("=XFD1+Z1", RefAxis::Col, insert(26, 1)).unwrap(),
        Some("XFE1+AA1".to_string())
    );
    assert_eq!(
        shift_same_sheet("=AA1", RefAxis::Col, delete(1, 1)).unwrap(),
        Some("Z1".to_string())
    );
}

#[test]
fn shift_parse_error_message_is_the_parsers() {
    assert_eq!(
        shift_same_sheet("=A1+", RefAxis::Row, insert(1, 1)),
        Err("Unexpected end of formula".to_string())
    );
    assert_eq!(
        shift_same_sheet("=A1", RefAxis::Row, delete(1, 0)),
        Ok(None)
    );
}

#[test]
fn renamed_qualifier_reads_back_as_the_new_name() {
    for name in ["Data", "Sales 2026", "Bob's Data", "2026", "_x1", "売上", "a'"] {
        let text = rename_sheet_references("=Sheet1!A1", S1, name).unwrap().unwrap();
        let (_, refs) = elixcee::formula::parser::parse_with_refs(&text).unwrap();
        match &refs[0] {
            elixcee::formula::parser::RefOccurrence::Cell { sheet, .. } => {
                assert_eq!(sheet.as_ref().unwrap().normalized_name, name);
            }
            other => panic!("expected a cell reference, got {other:?}"),
        }
    }
}

#[test]
fn defined_name_qualifier_is_renamed_once_by_the_sheet_it_names() {
    assert_eq!(
        rewrite_defined_name_for_renames("Sheet1!A1", &renames(&[("sheet1", "sheet2"), ("sheet2", "X")])),
        DefinedNameRewrite::Rewritten("sheet2!A1".to_string())
    );
    assert_eq!(
        rewrite_defined_name_for_renames("Sheet1!$A$1", &renames(&[("sheet1", "Sheet2"), ("sheet2", "Sheet3")])),
        DefinedNameRewrite::Rewritten("Sheet2!$A$1".to_string())
    );
    assert_eq!(
        rewrite_defined_name_for_renames("Sheet1!$A$1", &renames(&[("sheet2", "Sheet3"), ("sheet1", "Sheet2")])),
        DefinedNameRewrite::Rewritten("Sheet2!$A$1".to_string())
    );
    assert_eq!(
        rewrite_defined_name_for_renames(
            "Sheet1!$A$1,Sheet2!$1:$1",
            &renames(&[("sheet1", "Sheet2"), ("sheet2", "Sheet3")])
        ),
        DefinedNameRewrite::Rewritten("Sheet2!$A$1,Sheet3!$1:$1".to_string())
    );
}

#[test]
fn defined_name_list_without_a_renamed_sheet_passes_through_unchanged() {
    assert_eq!(
        rewrite_defined_name_for_renames("Sheet2!$A$1, Sheet2!$B$2", &renames(&[("sheet1", "Data")])),
        DefinedNameRewrite::Unchanged
    );
    assert_eq!(
        rewrite_defined_name_for_renames(" Sheet9!$1:$1 , $A:$A ", &renames(&[("sheet1", "X")])),
        DefinedNameRewrite::Unchanged
    );
    assert_eq!(
        rewrite_defined_name_for_renames("Sheet1!$1:$1, Sheet2!$B$2", &renames(&[("sheet1", "X")])),
        DefinedNameRewrite::Rewritten("X!$1:$1,Sheet2!$B$2".to_string())
    );
    assert_eq!(
        rewrite_defined_name_for_renames("Sheet1!$1:$1,,A1", &renames(&[("sheet1", "X")])),
        DefinedNameRewrite::Drop
    );
}
