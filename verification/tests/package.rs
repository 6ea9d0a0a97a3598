use elixcee::package::{xlsx_package_entries, XlsxParts};
use elixcee::package::validate_range_addr_checked;
use elixcee::package::{
    build_ods_manifest, build_xlsx_content_types, build_xlsx_root_rels, build_xlsx_shared_strings, build_xlsx_workbook,
    build_xlsx_workbook_rels, check_grid_shape, is_writer_owned_part, merge_rect_to_a1,
    normalize_part_path, parse_sheet_part_number, part_rels_name, plan_worksheet_output,
    rels_target_dir, validate_range_addr, xml_escape, OpaqueWorkbookFragments, WorksheetOrigin,
};

fn origin(id: Option<&str>, part: Option<&str>, display: Option<&str>) -> WorksheetOrigin {
    WorksheetOrigin {
        original_sheet_id: id.map(|s| s.to_string()),
        original_workbook_rel_id: None,
        original_part_name: part.map(|s| s.to_string()),
        original_display_name: display.map(|s| s.to_string()),
    }
}

#[test]
fn validate_range_addr_accepts_a_normal_range() {
    assert_eq!(validate_range_addr("A1:C5").unwrap(), ((1, 1), (5, 3)));
}

#[test]
fn validate_range_addr_accepts_a_bare_single_cell() {
    assert_eq!(validate_range_addr("B2").unwrap(), ((2, 2), (2, 2)));
}

#[test]
fn validate_range_addr_strips_dollar_signs() {
    assert_eq!(validate_range_addr("$A$1:$C$5").unwrap(), ((1, 1), (5, 3)));
}

#[test]
fn validate_range_addr_rejects_multi_area() {
    let err = validate_range_addr("A1:B2,D1:E2").unwrap_err();
    assert!(err.contains("multi-area"), "{err:?}");
}

#[test]
fn validate_range_addr_rejects_malformed_input() {
    assert!(validate_range_addr("!!").is_err());
    assert!(validate_range_addr("").is_err());
}

#[test]
fn validate_range_addr_rejects_a_reversed_range() {
    let err = validate_range_addr("C3:A1").unwrap_err();
    assert!(err.contains("reversed"), "{err:?}");
}

#[test]
fn validate_range_addr_rejects_row_or_col_zero() {
    assert!(validate_range_addr("A0").is_err());
    assert!(validate_range_addr("A0:B1").is_err());
}

#[test]
fn validate_range_addr_messages_quote_the_address() {
    assert_eq!(
        validate_range_addr("A1,B2"),
        Err("multi-area address not supported: \"A1,B2\"".to_string())
    );
    assert_eq!(
        validate_range_addr("C3:A1"),
        Err("reversed range address: \"C3:A1\"".to_string())
    );
    assert_eq!(
        validate_range_addr("A0"),
        Err("invalid range address (row/column must be >= 1): \"A0\"".to_string())
    );
    assert_eq!(validate_range_addr("!!"), Err("invalid range address: \"!!\"".to_string()));
}

#[test]
fn check_grid_shape_accepts_an_exact_match() {
    check_grid_shape((2, 3), &[3, 3]).unwrap();
}

#[test]
fn check_grid_shape_rejects_ragged_input() {
    let err = check_grid_shape((2, 3), &[3, 2]).unwrap_err();
    assert!(err.contains("ragged"), "{err:?}");
}

#[test]
fn check_grid_shape_rejects_a_shape_mismatch() {
    let err = check_grid_shape((2, 3), &[2, 2]).unwrap_err();
    assert!(err.contains("2x3"), "{err:?}");
    assert!(err.contains("2x2"), "{err:?}");
}

#[test]
fn check_grid_shape_on_empty_input_does_not_panic() {
    let err = check_grid_shape((2, 3), &[]).unwrap_err();
    assert!(err.contains("0x0"), "{err:?}");
}

#[test]
fn check_grid_shape_messages_are_exact() {
    assert_eq!(
        check_grid_shape((2, 3), &[3, 2, 3]),
        Err("ragged input: row lengths must all be equal, got [3, 2, 3]".to_string())
    );
    assert_eq!(
        check_grid_shape((2, 3), &[2, 2]),
        Err("shape mismatch: range expects 2x3, got 2x2".to_string())
    );
}

#[test]
fn marks_leading_or_trailing_whitespace_as_xml_space_preserve() {
    let xml = build_xlsx_shared_strings(&[
        "plain".to_string(),
        " leading and trailing ".to_string(),
        "trailing ".to_string(),
    ]);
    assert!(xml.contains("<si><t>plain</t></si>"));
    assert!(xml.contains("<si><t xml:space=\"preserve\"> leading and trailing </t></si>"));
    assert!(xml.contains("<si><t xml:space=\"preserve\">trailing </t></si>"));
}

#[test]
fn shared_strings_part_counts_and_escapes_its_entries() {
    assert_eq!(
        build_xlsx_shared_strings(&["a<b".to_string()]),
        "<?xml version=\"1.0\" encoding=\"UTF-8\" standalone=\"yes\"?>\n<sst xmlns=\"http://schemas.openxmlformats.org/spreadsheetml/2006/main\" count=\"1\" uniqueCount=\"1\">\n<si><t>a&lt;b</t></si>\n</sst>\n"
    );
}

#[test]
fn build_xlsx_workbook_preserves_original_sheet_ids_and_assigns_fresh_ones_for_new_sheets() {
    let origins = vec![
        (
            "sheet1".to_string(),
            WorksheetOrigin {
                original_sheet_id: Some("7".to_string()),
                original_workbook_rel_id: Some("rId3".to_string()),
                original_part_name: Some("xl/worksheets/sheet2.xml".to_string()),
                original_display_name: Some("Sheet1".to_string()),
            },
        ),
        (
            "sheet2".to_string(),
            WorksheetOrigin {
                original_sheet_id: Some("2".to_string()),
                original_workbook_rel_id: None,
                original_part_name: None,
                original_display_name: None,
            },
        ),
    ];
    let plans = plan_worksheet_output(
        &["sheet1".to_string(), "sheet2".to_string(), "newsheet".to_string()],
        &origins,
        &[],
    );
    let xml = build_xlsx_workbook(&plans, &OpaqueWorkbookFragments::default());

    assert!(
        xml.contains("<sheet name=\"Sheet1\" sheetId=\"7\" r:id=\"rId1\"/>"),
        "expected sheet1 to keep its original sheetId 7 and original-case display name: {xml}"
    );
    assert!(
        xml.contains("<sheet name=\"sheet2\" sheetId=\"2\" r:id=\"rId2\"/>"),
        "expected sheet2 (no display name recorded) to fall back to its lookup key: {xml}"
    );
    let newsheet_id: u32 = xml
        .lines()
        .find(|l| l.contains("name=\"newsheet\""))
        .and_then(|l| l.split("sheetId=\"").nth(1))
        .and_then(|rest| rest.split('"').next())
        .and_then(|id| id.parse().ok())
        .expect("newsheet should have a numeric sheetId");
    assert!(
        newsheet_id > 7,
        "fresh sheetId {newsheet_id} must not collide with the highest preserved original id (7)"
    );
    assert!(xml.contains("r:id=\"rId3\""), "newsheet's r:id must still be positional: {xml}");

    assert_eq!(plans[0].output_part_name, "xl/worksheets/sheet2.xml");
    assert!(plans[0].is_existing);
    assert!(!plans[1].is_existing);
    assert_ne!(plans[2].output_part_name, "xl/worksheets/sheet2.xml");
    assert_ne!(plans[1].output_part_name, plans[2].output_part_name);
}

#[test]
fn build_xlsx_workbook_assigns_sequential_ids_when_no_sheet_has_a_known_origin() {
    let origins = Vec::new();
    let plans = plan_worksheet_output(&["a".to_string(), "b".to_string()], &origins, &[]);
    let xml = build_xlsx_workbook(&plans, &OpaqueWorkbookFragments::default());
    assert!(xml.contains("<sheet name=\"a\" sheetId=\"1\" r:id=\"rId1\"/>"), "{xml}");
    assert!(xml.contains("<sheet name=\"b\" sheetId=\"2\" r:id=\"rId2\"/>"), "{xml}");
}

#[test]
fn merge_rect_to_a1_formats_a_multi_cell_range() {
    assert_eq!(merge_rect_to_a1(&((1, 2), (1, 4))), "B1:D1");
}

#[test]
fn merge_rect_to_a1_formats_a_single_cell_range() {
    assert_eq!(merge_rect_to_a1(&((3, 3), (3, 3))), "C3:C3");
}

#[test]
fn worksheet_plans_number_new_parts_above_reserved_ones() {
    let origins = vec![("s".to_string(), origin(None, Some("xl/worksheets/sheet4.xml"), None))];
    let plans = plan_worksheet_output(&["s".to_string(), "t".to_string()], &origins, &[9, 2]);
    assert_eq!(plans[0].output_part_name, "xl/worksheets/sheet4.xml");
    assert_eq!(plans[0].output_rels_name, "xl/worksheets/_rels/sheet4.xml.rels");
    assert_eq!(plans[0].sheet_id, "1");
    assert_eq!(plans[1].output_part_name, "xl/worksheets/sheet10.xml");
    assert_eq!(plans[1].sheet_id, "2");
    assert_eq!(plans[1].workbook_rel_id, "rId2");
    assert_eq!(plans[1].display_name, "t");
    let plans = plan_worksheet_output(&["t".to_string()], &origins, &[]);
    assert_eq!(plans[0].output_part_name, "xl/worksheets/sheet5.xml");
}

#[test]
fn workbook_xml_carries_fragments_in_schema_order() {
    let plans = plan_worksheet_output(&["a&b".to_string()], &Vec::new(), &[]);
    let fragments = OpaqueWorkbookFragments {
        root_attrs: Some("xmlns=\"m\"".to_string()),
        workbook_pr: Some("<workbookPr/>".to_string()),
        book_views: None,
        defined_names: Some("<definedNames/>".to_string()),
        calc_pr: None,
        ext_lst: Some("<extLst/>".to_string()),
    };
    assert_eq!(
        build_xlsx_workbook(&plans, &fragments),
        "<?xml version=\"1.0\" encoding=\"UTF-8\" standalone=\"yes\"?>\n<workbook xmlns=\"m\">\n<workbookPr/>\n<sheets>\n<sheet name=\"a&amp;b\" sheetId=\"1\" r:id=\"rId1\"/>\n</sheets>\n<definedNames/>\n<extLst/>\n</workbook>\n"
    );
}

#[test]
fn workbook_rels_number_fixed_and_carried_relationships_after_the_sheets() {
    let plans = plan_worksheet_output(&["a".to_string()], &Vec::new(), &[]);
    let rels = build_xlsx_workbook_rels(
        &plans,
        true,
        &[("urn:theme".to_string(), "theme/theme1.xml".to_string())],
    );
    assert_eq!(
        rels,
        "<?xml version=\"1.0\" encoding=\"UTF-8\" standalone=\"yes\"?>\n<Relationships xmlns=\"http://schemas.openxmlformats.org/package/2006/relationships\">\n<Relationship Id=\"rId1\" Type=\"http://schemas.openxmlformats.org/officeDocument/2006/relationships/worksheet\" Target=\"worksheets/sheet1.xml\"/>\n<Relationship Id=\"rId2\" Type=\"http://schemas.openxmlformats.org/officeDocument/2006/relationships/sharedStrings\" Target=\"sharedStrings.xml\"/>\n<Relationship Id=\"rId3\" Type=\"http://schemas.openxmlformats.org/officeDocument/2006/relationships/styles\" Target=\"styles.xml\"/>\n<Relationship Id=\"rId4\" Type=\"http://schemas.microsoft.com/office/2006/relationships/vbaProject\" Target=\"vbaProject.bin\"/>\n<Relationship Id=\"rId5\" Type=\"urn:theme\" Target=\"theme/theme1.xml\"/>\n</Relationships>\n"
    );
    let without_vba = build_xlsx_workbook_rels(&plans, false, &[("t".to_string(), "x".to_string())]);
    assert!(without_vba.contains("<Relationship Id=\"rId4\" Type=\"t\" Target=\"x\"/>"));
    let root = build_xlsx_root_rels(&[("urn:core".to_string(), "docProps/core.xml".to_string())]);
    assert!(root.contains("Id=\"rId1\" Type=\"http://schemas.openxmlformats.org/officeDocument/2006/relationships/officeDocument\" Target=\"xl/workbook.xml\"/>"));
    assert!(root.ends_with("<Relationship Id=\"rId2\" Type=\"urn:core\" Target=\"docProps/core.xml\"/>\n</Relationships>\n"));
}

#[test]
fn content_types_follow_the_file_format_and_list_every_worksheet() {
    let plans = plan_worksheet_output(&["a".to_string(), "b".to_string()], &Vec::new(), &[]);
    let xlsm = build_xlsx_content_types(&plans, true, &[("/xl/vbaProject.bin".to_string(), "application/vnd.ms-office.vbaProject".to_string())]);
    assert!(xlsm.contains("<Override PartName=\"/xl/workbook.xml\" ContentType=\"application/vnd.ms-excel.sheet.macroEnabled.main+xml\"/>"));
    assert!(xlsm.contains("<Override PartName=\"/xl/worksheets/sheet1.xml\" ContentType=\"application/vnd.openxmlformats-officedocument.spreadsheetml.worksheet+xml\"/>\n<Override PartName=\"/xl/worksheets/sheet2.xml\""));
    assert!(xlsm.ends_with("<Override PartName=\"/xl/vbaProject.bin\" ContentType=\"application/vnd.ms-office.vbaProject\"/>\n</Types>\n"));
    let xlsx = build_xlsx_content_types(&plans, false, &[]);
    assert!(xlsx.contains("application/vnd.openxmlformats-officedocument.spreadsheetml.sheet.main+xml"));
}

#[test]
fn part_paths_resolve_relative_segments() {
    assert_eq!(normalize_part_path("xl/../customXml/item1.xml"), "customXml/item1.xml");
    assert_eq!(normalize_part_path("xl/worksheets/./sheet1.xml"), "xl/worksheets/sheet1.xml");
    assert_eq!(normalize_part_path("/xl//a.xml"), "xl/a.xml");
    assert_eq!(normalize_part_path("../../a"), "a");
    assert_eq!(part_rels_name("xl/worksheets/sheet1.xml"), "xl/worksheets/_rels/sheet1.xml.rels");
    assert_eq!(part_rels_name("workbook.xml"), "_rels/workbook.xml.rels");
    assert_eq!(rels_target_dir("xl/worksheets/_rels/sheet1.xml.rels"), "xl/worksheets/");
    assert_eq!(rels_target_dir("_rels/.rels"), "");
}

#[test]
fn sheet_part_numbers_and_writer_owned_parts() {
    assert_eq!(parse_sheet_part_number("xl/worksheets/sheet12.xml"), Some(12));
    assert_eq!(parse_sheet_part_number("xl/worksheets/sheet.xml"), None);
    assert_eq!(parse_sheet_part_number("xl/worksheets/sheetx.xml"), None);
    assert_eq!(parse_sheet_part_number("xl/chartsheets/sheet1.xml"), None);
    assert!(is_writer_owned_part("[Content_Types].xml"));
    assert!(is_writer_owned_part("xl/styles.xml"));
    assert!(is_writer_owned_part("xl/worksheets/sheet3.xml"));
    assert!(!is_writer_owned_part("xl/worksheets/_rels/sheet3.xml.rels"));
    assert!(!is_writer_owned_part("xl/theme/theme1.xml"));
}

#[test]
fn xml_escape_writes_entities_for_markup_chars() {
    assert_eq!(xml_escape("a&b<c>\"d'"), "a&amp;b&lt;c&gt;&quot;d&apos;");
    assert_eq!(xml_escape("plain"), "plain");
}

#[test]
fn ods_manifest_lists_the_package_and_its_content() {
    let m = build_ods_manifest();
    assert!(m.starts_with("<?xml version=\"1.0\" encoding=\"UTF-8\"?>\n<manifest:manifest "));
    assert!(m.contains(" <manifest:file-entry manifest:media-type=\"application/vnd.oasis.opendocument.spreadsheet\" manifest:version=\"1.2\" manifest:full-path=\"/\"/>\n"));
    assert!(m.contains(" <manifest:file-entry manifest:media-type=\"text/xml\" manifest:full-path=\"content.xml\"/>\n"));
    assert!(m.ends_with("</manifest:manifest>\n"));
    assert_eq!(m.lines().count(), 5);
}

#[test]
fn checked_range_validation_refuses_only_overflowing_addresses() {
    assert_eq!(validate_range_addr_checked("A1:C5"), Some(Ok(((1, 1), (5, 3)))));
    assert!(matches!(validate_range_addr_checked("A1,B2"), Some(Err(_))));
    assert_eq!(validate_range_addr_checked("ZZZZZZZZZZ1"), None);
}

#[test]
fn package_entries_come_in_writing_order() {
    let parts = XlsxParts {
        content_types: "ct".to_string(),
        root_rels: "rr".to_string(),
        workbook: "wb".to_string(),
        workbook_rels: "wr".to_string(),
        sheets: vec![
            ("xl/worksheets/sheet1.xml".to_string(), "s1".to_string()),
            ("xl/worksheets/sheet2.xml".to_string(), "s2".to_string()),
        ],
        shared_strings: "ss".to_string(),
        styles: vec![1, 2],
        passthrough: vec![("xl/theme/theme1.xml".to_string(), vec![3])],
    };
    let names: Vec<String> = xlsx_package_entries(parts).into_iter().map(|(n, _)| n).collect();
    assert_eq!(
        names,
        vec![
            "[Content_Types].xml",
            "_rels/.rels",
            "xl/workbook.xml",
            "xl/_rels/workbook.xml.rels",
            "xl/worksheets/sheet1.xml",
            "xl/worksheets/sheet2.xml",
            "xl/sharedStrings.xml",
            "xl/styles.xml",
            "xl/theme/theme1.xml",
        ]
    );
}
