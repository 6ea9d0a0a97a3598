use elixcee::passthrough::{
    collect_shared_strings, keeps_defined_names, output_has_vba, plan_passthrough, reserved_sheet_part_numbers, sort_rels_by_target,
};
use elixcee::sheetxml::SavedCellValue;
use elixcee::types::ExcelError;

fn entries(names: &[&str]) -> Vec<(String, Vec<u8>)> {
    names.iter().enumerate().map(|(i, n)| (n.to_string(), vec![i as u8])).collect()
}

fn pairs(v: &[(&str, &str)]) -> Vec<(String, String)> {
    v.iter().map(|(a, b)| (a.to_string(), b.to_string())).collect()
}

fn source() -> Vec<(String, Vec<u8>)> {
    entries(&[
        "xl/workbook.xml",
        "xl/theme/theme1.xml",
        "xl/worksheets/sheet1.xml",
        "xl/media/image1.png",
        "docProps/core.xml",
        "xl/vbaProject.bin",
        "[Content_Types].xml",
        "xl/styles.xml",
        "xl/drawings/drawing1.xml",
        "xl/worksheets/_rels/sheet1.xml.rels",
    ])
}

#[test]
fn parts_copied_through_are_the_unregenerated_ones_by_name() {
    let plan = plan_passthrough(&source(), &[], false, &[], &[]);
    let names: Vec<&str> = plan.parts.iter().map(|(n, _)| n.as_str()).collect();
    assert_eq!(
        names,
        vec![
            "docProps/core.xml",
            "xl/drawings/drawing1.xml",
            "xl/media/image1.png",
            "xl/theme/theme1.xml",
            "xl/worksheets/_rels/sheet1.xml.rels",
        ]
    );
    // Bytes travel with their part.
    assert_eq!(plan.parts[2].1, vec![3u8]);
}

#[test]
fn a_macro_project_is_kept_only_in_a_macro_enabled_output() {
    let plan = plan_passthrough(&source(), &[], true, &[], &[]);
    assert!(plan.parts.iter().any(|(n, _)| n == "xl/vbaProject.bin"));
    assert!(plan
        .content_types
        .contains(&("/xl/vbaProject.bin".to_string(), "application/vnd.ms-office.vbaProject".to_string())));
    assert!(output_has_vba(&source(), true));
    assert!(!output_has_vba(&source(), false));
    assert!(!output_has_vba(&entries(&["xl/workbook.xml"]), true));
}

#[test]
fn prunable_parts_are_not_copied() {
    let prunable = vec!["xl/drawings/drawing1.xml".to_string(), "xl/worksheets/_rels/sheet1.xml.rels".to_string()];
    let plan = plan_passthrough(&source(), &prunable, false, &[], &[]);
    let names: Vec<&str> = plan.parts.iter().map(|(n, _)| n.as_str()).collect();
    assert_eq!(names, vec!["docProps/core.xml", "xl/media/image1.png", "xl/theme/theme1.xml"]);
}

#[test]
fn content_types_come_from_override_then_default_by_extension() {
    let defaults = pairs(&[("png", "image/png"), ("xml", "application/xml")]);
    let overrides = pairs(&[
        ("/xl/theme/theme1.xml", "application/vnd.openxmlformats-officedocument.theme+xml"),
        ("/docProps/core.xml", "application/vnd.openxmlformats-package.core-properties+xml"),
    ]);
    let plan = plan_passthrough(&source(), &[], false, &defaults, &overrides);
    assert_eq!(
        plan.content_types,
        pairs(&[
            ("/docProps/core.xml", "application/vnd.openxmlformats-package.core-properties+xml"),
            ("/xl/media/image1.png", "image/png"),
            ("/xl/theme/theme1.xml", "application/vnd.openxmlformats-officedocument.theme+xml"),
        ])
    );
}

#[test]
fn an_extensionless_name_is_its_own_extension() {
    let defaults = pairs(&[("custom", "application/x-custom")]);
    let plan = plan_passthrough(&entries(&["custom"]), &[], false, &defaults, &[]);
    assert_eq!(plan.content_types, pairs(&[("/custom", "application/x-custom")]));
}

#[test]
fn reserved_part_numbers_are_those_of_worksheet_parts() {
    let es = entries(&["xl/worksheets/sheet3.xml", "xl/workbook.xml", "xl/worksheets/sheet10.xml", "xl/worksheets/sheetX.xml"]);
    assert_eq!(reserved_sheet_part_numbers(&es), vec![3, 10]);
}

#[test]
fn carried_relationships_are_ordered_by_target_keeping_ties() {
    let rels = pairs(&[("t/theme", "theme/theme1.xml"), ("t/calc", "calcChain.xml"), ("t/b", "b.xml"), ("t/a", "b.xml")]);
    assert_eq!(
        sort_rels_by_target(&rels),
        pairs(&[("t/b", "b.xml"), ("t/a", "b.xml"), ("t/calc", "calcChain.xml"), ("t/theme", "theme/theme1.xml")])
    );
}

#[test]
fn shared_strings_are_collected_once_in_sheet_then_position_order() {
    let s = |t: &str| SavedCellValue::Str(t.to_string());
    let sheets = vec![
        vec![((2, 1), s("b")), ((1, 2), s("a")), ((1, 1), SavedCellValue::Integer(1)), ((3, 1), s("b"))],
        vec![((1, 1), s("c")), ((5, 5), SavedCellValue::Error(ExcelError::NA)), ((2, 2), s("a"))],
    ];
    let (shared, index) = collect_shared_strings(&sheets);
    assert_eq!(shared, vec!["a".to_string(), "b".to_string(), "c".to_string()]);
    assert_eq!(index, vec![("a".to_string(), 0), ("b".to_string(), 1), ("c".to_string(), 2)]);
}

#[test]
fn defined_names_survive_only_when_no_sheet_is_gone_and_none_moved() {
    let names = |v: &[&str]| v.iter().map(|s| s.to_string()).collect::<Vec<_>>();
    let loaded = names(&["sheet1", "sheet2"]);
    assert!(keeps_defined_names(&loaded, &names(&["sheet2", "sheet1", "new"]), false));
    assert!(!keeps_defined_names(&loaded, &names(&["sheet1", "new"]), false));
    assert!(!keeps_defined_names(&loaded, &names(&["sheet1", "sheet2"]), true));
}
