use elixcee::package::WorksheetOrigin;
use elixcee::relgraph::{
    carry_over_rels, deleted_sheet_prunable_parts, direct_rel_targets, reachable_closure, SourcePart,
};

fn part(name: &str) -> SourcePart {
    SourcePart { name: name.to_string(), rels: Vec::new() }
}

fn rels(name: &str, decls: &[(&str, &str)]) -> SourcePart {
    SourcePart {
        name: name.to_string(),
        rels: decls.iter().map(|(t, g)| (t.to_string(), g.to_string())).collect(),
    }
}

fn names(v: &[&str]) -> Vec<String> {
    v.iter().map(|s| s.to_string()).collect()
}

fn sorted(mut v: Vec<String>) -> Vec<String> {
    v.sort();
    v
}

fn origin(part: &str) -> WorksheetOrigin {
    WorksheetOrigin {
        original_sheet_id: None,
        original_workbook_rel_id: None,
        original_part_name: Some(part.to_string()),
        original_display_name: None,
    }
}

const WS: &str = "http://schemas.openxmlformats.org/officeDocument/2006/relationships/worksheet";
const THEME: &str = "http://schemas.openxmlformats.org/officeDocument/2006/relationships/theme";
const DRAWING: &str = "http://schemas.openxmlformats.org/officeDocument/2006/relationships/drawing";
const IMAGE: &str = "http://schemas.openxmlformats.org/officeDocument/2006/relationships/image";
const OFFICE_DOC: &str = "http://schemas.openxmlformats.org/officeDocument/2006/relationships/officeDocument";

/// A two-sheet package: each sheet has its own drawing, and both drawings
/// show the same image.
fn package() -> Vec<SourcePart> {
    vec![
        rels("_rels/.rels", &[(OFFICE_DOC, "xl/workbook.xml")]),
        part("xl/workbook.xml"),
        rels(
            "xl/_rels/workbook.xml.rels",
            &[(WS, "worksheets/sheet1.xml"), (WS, "worksheets/sheet2.xml"), (THEME, "theme/theme1.xml")],
        ),
        part("xl/theme/theme1.xml"),
        part("xl/worksheets/sheet1.xml"),
        part("xl/worksheets/sheet2.xml"),
        rels("xl/worksheets/_rels/sheet1.xml.rels", &[(DRAWING, "../drawings/drawing1.xml")]),
        rels("xl/worksheets/_rels/sheet2.xml.rels", &[(DRAWING, "../drawings/drawing2.xml")]),
        part("xl/drawings/drawing1.xml"),
        part("xl/drawings/drawing2.xml"),
        rels("xl/drawings/_rels/drawing1.xml.rels", &[(IMAGE, "../media/image1.png")]),
        rels("xl/drawings/_rels/drawing2.xml.rels", &[(IMAGE, "../media/image1.png")]),
        part("xl/media/image1.png"),
    ]
}

#[test]
fn direct_rel_targets_resolve_against_the_rels_directory() {
    let p = package();
    assert_eq!(
        direct_rel_targets(&p, "xl/_rels/workbook.xml.rels"),
        names(&["xl/worksheets/sheet1.xml", "xl/worksheets/sheet2.xml", "xl/theme/theme1.xml"])
    );
    assert_eq!(direct_rel_targets(&p, "xl/worksheets/_rels/sheet1.xml.rels"), names(&["xl/drawings/drawing1.xml"]));
    assert_eq!(direct_rel_targets(&p, "_rels/.rels"), names(&["xl/workbook.xml"]));
}

#[test]
fn direct_rel_targets_of_a_missing_part_are_none() {
    assert!(direct_rel_targets(&package(), "xl/_rels/missing.xml.rels").is_empty());
}

#[test]
fn reachable_closure_walks_rels_transitively() {
    let p = package();
    let got = reachable_closure(&p, &names(&["xl/worksheets/sheet1.xml"]), &[]);
    assert_eq!(
        sorted(got),
        names(&[
            "xl/drawings/_rels/drawing1.xml.rels",
            "xl/drawings/drawing1.xml",
            "xl/media/image1.png",
            "xl/worksheets/_rels/sheet1.xml.rels",
            "xl/worksheets/sheet1.xml",
        ])
    );
}

#[test]
fn reachable_closure_excludes_at_every_hop() {
    let p = package();
    // The workbook leads back to sheet2, which is excluded: nothing only
    // sheet2 leads to may come back in that way.
    let got = reachable_closure(&p, &names(&["xl/workbook.xml"]), &names(&["xl/worksheets/sheet2.xml"]));
    assert!(!got.contains(&"xl/worksheets/sheet2.xml".to_string()));
    assert!(!got.contains(&"xl/drawings/drawing2.xml".to_string()));
    assert!(got.contains(&"xl/worksheets/sheet1.xml".to_string()));
    assert!(got.contains(&"xl/media/image1.png".to_string()));
    assert!(got.contains(&"xl/theme/theme1.xml".to_string()));
    assert!(got.contains(&"xl/_rels/workbook.xml.rels".to_string()));
}

#[test]
fn a_relationships_part_is_not_itself_expanded_as_a_root() {
    // `_rels/.rels` has no relationships part of its own, so walking from it
    // meets nothing else.
    let got = reachable_closure(&package(), &names(&["_rels/.rels"]), &[]);
    assert_eq!(got, names(&["_rels/.rels"]));
}

#[test]
fn reachable_closure_lists_each_part_once_and_skips_excluded_roots() {
    let p = package();
    let got = reachable_closure(
        &p,
        &names(&["xl/drawings/drawing1.xml", "xl/drawings/drawing2.xml", "xl/drawings/drawing1.xml"]),
        &names(&["xl/drawings/drawing2.xml"]),
    );
    assert_eq!(
        sorted(got),
        names(&["xl/drawings/_rels/drawing1.xml.rels", "xl/drawings/drawing1.xml", "xl/media/image1.png"])
    );
}

#[test]
fn deleting_a_sheet_prunes_what_only_it_leads_to() {
    let p = package();
    let origins = vec![
        ("Sheet1".to_string(), origin("xl/worksheets/sheet1.xml")),
        ("Sheet2".to_string(), origin("xl/worksheets/sheet2.xml")),
    ];
    let got = deleted_sheet_prunable_parts(&p, &origins, &names(&["Sheet1"]));
    // The shared image survives; sheet2's own part, rels, drawing and the
    // drawing's rels go.
    assert_eq!(
        sorted(got),
        names(&[
            "xl/drawings/_rels/drawing2.xml.rels",
            "xl/drawings/drawing2.xml",
            "xl/worksheets/_rels/sheet2.xml.rels",
            "xl/worksheets/sheet2.xml",
        ])
    );
}

#[test]
fn nothing_is_pruned_when_no_sheet_was_deleted() {
    let p = package();
    let origins = vec![
        ("Sheet1".to_string(), origin("xl/worksheets/sheet1.xml")),
        ("Sheet2".to_string(), origin("xl/worksheets/sheet2.xml")),
    ];
    assert!(deleted_sheet_prunable_parts(&p, &origins, &names(&["Sheet2", "Sheet1"])).is_empty());
}

#[test]
fn a_part_the_workbook_also_references_is_kept() {
    let mut p = package();
    // The workbook itself also points at sheet2's drawing.
    p[2] = rels(
        "xl/_rels/workbook.xml.rels",
        &[(WS, "worksheets/sheet1.xml"), (WS, "worksheets/sheet2.xml"), (DRAWING, "drawings/drawing2.xml")],
    );
    let origins = vec![
        ("Sheet1".to_string(), origin("xl/worksheets/sheet1.xml")),
        ("Sheet2".to_string(), origin("xl/worksheets/sheet2.xml")),
    ];
    let got = deleted_sheet_prunable_parts(&p, &origins, &names(&["Sheet1"]));
    assert_eq!(sorted(got), names(&["xl/worksheets/_rels/sheet2.xml.rels", "xl/worksheets/sheet2.xml"]));
}

#[test]
fn pruned_parts_are_only_those_present_in_the_package() {
    let mut p = package();
    // sheet2's rels names a drawing that the package does not hold.
    p[7] = rels("xl/worksheets/_rels/sheet2.xml.rels", &[(DRAWING, "../drawings/drawing9.xml")]);
    let origins = vec![
        ("Sheet1".to_string(), origin("xl/worksheets/sheet1.xml")),
        ("Sheet2".to_string(), origin("xl/worksheets/sheet2.xml")),
    ];
    let got = deleted_sheet_prunable_parts(&p, &origins, &names(&["Sheet1"]));
    assert_eq!(sorted(got), names(&["xl/worksheets/_rels/sheet2.xml.rels", "xl/worksheets/sheet2.xml"]));
}

#[test]
fn carry_over_rels_keeps_surviving_targets_of_unskipped_types() {
    let p = package();
    let passthrough = vec![("xl/theme/theme1.xml".to_string(), vec![1u8, 2, 3])];
    let got = carry_over_rels(&p, "xl/_rels/workbook.xml.rels", "xl/", &passthrough, &[WS]);
    assert_eq!(got, vec![(THEME.to_string(), "theme/theme1.xml".to_string())]);
}

#[test]
fn carry_over_rels_drops_targets_not_copied_through() {
    let p = package();
    let got = carry_over_rels(&p, "xl/_rels/workbook.xml.rels", "xl/", &[], &[]);
    assert!(got.is_empty());
    let passthrough = vec![("xl/worksheets/sheet2.xml".to_string(), Vec::new())];
    let got = carry_over_rels(&p, "xl/_rels/workbook.xml.rels", "xl/", &passthrough, &[]);
    assert_eq!(got, vec![(WS.to_string(), "worksheets/sheet2.xml".to_string())]);
}

#[test]
fn carry_over_rels_of_a_missing_rels_part_is_empty() {
    let passthrough = vec![("xl/theme/theme1.xml".to_string(), Vec::new())];
    assert!(carry_over_rels(&package(), "xl/_rels/other.xml.rels", "xl/", &passthrough, &[]).is_empty());
}

#[test]
fn carry_over_rels_of_the_root_rels_skips_the_office_document() {
    let p = package();
    let passthrough = vec![("xl/workbook.xml".to_string(), Vec::new())];
    assert!(carry_over_rels(&p, "_rels/.rels", "", &passthrough, &[OFFICE_DOC]).is_empty());
    assert_eq!(
        carry_over_rels(&p, "_rels/.rels", "", &passthrough, &[]),
        vec![(OFFICE_DOC.to_string(), "xl/workbook.xml".to_string())]
    );
}
