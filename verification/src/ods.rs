//! The `content.xml` of an OpenDocument spreadsheet save: each sheet as a
//! dense table from row 1 and column 1 up to its last used row and column.

use vstd::prelude::*;
use crate::package::{push_xml_escaped, xml_escaped};
use crate::sheetxml::{concat_all, SavedCellValue};
use crate::text::{decimal_int, fmt_i64, push_all, push_str_chars, str_chars, string_chars, string_from_chars};
use crate::types::error_text;

verus! {

/// The `<table:table-cell>` of a value.
pub open spec fn ods_cell_text(v: SavedCellValue) -> Seq<char> {
    match v {
        SavedCellValue::Integer(n) => "<table:table-cell office:value-type=\"float\" office:value=\""@ + decimal_int(n as int)
            + "\"><text:p>"@ + decimal_int(n as int) + "</text:p></table:table-cell>"@,
        SavedCellValue::Float(t) => "<table:table-cell office:value-type=\"float\" office:value=\""@ + t@
            + "\"><text:p>"@ + t@ + "</text:p></table:table-cell>"@,
        SavedCellValue::Date(n) => "<table:table-cell office:value-type=\"float\" office:value=\""@ + decimal_int(n as int)
            + "\"><text:p>"@ + decimal_int(n as int) + "</text:p></table:table-cell>"@,
        SavedCellValue::Str(s) => "<table:table-cell office:value-type=\"string\"><text:p>"@ + xml_escaped(s@)
            + "</text:p></table:table-cell>"@,
        SavedCellValue::Boolean(b) => "<table:table-cell office:value-type=\"boolean\" office:boolean-value=\""@ + (if b {
            "true"@
        } else {
            "false"@
        }) + "\"><text:p>"@ + (if b {
            "TRUE"@
        } else {
            "FALSE"@
        }) + "</text:p></table:table-cell>"@,
        SavedCellValue::Error(e) => "<table:table-cell office:value-type=\"string\"><text:p>"@ + xml_escaped(error_text(e))
            + "</text:p></table:table-cell>"@,
        SavedCellValue::Blank => "<table:table-cell/>"@,
    }
}

fn push_number_cell(out: &mut Vec<char>, t: &Vec<char>)
    ensures
        final(out)@ == old(out)@ + "<table:table-cell office:value-type=\"float\" office:value=\""@ + t@ + "\"><text:p>"@
            + t@ + "</text:p></table:table-cell>"@,
{
    let ghost before = out@;
    push_str_chars(out, "<table:table-cell office:value-type=\"float\" office:value=\"");
    push_all(out, t);
    push_str_chars(out, "\"><text:p>");
    push_all(out, t);
    push_str_chars(out, "</text:p></table:table-cell>");
    proof {
        assert(out@ =~= before + "<table:table-cell office:value-type=\"float\" office:value=\""@ + t@ + "\"><text:p>"@
            + t@ + "</text:p></table:table-cell>"@);
    }
}

fn push_text_cell(out: &mut Vec<char>, t: &Vec<char>)
    ensures
        final(out)@ == old(out)@ + "<table:table-cell office:value-type=\"string\"><text:p>"@ + xml_escaped(t@)
            + "</text:p></table:table-cell>"@,
{
    let ghost before = out@;
    push_str_chars(out, "<table:table-cell office:value-type=\"string\"><text:p>");
    push_xml_escaped(out, t);
    push_str_chars(out, "</text:p></table:table-cell>");
    proof {
        assert(out@ =~= before + "<table:table-cell office:value-type=\"string\"><text:p>"@ + xml_escaped(t@)
            + "</text:p></table:table-cell>"@);
    }
}

fn push_ods_cell(out: &mut Vec<char>, v: &SavedCellValue)
    ensures
        final(out)@ == old(out)@ + ods_cell_text(*v),
{
    let ghost before = out@;
    match v {
        SavedCellValue::Integer(n) => push_number_cell(out, &fmt_i64(*n)),
        SavedCellValue::Float(t) => push_number_cell(out, &string_chars(t)),
        SavedCellValue::Date(n) => push_number_cell(out, &fmt_i64(*n)),
        SavedCellValue::Str(s) => push_text_cell(out, &string_chars(s)),
        SavedCellValue::Boolean(b) => {
            push_str_chars(out, "<table:table-cell office:value-type=\"boolean\" office:boolean-value=\"");
            if *b {
                push_str_chars(out, "true");
            } else {
                push_str_chars(out, "false");
            }
            push_str_chars(out, "\"><text:p>");
            if *b {
                push_str_chars(out, "TRUE");
            } else {
                push_str_chars(out, "FALSE");
            }
            push_str_chars(out, "</text:p></table:table-cell>");
        },
        SavedCellValue::Error(e) => push_text_cell(out, &str_chars(e.as_str())),
        SavedCellValue::Blank => push_str_chars(out, "<table:table-cell/>"),
    }
    proof {
        assert(out@ =~= before + ods_cell_text(*v));
    }
}

/// A date cell is written as its serial, exactly as an integer cell of the
/// same value; and only a blank value is written as an empty table cell.
pub proof fn law_date_cell_is_its_serial(n: i64, v: SavedCellValue)
    ensures
        ods_cell_text(SavedCellValue::Date(n)) == ods_cell_text(SavedCellValue::Integer(n)),
        ods_cell_text(v) == "<table:table-cell/>"@ <==> v is Blank,
{
    reveal_strlit("<table:table-cell/>");
    reveal_strlit("<table:table-cell office:value-type=\"float\" office:value=\"");
    reveal_strlit("<table:table-cell office:value-type=\"string\"><text:p>");
    reveal_strlit("<table:table-cell office:value-type=\"boolean\" office:boolean-value=\"");
    let t = ods_cell_text(v);
    let empty = "<table:table-cell/>"@;
    assert(empty[17] == '/');
    if !(v is Blank) {
        assert(t[17] == ' ');
        assert(t != empty);
    }
}

/// The `<table:table-cell>` of a value: a number or date serial as a
/// float, text and errors as strings (escaped), a boolean with its
/// value and `TRUE`/`FALSE`, and an empty cell for a blank.
pub fn ods_cell_xml(v: &SavedCellValue) -> (r: String)
    ensures
        r@ == ods_cell_text(*v),
{
    let mut out: Vec<char> = Vec::new();
    push_ods_cell(&mut out, v);
    proof {
        assert(out@ =~= ods_cell_text(*v));
    }
    string_from_chars(&out)
}

// ── Tables ───────────────────────────────────────────────────────────────

/// A sheet as the OpenDocument content reads it: its name and its cells by
/// 1-based `(row, column)`.
pub struct OdsSheet {
    pub name: String,
    pub cells: Vec<((u32, u32), SavedCellValue)>,
}

/// The largest row among the cells (0 for none).
pub open spec fn max_row(cs: Seq<((u32, u32), SavedCellValue)>) -> u32
    decreases cs.len(),
{
    if cs.len() == 0 {
        0
    } else {
        let m = max_row(cs.drop_last());
        if cs.last().0.0 > m {
            cs.last().0.0
        } else {
            m
        }
    }
}

/// The largest column among the cells (0 for none).
pub open spec fn max_col(cs: Seq<((u32, u32), SavedCellValue)>) -> u32
    decreases cs.len(),
{
    if cs.len() == 0 {
        0
    } else {
        let m = max_col(cs.drop_last());
        if cs.last().0.1 > m {
            cs.last().0.1
        } else {
            m
        }
    }
}

/// The value of the first cell at `(r, c)`.
pub open spec fn value_at(cs: Seq<((u32, u32), SavedCellValue)>, r: u32, c: u32) -> Option<SavedCellValue>
    decreases cs.len(),
{
    if cs.len() == 0 {
        None
    } else if cs[0].0 == (r, c) {
        Some(cs[0].1)
    } else {
        value_at(cs.drop_first(), r, c)
    }
}

/// The table cell at `(r, c)`: the cell's value, or an empty cell.
pub open spec fn grid_cell_text(cs: Seq<((u32, u32), SavedCellValue)>, r: u32, c: u32) -> Seq<char> {
    match value_at(cs, r, c) {
        Some(v) => ods_cell_text(v),
        None => "<table:table-cell/>"@,
    }
}

/// The table cells of row `r` in columns `1..=n`.
pub open spec fn row_cells(cs: Seq<((u32, u32), SavedCellValue)>, r: u32, n: nat) -> Seq<char>
    decreases n,
{
    if n == 0 || n > u32::MAX {
        Seq::empty()
    } else {
        row_cells(cs, r, (n - 1) as nat) + grid_cell_text(cs, r, n as u32)
    }
}

/// The table rows `1..=n`, each with columns `1..=cols`.
pub open spec fn grid_rows(cs: Seq<((u32, u32), SavedCellValue)>, n: nat, cols: nat) -> Seq<char>
    decreases n,
{
    if n == 0 || n > u32::MAX {
        Seq::empty()
    } else {
        grid_rows(cs, (n - 1) as nat, cols) + "<table:table-row>"@ + row_cells(cs, n as u32, cols) + "</table:table-row>\n"@
    }
}

/// A sheet's `<table:table>`: its escaped name, then, for a sheet with
/// cells, every row from 1 to its last used row with every column from 1
/// to its last used column.
pub open spec fn ods_table_text(s: OdsSheet) -> Seq<char> {
    "<table:table table:name=\""@ + xml_escaped(s.name@) + "\">\n"@ + (if s.cells@.len() > 0 {
        grid_rows(s.cells@, max_row(s.cells@) as nat, max_col(s.cells@) as nat)
    } else {
        Seq::empty()
    }) + "</table:table>\n"@
}

/// The document's `content.xml`.
pub open spec fn ods_content_text(sheets: Seq<OdsSheet>) -> Seq<char> {
    "<?xml version=\"1.0\" encoding=\"UTF-8\"?>\n<office:document-content xmlns:office=\"urn:oasis:names:tc:opendocument:xmlns:office:1.0\" xmlns:table=\"urn:oasis:names:tc:opendocument:xmlns:table:1.0\" xmlns:text=\"urn:oasis:names:tc:opendocument:xmlns:text:1.0\" office:version=\"1.2\">\n<office:body><office:spreadsheet>\n"@
        + concat_all(sheets.map_values(|s: OdsSheet| ods_table_text(s)))
        + "</office:spreadsheet></office:body>\n</office:document-content>\n"@
}

fn max_keys(cs: &Vec<((u32, u32), SavedCellValue)>) -> (r: (u32, u32))
    ensures
        r == (max_row(cs@), max_col(cs@)),
{
    let mut mr: u32 = 0;
    let mut mc: u32 = 0;
    let mut i: usize = 0;
    while i < cs.len()
        invariant
            0 <= i <= cs@.len(),
            mr == max_row(cs@.subrange(0, i as int)),
            mc == max_col(cs@.subrange(0, i as int)),
        decreases cs@.len() - i,
    {
        proof {
            assert(cs@.subrange(0, i + 1).drop_last() =~= cs@.subrange(0, i as int));
        }
        let (r, c) = cs[i].0;
        if r > mr {
            mr = r;
        }
        if c > mc {
            mc = c;
        }
        i = i + 1;
    }
    proof {
        assert(cs@.subrange(0, cs@.len() as int) =~= cs@);
    }
    (mr, mc)
}

fn push_grid_cell(out: &mut Vec<char>, cs: &Vec<((u32, u32), SavedCellValue)>, r: u32, c: u32)
    ensures
        final(out)@ == old(out)@ + grid_cell_text(cs@, r, c),
{
    let mut i: usize = 0;
    proof {
        assert(cs@.subrange(0, cs@.len() as int) =~= cs@);
    }
    while i < cs.len()
        invariant
            0 <= i <= cs@.len(),
            out@ == old(out)@,
            value_at(cs@, r, c) == value_at(cs@.subrange(i as int, cs@.len() as int), r, c),
        decreases cs@.len() - i,
    {
        proof {
            let rest = cs@.subrange(i as int, cs@.len() as int);
            assert(rest[0] == cs@[i as int]);
            assert(rest.drop_first() =~= cs@.subrange(i + 1, cs@.len() as int));
        }
        if cs[i].0.0 == r && cs[i].0.1 == c {
            push_ods_cell(out, &cs[i].1);
            return;
        }
        i = i + 1;
    }
    proof {
        assert(cs@.subrange(i as int, cs@.len() as int).len() == 0);
    }
    push_str_chars(out, "<table:table-cell/>");
}

fn push_table(out: &mut Vec<char>, s: &OdsSheet)
    ensures
        final(out)@ == old(out)@ + ods_table_text(*s),
{
    let ghost before = out@;
    push_str_chars(out, "<table:table table:name=\"");
    push_xml_escaped(out, &string_chars(&s.name));
    push_str_chars(out, "\">\n");
    let ghost head = out@;
    let cs = &s.cells;
    if cs.len() > 0 {
        let (max_r, max_c) = max_keys(cs);
        let mut r: u32 = 0;
        while r < max_r
            invariant
                r <= max_r,
                cs@ == s.cells@,
                out@ == head + grid_rows(cs@, r as nat, max_c as nat),
            decreases max_r - r,
        {
            r = r + 1;
            push_str_chars(out, "<table:table-row>");
            let ghost mid = out@;
            let mut c: u32 = 0;
            while c < max_c
                invariant
                    c <= max_c,
                    out@ == mid + row_cells(cs@, r, c as nat),
                decreases max_c - c,
            {
                c = c + 1;
                push_grid_cell(out, cs, r, c);
            }
            push_str_chars(out, "</table:table-row>\n");
        }
    }
    push_str_chars(out, "</table:table>\n");
    proof {
        assert(out@ =~= before + ods_table_text(*s));
    }
}

/// The `content.xml` of an OpenDocument save: one `<table:table>` per
/// sheet, in the order given, each a dense grid from `A1` to its last used
/// row and column where the sheet has cells.
pub fn build_ods_content(sheets: &Vec<OdsSheet>) -> (r: String)
    ensures
        r@ == ods_content_text(sheets@),
{
    let mut out: Vec<char> = Vec::new();
    push_str_chars(
        &mut out,
        "<?xml version=\"1.0\" encoding=\"UTF-8\"?>\n<office:document-content xmlns:office=\"urn:oasis:names:tc:opendocument:xmlns:office:1.0\" xmlns:table=\"urn:oasis:names:tc:opendocument:xmlns:table:1.0\" xmlns:text=\"urn:oasis:names:tc:opendocument:xmlns:text:1.0\" office:version=\"1.2\">\n<office:body><office:spreadsheet>\n",
    );
    let ghost head = out@;
    let ghost items = sheets@.map_values(|s: OdsSheet| ods_table_text(s));
    let mut k: usize = 0;
    proof {
        assert(items.subrange(0, 0) =~= Seq::<Seq<char>>::empty());
        assert(out@ =~= head + concat_all(items.subrange(0, 0)));
    }
    while k < sheets.len()
        invariant
            0 <= k <= sheets@.len(),
            items == sheets@.map_values(|s: OdsSheet| ods_table_text(s)),
            out@ == head + concat_all(items.subrange(0, k as int)),
        decreases sheets@.len() - k,
    {
        proof {
            let pre = items.subrange(0, k + 1);
            assert(pre.drop_last() =~= items.subrange(0, k as int));
        }
        push_table(&mut out, &sheets[k]);
        k = k + 1;
    }
    push_str_chars(&mut out, "</office:spreadsheet></office:body>\n</office:document-content>\n");
    proof {
        assert(items.subrange(0, items.len() as int) =~= items);
        assert(out@ =~= ods_content_text(sheets@));
    }
    string_from_chars(&out)
}

} // verus!
