//! Rendering of a strict-resolution diagnosis: why Excel would reject an
//! operation (missing worksheet or workbook, array index out of bounds,
//! paste shape or merge conflicts, multi-area pastes), with the evidence and
//! plain-English fix suggestions, as JSON and as plain text.

use vstd::prelude::*;
use crate::a1::{push_rect_text, rect_text};
use crate::diagnostics::{
    json_quoted, location_json, push_messages_json, push_quoted_chars, string_array_json,
    strings_view, SourceLocation, SourceSpan,
};
use crate::text::{
    col_letters, col_to_letters, decimal, decimal_int, fmt_i64, fmt_u64, push_all, push_str_chars,
    string_chars, string_from_chars,
};

verus! {

// ── Evidence ─────────────────────────────────────────────────────────────

/// What a failed sheet or workbook lookup asked for and what exists.
#[derive(Debug, Clone, PartialEq)]
pub struct ResolutionEvidence {
    pub expression: String,
    pub requested: String,
    pub available: Vec<String>,
    pub suggested: Option<String>,
}

/// A 1-based inclusive cell rectangle.
#[derive(Debug, Clone, Copy, PartialEq, Eq)]
pub struct Rect {
    pub start_row: u32,
    pub start_col: u32,
    pub end_row: u32,
    pub end_col: u32,
}

/// The corners of a rectangle are in order.
pub open spec fn rect_wf(r: Rect) -> bool {
    r.start_row <= r.end_row && r.start_col <= r.end_col
}

impl Rect {
    /// The number of rows.
    pub fn rows(&self) -> (n: u64)
        requires
            self.start_row <= self.end_row,
        ensures
            n == self.end_row - self.start_row + 1,
    {
        (self.end_row - self.start_row) as u64 + 1
    }

    /// The number of columns.
    pub fn cols(&self) -> (n: u64)
        requires
            self.start_col <= self.end_col,
        ensures
            n == self.end_col - self.start_col + 1,
    {
        (self.end_col - self.start_col) as u64 + 1
    }
}

/// A 1-based inclusive run of rows or columns.
#[derive(Debug, Clone, Copy, PartialEq, Eq)]
pub struct Interval {
    pub start: u32,
    pub end: u32,
}

/// That the last copied range overlapped hidden rows or columns.
#[derive(Debug, Clone, PartialEq)]
pub struct HiddenCellsObservation {
    pub sheet: String,
    pub address: String,
    pub rows: u32,
    pub columns: u32,
    pub hidden_rows: Vec<Interval>,
    pub hidden_columns: Vec<Interval>,
    pub total_cells: u64,
    pub visible_cells: u64,
}

/// Why Excel would reject an operation, with the evidence for it.
#[derive(Debug, PartialEq)]
pub enum ResolutionFailureKind {
    WorksheetNotFound(ResolutionEvidence),
    WorkbookNotFound(ResolutionEvidence),
    ArrayIndexOutOfBounds { name: String, index: i64, lower: i64, upper: i64 },
    PasteShapeMismatch {
        source_addr: String,
        source_rows: u32,
        source_cols: u32,
        dest_addr: String,
        dest_rows: u32,
        dest_cols: u32,
        dest_row1: u32,
        dest_col1: u32,
        transpose: bool,
        copy_span: Option<SourceSpan>,
    },
    PasteWithoutCopy { dest_addr: String },
    SheetProtected { sheet: String },
    PasteIntoNonAnchorMergedCell {
        dest_addr: String,
        dest_sheet: String,
        merged_range: ((u32, u32), (u32, u32)),
        copy_span: Option<SourceSpan>,
    },
    PastePartialMergedRange {
        dest_addr: String,
        dest_sheet: String,
        conflicts: Vec<((u32, u32), (u32, u32))>,
        copy_span: Option<SourceSpan>,
    },
    PasteMergeLayoutMismatch {
        source_addr: String,
        source_sheet: String,
        dest_addr: String,
        dest_sheet: String,
        conflicts: Vec<((u32, u32), (u32, u32))>,
        copy_span: Option<SourceSpan>,
    },
    MultiAreaToSingleAreaPaste { source_areas: Vec<Rect>, destination_areas: Vec<Rect> },
    MultiAreaCountMismatch { source_areas: Vec<Rect>, destination_areas: Vec<Rect> },
    MultiAreaShapeMismatch { area_index: usize, source_area: Rect, destination_area: Rect },
    MultiAreaPasteUnsupported { source_areas: Vec<Rect>, destination_areas: Vec<Rect> },
}

// ── Joining ──────────────────────────────────────────────────────────────

/// The items joined with `sep` between them.
pub open spec fn join_seq(items: Seq<Seq<char>>, sep: Seq<char>) -> Seq<char>
    decreases items.len(),
{
    if items.len() == 0 {
        Seq::empty()
    } else if items.len() == 1 {
        items[0]
    } else {
        join_seq(items.drop_last(), sep) + sep + items.last()
    }
}

/// Appends `items` joined with `sep`.
fn push_joined(out: &mut Vec<char>, items: &Vec<Vec<char>>, sep: &str)
    ensures
        final(out)@ == old(out)@ + join_seq(chars_view(items@), sep@),
{
    let ghost before = out@;
    let ghost iv = chars_view(items@);
    let mut i: usize = 0;
    proof {
        assert(iv.subrange(0, 0) =~= Seq::<Seq<char>>::empty());
        assert(out@ =~= before + join_seq(iv.subrange(0, 0), sep@));
    }
    while i < items.len()
        invariant
            0 <= i <= items@.len(),
            iv == chars_view(items@),
            iv.len() == items@.len(),
            out@ == before + join_seq(iv.subrange(0, i as int), sep@),
        decreases items@.len() - i,
    {
        let ghost pre = iv.subrange(0, i + 1);
        proof {
            assert(pre.drop_last() =~= iv.subrange(0, i as int));
            assert(pre.last() == items@[i as int]@);
        }
        if i > 0 {
            push_str_chars(out, sep);
        }
        push_all(out, &items[i]);
        proof {
            if i == 0 {
                assert(pre.len() == 1);
                assert(out@ =~= before + pre[0]);
            } else {
                assert(out@ =~= before + (join_seq(pre.drop_last(), sep@) + sep@ + pre.last()));
            }
        }
        i = i + 1;
    }
    proof {
        assert(iv.subrange(0, iv.len() as int) =~= iv);
    }
}

pub open spec fn chars_view(items: Seq<Vec<char>>) -> Seq<Seq<char>> {
    items.map_values(|v: Vec<char>| v@)
}

// ── Areas, intervals and observations ────────────────────────────────────

pub open spec fn rect_corners(r: Rect) -> ((u32, u32), (u32, u32)) {
    ((r.start_row, r.start_col), (r.end_row, r.end_col))
}

/// The address of an area (`B2`, or `A1:C3`).
pub open spec fn area_text(r: Rect) -> Seq<char> {
    rect_text(rect_corners(r))
}

/// `{"address":...,"rows":N,"columns":N}` for one area.
pub open spec fn area_json_text(r: Rect) -> Seq<char> {
    "{\"address\":"@ + json_quoted(area_text(r)) + ",\"rows\":"@ + decimal(
        (r.end_row - r.start_row + 1) as nat,
    ) + ",\"columns\":"@ + decimal((r.end_col - r.start_col + 1) as nat) + "}"@
}

/// Every area of the list is in order.
pub open spec fn areas_wf(rs: Seq<Rect>) -> bool {
    forall|i: int| 0 <= i < rs.len() ==> #[trigger] rect_wf(rs[i])
}

/// A JSON array of area objects.
pub open spec fn areas_json_text(rs: Seq<Rect>) -> Seq<char> {
    "["@ + join_seq(rs.map_values(|r: Rect| area_json_text(r)), ","@) + "]"@
}

/// A hidden-row run as `11:14`.
pub open spec fn row_interval_text(iv: Interval) -> Seq<char> {
    decimal(iv.start as nat) + seq![':'] + decimal(iv.end as nat)
}

/// A hidden-column run as `B:B`.
pub open spec fn col_interval_text(iv: Interval) -> Seq<char> {
    col_letters(iv.start as nat) + seq![':'] + col_letters(iv.end as nat)
}

pub open spec fn interval_text(iv: Interval, rows: bool) -> Seq<char> {
    if rows {
        row_interval_text(iv)
    } else {
        col_interval_text(iv)
    }
}

/// A JSON array of quoted runs.
pub open spec fn intervals_json_text(ivs: Seq<Interval>, rows: bool) -> Seq<char> {
    "["@ + join_seq(ivs.map_values(|iv: Interval| json_quoted(interval_text(iv, rows))), ","@) + "]"@
}

/// The `range` object of an observation.
pub open spec fn obs_range_text(o: HiddenCellsObservation) -> Seq<char> {
    "{\"sheet\":"@ + json_quoted(o.sheet@) + ",\"address\":"@ + json_quoted(o.address@) + ",\"rows\":"@
        + decimal(o.rows as nat) + ",\"columns\":"@ + decimal(o.columns as nat) + "}"@
}

/// The `visibility` object of an observation.
pub open spec fn obs_visibility_text(o: HiddenCellsObservation) -> Seq<char> {
    "{\"hidden_rows\":"@ + intervals_json_text(o.hidden_rows@, true) + ",\"hidden_columns\":"@
        + intervals_json_text(o.hidden_columns@, false) + ",\"total_cells\":"@ + decimal(
        o.total_cells as nat,
    ) + ",\"visible_cells\":"@ + decimal(o.visible_cells as nat) + "}"@
}

/// The observation array of a range with hidden cells.
pub open spec fn observation_json_text(o: HiddenCellsObservation) -> Seq<char> {
    "[{\"code\":\"RANGE_CONTAINS_HIDDEN_CELLS\",\"certainty\":\"observed\",\"range\":"@ + obs_range_text(o)
        + ",\"visibility\":"@ + obs_visibility_text(o) + ",\"message\":"@ + json_quoted(
        hidden_cells_message(),
    ) + "}]"@
}

pub open spec fn hidden_cells_message() -> Seq<char> {
    "The range contains hidden rows or columns. Excel operations using visible cells only may produce a multi-area range."@
}

/// The `observations` array: `[]` when there is nothing to observe.
pub open spec fn observations_json_text(obs: Option<HiddenCellsObservation>) -> Seq<char> {
    match obs {
        Some(o) => observation_json_text(o),
        None => "[]"@,
    }
}

fn push_area_json(out: &mut Vec<char>, r: Rect)
    requires
        rect_wf(r),
    ensures
        final(out)@ == old(out)@ + area_json_text(r),
{
    let ghost before = out@;
    push_str_chars(out, "{\"address\":");
    let mut addr: Vec<char> = Vec::new();
    push_rect_text(&mut addr, ((r.start_row, r.start_col), (r.end_row, r.end_col)));
    proof {
        assert(addr@ =~= area_text(r));
    }
    push_quoted_chars(out, &addr);
    push_str_chars(out, ",\"rows\":");
    push_all(out, &fmt_u64(r.rows()));
    push_str_chars(out, ",\"columns\":");
    push_all(out, &fmt_u64(r.cols()));
    push_str_chars(out, "}");
    proof {
        assert(out@ =~= before + area_json_text(r));
    }
}

fn push_areas_json(out: &mut Vec<char>, rs: &Vec<Rect>)
    requires
        areas_wf(rs@),
    ensures
        final(out)@ == old(out)@ + areas_json_text(rs@),
{
    let ghost before = out@;
    let mut items: Vec<Vec<char>> = Vec::new();
    let mut i: usize = 0;
    while i < rs.len()
        invariant
            0 <= i <= rs@.len(),
            areas_wf(rs@),
            chars_view(items@) == rs@.subrange(0, i as int).map_values(|r: Rect| area_json_text(r)),
        decreases rs@.len() - i,
    {
        let mut item: Vec<char> = Vec::new();
        proof {
            assert(rect_wf(rs@[i as int]));
        }
        push_area_json(&mut item, rs[i]);
        let ghost prev = chars_view(items@);
        items.push(item);
        proof {
            assert(chars_view(items@) =~= prev.push(area_json_text(rs@[i as int])));
            assert(rs@.subrange(0, i + 1).map_values(|r: Rect| area_json_text(r)) =~= rs@.subrange(
                0,
                i as int,
            ).map_values(|r: Rect| area_json_text(r)).push(area_json_text(rs@[i as int])));
        }
        i = i + 1;
    }
    proof {
        assert(rs@.subrange(0, rs@.len() as int) =~= rs@);
    }
    push_str_chars(out, "[");
    push_joined(out, &items, ",");
    push_str_chars(out, "]");
    proof {
        assert(out@ =~= before + areas_json_text(rs@));
    }
}

fn interval_chars(iv: Interval, rows: bool) -> (r: Vec<char>)
    ensures
        r@ == interval_text(iv, rows),
{
    let mut v: Vec<char> = Vec::new();
    if rows {
        push_all(&mut v, &fmt_u64(iv.start as u64));
        v.push(':');
        push_all(&mut v, &fmt_u64(iv.end as u64));
    } else {
        push_all(&mut v, &col_to_letters(iv.start));
        v.push(':');
        push_all(&mut v, &col_to_letters(iv.end));
    }
    proof {
        assert(v@ =~= interval_text(iv, rows));
    }
    v
}

fn push_intervals_json(out: &mut Vec<char>, ivs: &Vec<Interval>, rows: bool)
    ensures
        final(out)@ == old(out)@ + intervals_json_text(ivs@, rows),
{
    let ghost before = out@;
    let mut items: Vec<Vec<char>> = Vec::new();
    let mut i: usize = 0;
    while i < ivs.len()
        invariant
            0 <= i <= ivs@.len(),
            chars_view(items@) == ivs@.subrange(0, i as int).map_values(
                |iv: Interval| json_quoted(interval_text(iv, rows)),
            ),
        decreases ivs@.len() - i,
    {
        let mut item: Vec<char> = Vec::new();
        push_quoted_chars(&mut item, &interval_chars(ivs[i], rows));
        let ghost prev = chars_view(items@);
        items.push(item);
        proof {
            assert(chars_view(items@) =~= prev.push(json_quoted(interval_text(ivs@[i as int], rows))));
            assert(ivs@.subrange(0, i + 1).map_values(|iv: Interval| json_quoted(interval_text(iv, rows)))
                =~= ivs@.subrange(0, i as int).map_values(
                |iv: Interval| json_quoted(interval_text(iv, rows)),
            ).push(json_quoted(interval_text(ivs@[i as int], rows))));
        }
        i = i + 1;
    }
    proof {
        assert(ivs@.subrange(0, ivs@.len() as int) =~= ivs@);
    }
    push_str_chars(out, "[");
    push_joined(out, &items, ",");
    push_str_chars(out, "]");
    proof {
        assert(out@ =~= before + intervals_json_text(ivs@, rows));
    }
}

fn push_obs_range(out: &mut Vec<char>, o: &HiddenCellsObservation)
    ensures
        final(out)@ == old(out)@ + obs_range_text(*o),
{
    let ghost before = out@;
    push_str_chars(out, "{\"sheet\":");
    push_quoted_chars(out, &string_chars(&o.sheet));
    push_str_chars(out, ",\"address\":");
    push_quoted_chars(out, &string_chars(&o.address));
    push_str_chars(out, ",\"rows\":");
    push_all(out, &fmt_u64(o.rows as u64));
    push_str_chars(out, ",\"columns\":");
    push_all(out, &fmt_u64(o.columns as u64));
    push_str_chars(out, "}");
    proof {
        assert(out@ =~= before + obs_range_text(*o));
    }
}

fn push_obs_visibility(out: &mut Vec<char>, o: &HiddenCellsObservation)
    ensures
        final(out)@ == old(out)@ + obs_visibility_text(*o),
{
    let ghost before = out@;
    push_str_chars(out, "{\"hidden_rows\":");
    push_intervals_json(out, &o.hidden_rows, true);
    push_str_chars(out, ",\"hidden_columns\":");
    push_intervals_json(out, &o.hidden_columns, false);
    push_str_chars(out, ",\"total_cells\":");
    push_all(out, &fmt_u64(o.total_cells));
    push_str_chars(out, ",\"visible_cells\":");
    push_all(out, &fmt_u64(o.visible_cells));
    push_str_chars(out, "}");
    proof {
        assert(out@ =~= before + obs_visibility_text(*o));
    }
}

fn push_observations_json(out: &mut Vec<char>, obs: Option<&HiddenCellsObservation>)
    ensures
        final(out)@ == old(out)@ + observations_json_text(opt_obs(obs)),
{
    let ghost before = out@;
    match obs {
        Some(o) => {
            push_str_chars(
                out,
                "[{\"code\":\"RANGE_CONTAINS_HIDDEN_CELLS\",\"certainty\":\"observed\",\"range\":",
            );
            push_obs_range(out, o);
            push_str_chars(out, ",\"visibility\":");
            push_obs_visibility(out, o);
            push_str_chars(out, ",\"message\":");
            let mut msg: Vec<char> = Vec::new();
            push_str_chars(
                &mut msg,
                "The range contains hidden rows or columns. Excel operations using visible cells only may produce a multi-area range.",
            );
            push_quoted_chars(out, &msg);
            push_str_chars(out, "}]");
            proof {
                assert(out@ =~= before + observation_json_text(*o));
            }
        },
        None => {
            push_str_chars(out, "[]");
        },
    }
}

pub open spec fn opt_obs(obs: Option<&HiddenCellsObservation>) -> Option<HiddenCellsObservation> {
    match obs {
        Some(o) => Some(*o),
        None => None,
    }
}

/// The `observations` array of a diagnosis: `[]` for none, else the one
/// `RANGE_CONTAINS_HIDDEN_CELLS` observation.
pub fn observations_json(obs: Option<&HiddenCellsObservation>) -> (r: String)
    ensures
        r@ == observations_json_text(opt_obs(obs)),
{
    let mut out: Vec<char> = Vec::new();
    push_observations_json(&mut out, obs);
    string_from_chars(&out)
}


// ── Root causes ──────────────────────────────────────────────────────────

/// The location of an optional source position, as values.
pub open spec fn loc_view(loc: Option<&SourceLocation>) -> Option<(Seq<char>, u32, u32)> {
    match loc {
        Some(l) => Some((l.file@, l.line, l.column)),
        None => None,
    }
}

fn push_location(out: &mut Vec<char>, loc: Option<&SourceLocation>)
    ensures
        final(out)@ == old(out)@ + location_json(loc_view(loc)),
{
    let ghost before = out@;
    match loc {
        Some(l) => {
            push_str_chars(out, "{\"file\":");
            push_quoted_chars(out, &string_chars(&l.file));
            push_str_chars(out, ",\"line\":");
            push_all(out, &fmt_u64(l.line as u64));
            push_str_chars(out, ",\"column\":");
            push_all(out, &fmt_u64(l.column as u64));
            push_str_chars(out, "}");
        },
        None => {
            push_str_chars(out, "null");
        },
    }
    proof {
        assert(out@ =~= before + location_json(loc_view(loc)));
    }
}

/// The stable code of a kind of failure.
pub open spec fn kind_code(k: ResolutionFailureKind) -> Seq<char> {
    match k {
        ResolutionFailureKind::WorksheetNotFound(_) => "WORKSHEET_NOT_FOUND"@,
        ResolutionFailureKind::WorkbookNotFound(_) => "WORKBOOK_NOT_FOUND"@,
        ResolutionFailureKind::ArrayIndexOutOfBounds { .. } => "ARRAY_INDEX_OUT_OF_BOUNDS"@,
        ResolutionFailureKind::PasteShapeMismatch { .. } => "PASTE_SHAPE_MISMATCH"@,
        ResolutionFailureKind::PasteWithoutCopy { .. } => "PASTE_WITHOUT_COPY"@,
        ResolutionFailureKind::SheetProtected { .. } => "SHEET_PROTECTED"@,
        ResolutionFailureKind::PasteIntoNonAnchorMergedCell { .. } => "PASTE_INTO_NON_ANCHOR_MERGED_CELL"@,
        ResolutionFailureKind::PastePartialMergedRange { .. } => "PASTE_PARTIAL_MERGED_RANGE"@,
        ResolutionFailureKind::PasteMergeLayoutMismatch { .. } => "PASTE_MERGE_LAYOUT_MISMATCH"@,
        ResolutionFailureKind::MultiAreaToSingleAreaPaste { .. } => "MULTI_AREA_TO_SINGLE_AREA_PASTE"@,
        ResolutionFailureKind::MultiAreaCountMismatch { .. } => "MULTI_AREA_COUNT_MISMATCH"@,
        ResolutionFailureKind::MultiAreaShapeMismatch { .. } => "MULTI_AREA_SHAPE_MISMATCH"@,
        ResolutionFailureKind::MultiAreaPasteUnsupported { .. } => "MULTI_AREA_PASTE_UNSUPPORTED"@,
    }
}

/// The dimensions a destination must take: the source's, swapped under
/// `Transpose:=True`.
pub open spec fn paste_dims(source_rows: u32, source_cols: u32, transpose: bool) -> (u32, u32) {
    if transpose {
        (source_cols, source_rows)
    } else {
        (source_rows, source_cols)
    }
}

/// The evidence of a failure renders: its areas are in order, and the
/// bottom-right cell of a resized paste destination is computable.
pub open spec fn kind_wf(k: ResolutionFailureKind) -> bool {
    match k {
        ResolutionFailureKind::PasteShapeMismatch { source_rows, source_cols, dest_row1, dest_col1, transpose, .. } => {
            let (rows, cols) = paste_dims(source_rows, source_cols, transpose);
            1 <= dest_col1 + cols <= u32::MAX && 1 <= dest_row1 + rows <= u32::MAX
        },
        ResolutionFailureKind::MultiAreaToSingleAreaPaste { source_areas, destination_areas } => areas_wf(
            source_areas@,
        ) && areas_wf(destination_areas@),
        ResolutionFailureKind::MultiAreaCountMismatch { source_areas, destination_areas } => areas_wf(
            source_areas@,
        ) && areas_wf(destination_areas@),
        ResolutionFailureKind::MultiAreaPasteUnsupported { source_areas, destination_areas } => areas_wf(
            source_areas@,
        ) && areas_wf(destination_areas@),
        ResolutionFailureKind::MultiAreaShapeMismatch { source_area, destination_area, .. } => rect_wf(
            source_area,
        ) && rect_wf(destination_area),
        _ => true,
    }
}

/// The merge rectangles as addresses joined by `, `.
pub open spec fn rects_list_text(cs: Seq<((u32, u32), (u32, u32))>) -> Seq<char> {
    join_seq(rect_texts(cs), ", "@)
}

pub open spec fn evidence_suggestions(e: ResolutionEvidence) -> Seq<Seq<char>> {
    match e.suggested {
        Some(s) => seq!["did you mean '"@ + s@ + "'?"@],
        None => if e.available@.len() > 0 {
            seq!["check the available names: "@ + join_seq(strings_view(e.available@), ", "@)]
        } else {
            Seq::empty()
        },
    }
}

/// Plain-English fix candidates, derived mechanically from the evidence.
pub open spec fn kind_suggestions(k: ResolutionFailureKind) -> Seq<Seq<char>> {
    match k {
        ResolutionFailureKind::WorksheetNotFound(e) => evidence_suggestions(e),
        ResolutionFailureKind::WorkbookNotFound(e) => evidence_suggestions(e),
        ResolutionFailureKind::ArrayIndexOutOfBounds { name, index, lower, upper } => seq![
            "check that '"@ + name@ + "' is large enough for index "@ + decimal_int(index as int)
                + " (valid range is "@ + decimal_int(lower as int) + " To "@ + decimal_int(upper as int)
                + ")"@,
        ],
        ResolutionFailureKind::PasteShapeMismatch { source_rows, source_cols, dest_row1, dest_col1, transpose, .. } => {
            let (rows, cols) = paste_dims(source_rows, source_cols, transpose);
            let anchor = col_letters(dest_col1 as nat) + decimal(dest_row1 as nat);
            let bottom_right = col_letters((dest_col1 + cols - 1) as nat) + decimal(
                (dest_row1 + rows - 1) as nat,
            );
            seq![
                "resize the destination to "@ + anchor + seq![':'] + bottom_right,
                "or specify only the top-left cell "@ + anchor,
            ]
        },
        ResolutionFailureKind::PasteWithoutCopy { .. } => seq![paste_without_copy_suggestion()],
        ResolutionFailureKind::SheetProtected { sheet } => seq![
            "unprotect the sheet first: Worksheets(\""@ + sheet@ + "\").Unprotect"@,
        ],
        ResolutionFailureKind::PasteIntoNonAnchorMergedCell { merged_range, .. } => seq![
            "unmerge "@ + rect_text(merged_range) + " before pasting"@,
            "or paste into its top-left cell "@ + rect_text((merged_range.0, merged_range.0)) + " instead"@,
        ],
        ResolutionFailureKind::PastePartialMergedRange { conflicts, .. } => seq![
            "unmerge "@ + rects_list_text(conflicts@)
                + " before pasting, or resize the destination to fully contain it"@,
        ],
        ResolutionFailureKind::PasteMergeLayoutMismatch { conflicts, .. } => seq![
            "unmerge "@ + rects_list_text(conflicts@) + " before pasting"@,
            "or make the source and destination merge layouts identical"@,
        ],
        ResolutionFailureKind::MultiAreaToSingleAreaPaste { .. } => seq![
            "paste each source area separately"@,
            "copy a contiguous rectangular range"@,
            "use destination areas with matching count and shapes"@,
        ],
        ResolutionFailureKind::MultiAreaCountMismatch { .. } => seq![
            "match the destination area count to the source area count"@,
            "paste each source area separately"@,
        ],
        ResolutionFailureKind::MultiAreaShapeMismatch { area_index, .. } => seq![
            "resize destination area "@ + decimal(area_index as nat) + " to match the source area's shape"@,
            "paste each source area separately"@,
        ],
        ResolutionFailureKind::MultiAreaPasteUnsupported { .. } => seq!["paste each source area separately"@],
    }
}

pub open spec fn paste_without_copy_suggestion() -> Seq<char> {
    "add a Range(...).Copy before this Paste, or check whether Application.CutCopyMode was cleared first"@
}

/// A classified failure: its code, how certain the classification is, and
/// the evidence.
#[derive(Debug)]
pub struct RootCause {
    pub code: &'static str,
    pub certainty: &'static str,
    pub kind: ResolutionFailureKind,
}

fn text(s: &str) -> (r: String)
    ensures
        r@ == s@,
{
    let mut v: Vec<char> = Vec::new();
    push_str_chars(&mut v, s);
    string_from_chars(&v)
}

pub open spec fn rect_texts(cs: Seq<((u32, u32), (u32, u32))>) -> Seq<Seq<char>> {
    cs.map_values(|r: ((u32, u32), (u32, u32))| rect_text(r))
}

pub open spec fn quoted_rect_texts(cs: Seq<((u32, u32), (u32, u32))>) -> Seq<Seq<char>> {
    cs.map_values(|r: ((u32, u32), (u32, u32))| json_quoted(rect_text(r)))
}

/// A JSON array of quoted merge-rectangle addresses.
pub open spec fn conflicts_json_text(cs: Seq<((u32, u32), (u32, u32))>) -> Seq<char> {
    "["@ + join_seq(quoted_rect_texts(cs), ","@) + "]"@
}

fn rect_items(cs: &Vec<((u32, u32), (u32, u32))>, quoted: bool) -> (r: Vec<Vec<char>>)
    ensures
        quoted ==> chars_view(r@) == quoted_rect_texts(cs@),
        !quoted ==> chars_view(r@) == rect_texts(cs@),
{
    let mut items: Vec<Vec<char>> = Vec::new();
    let mut i: usize = 0;
    while i < cs.len()
        invariant
            0 <= i <= cs@.len(),
            quoted ==> chars_view(items@) == quoted_rect_texts(cs@.subrange(0, i as int)),
            !quoted ==> chars_view(items@) == rect_texts(cs@.subrange(0, i as int)),
        decreases cs@.len() - i,
    {
        let ghost prev = chars_view(items@);
        let mut a: Vec<char> = Vec::new();
        push_rect_text(&mut a, cs[i]);
        if quoted {
            let mut item: Vec<char> = Vec::new();
            push_quoted_chars(&mut item, &a);
            items.push(item);
            proof {
                assert(chars_view(items@) =~= prev.push(json_quoted(rect_text(cs@[i as int]))));
                assert(quoted_rect_texts(cs@.subrange(0, i + 1)) =~= quoted_rect_texts(
                    cs@.subrange(0, i as int),
                ).push(json_quoted(rect_text(cs@[i as int]))));
            }
        } else {
            items.push(a);
            proof {
                assert(chars_view(items@) =~= prev.push(rect_text(cs@[i as int])));
                assert(rect_texts(cs@.subrange(0, i + 1)) =~= rect_texts(cs@.subrange(0, i as int)).push(
                    rect_text(cs@[i as int]),
                ));
            }
        }
        i = i + 1;
    }
    proof {
        assert(cs@.subrange(0, cs@.len() as int) =~= cs@);
    }
    items
}

fn push_rects_list(out: &mut Vec<char>, cs: &Vec<((u32, u32), (u32, u32))>)
    ensures
        final(out)@ == old(out)@ + rects_list_text(cs@),
{
    let items = rect_items(cs, false);
    push_joined(out, &items, ", ");
}

fn push_conflicts_json(out: &mut Vec<char>, cs: &Vec<((u32, u32), (u32, u32))>)
    ensures
        final(out)@ == old(out)@ + conflicts_json_text(cs@),
{
    let ghost before = out@;
    let items = rect_items(cs, true);
    push_str_chars(out, "[");
    push_joined(out, &items, ",");
    push_str_chars(out, "]");
    proof {
        assert(out@ =~= before + conflicts_json_text(cs@));
    }
}

fn strings_to_chars(v: &Vec<String>) -> (r: Vec<Vec<char>>)
    ensures
        chars_view(r@) == strings_view(v@),
{
    let mut out: Vec<Vec<char>> = Vec::new();
    let mut i: usize = 0;
    while i < v.len()
        invariant
            0 <= i <= v@.len(),
            chars_view(out@) == strings_view(v@.subrange(0, i as int)),
        decreases v@.len() - i,
    {
        let ghost prev = chars_view(out@);
        out.push(string_chars(&v[i]));
        proof {
            assert(chars_view(out@) =~= prev.push(v@[i as int]@));
            assert(strings_view(v@.subrange(0, i + 1)) =~= strings_view(v@.subrange(0, i as int)).push(
                v@[i as int]@,
            ));
        }
        i = i + 1;
    }
    proof {
        assert(v@.subrange(0, v@.len() as int) =~= v@);
    }
    out
}

fn evidence_suggestion_list(e: &ResolutionEvidence) -> (r: Vec<String>)
    ensures
        strings_view(r@) == evidence_suggestions(*e),
{
    let mut out: Vec<String> = Vec::new();
    match &e.suggested {
        Some(s) => {
            let mut v: Vec<char> = Vec::new();
            push_str_chars(&mut v, "did you mean '");
            push_all(&mut v, &string_chars(s));
            push_str_chars(&mut v, "'?");
            out.push(string_from_chars(&v));
            proof {
                assert(strings_view(out@) =~= evidence_suggestions(*e));
            }
        },
        None => {
            if e.available.len() > 0 {
                let mut v: Vec<char> = Vec::new();
                push_str_chars(&mut v, "check the available names: ");
                push_joined(&mut v, &strings_to_chars(&e.available), ", ");
                out.push(string_from_chars(&v));
                proof {
                    assert(strings_view(out@) =~= evidence_suggestions(*e));
                }
            } else {
                proof {
                    assert(strings_view(out@) =~= evidence_suggestions(*e));
                }
            }
        },
    }
    out
}

fn one(a: Vec<char>) -> (r: Vec<String>)
    ensures
        strings_view(r@) == seq![a@],
{
    let mut out: Vec<String> = Vec::new();
    out.push(string_from_chars(&a));
    proof {
        assert(strings_view(out@) =~= seq![a@]);
    }
    out
}

fn two(a: Vec<char>, b: Vec<char>) -> (r: Vec<String>)
    ensures
        strings_view(r@) == seq![a@, b@],
{
    let mut out: Vec<String> = Vec::new();
    out.push(string_from_chars(&a));
    out.push(string_from_chars(&b));
    proof {
        assert(strings_view(out@) =~= seq![a@, b@]);
    }
    out
}

fn lit(s: &str) -> (r: Vec<char>)
    ensures
        r@ == s@,
{
    let mut v: Vec<char> = Vec::new();
    push_str_chars(&mut v, s);
    v
}

fn paste_shape_suggestions(source_rows: u32, source_cols: u32, dest_row1: u32, dest_col1: u32, transpose: bool) -> (r: Vec<String>)
    requires
        1 <= dest_col1 + paste_dims(source_rows, source_cols, transpose).1 <= u32::MAX,
        1 <= dest_row1 + paste_dims(source_rows, source_cols, transpose).0 <= u32::MAX,
    ensures
        ({
            let (rows, cols) = paste_dims(source_rows, source_cols, transpose);
            let anchor = col_letters(dest_col1 as nat) + decimal(dest_row1 as nat);
            let bottom_right = col_letters((dest_col1 + cols - 1) as nat) + decimal(
                (dest_row1 + rows - 1) as nat,
            );
            strings_view(r@) == seq![
                "resize the destination to "@ + anchor + seq![':'] + bottom_right,
                "or specify only the top-left cell "@ + anchor,
            ]
        }),
{
    let (rows, cols) = if transpose {
        (source_cols, source_rows)
    } else {
        (source_rows, source_cols)
    };
    let mut anchor = col_to_letters(dest_col1);
    push_all(&mut anchor, &fmt_u64(dest_row1 as u64));
    let mut a: Vec<char> = lit("resize the destination to ");
    push_all(&mut a, &anchor);
    a.push(':');
    push_all(&mut a, &col_to_letters(dest_col1 + cols - 1));
    push_all(&mut a, &fmt_u64((dest_row1 + rows - 1) as u64));
    let mut b: Vec<char> = lit("or specify only the top-left cell ");
    push_all(&mut b, &anchor);
    proof {
        let anchor_s = col_letters(dest_col1 as nat) + decimal(dest_row1 as nat);
        assert(anchor@ =~= anchor_s);
        assert(a@ =~= "resize the destination to "@ + anchor_s + seq![':'] + (col_letters(
            (dest_col1 + cols - 1) as nat,
        ) + decimal((dest_row1 + rows - 1) as nat)));
        assert(b@ =~= "or specify only the top-left cell "@ + anchor_s);
    }
    two(a, b)
}

/// The stable code of a kind of failure.
pub fn root_cause_code(kind: &ResolutionFailureKind) -> (r: &'static str)
    ensures
        r@ == kind_code(*kind),
{
        match kind {
            ResolutionFailureKind::WorksheetNotFound(_) => "WORKSHEET_NOT_FOUND",
            ResolutionFailureKind::WorkbookNotFound(_) => "WORKBOOK_NOT_FOUND",
            ResolutionFailureKind::ArrayIndexOutOfBounds { .. } => "ARRAY_INDEX_OUT_OF_BOUNDS",
            ResolutionFailureKind::PasteShapeMismatch { .. } => "PASTE_SHAPE_MISMATCH",
            ResolutionFailureKind::PasteWithoutCopy { .. } => "PASTE_WITHOUT_COPY",
            ResolutionFailureKind::SheetProtected { .. } => "SHEET_PROTECTED",
            ResolutionFailureKind::PasteIntoNonAnchorMergedCell { .. } => "PASTE_INTO_NON_ANCHOR_MERGED_CELL",
            ResolutionFailureKind::PastePartialMergedRange { .. } => "PASTE_PARTIAL_MERGED_RANGE",
            ResolutionFailureKind::PasteMergeLayoutMismatch { .. } => "PASTE_MERGE_LAYOUT_MISMATCH",
            ResolutionFailureKind::MultiAreaToSingleAreaPaste { .. } => "MULTI_AREA_TO_SINGLE_AREA_PASTE",
            ResolutionFailureKind::MultiAreaCountMismatch { .. } => "MULTI_AREA_COUNT_MISMATCH",
            ResolutionFailureKind::MultiAreaShapeMismatch { .. } => "MULTI_AREA_SHAPE_MISMATCH",
            ResolutionFailureKind::MultiAreaPasteUnsupported { .. } => "MULTI_AREA_PASTE_UNSUPPORTED",
        }
}

fn kind_suggestion_list(kind: &ResolutionFailureKind) -> (r: Vec<String>)
    requires
        kind_wf(*kind),
    ensures
        strings_view(r@) == kind_suggestions(*kind),
{
        match kind {
            ResolutionFailureKind::WorksheetNotFound(e) => evidence_suggestion_list(e),
            ResolutionFailureKind::WorkbookNotFound(e) => evidence_suggestion_list(e),
            ResolutionFailureKind::ArrayIndexOutOfBounds { name, index, lower, upper } => {
                let mut v = lit("check that '");
                push_all(&mut v, &string_chars(name));
                push_str_chars(&mut v, "' is large enough for index ");
                push_all(&mut v, &fmt_i64(*index));
                push_str_chars(&mut v, " (valid range is ");
                push_all(&mut v, &fmt_i64(*lower));
                push_str_chars(&mut v, " To ");
                push_all(&mut v, &fmt_i64(*upper));
                push_str_chars(&mut v, ")");
                proof {
                    assert(v@ =~= "check that '"@ + name@ + "' is large enough for index "@ + decimal_int(
                        *index as int,
                    ) + " (valid range is "@ + decimal_int(*lower as int) + " To "@ + decimal_int(
                        *upper as int,
                    ) + ")"@);
                }
                one(v)
            },
            ResolutionFailureKind::PasteShapeMismatch { source_rows, source_cols, dest_row1, dest_col1, transpose, .. } => {
                paste_shape_suggestions(*source_rows, *source_cols, *dest_row1, *dest_col1, *transpose)
            },
            ResolutionFailureKind::PasteWithoutCopy { .. } => one(
                lit(
                    "add a Range(...).Copy before this Paste, or check whether Application.CutCopyMode was cleared first",
                ),
            ),
            ResolutionFailureKind::SheetProtected { sheet } => {
                let mut v = lit("unprotect the sheet first: Worksheets(\"");
                push_all(&mut v, &string_chars(sheet));
                push_str_chars(&mut v, "\").Unprotect");
                proof {
                    assert(v@ =~= "unprotect the sheet first: Worksheets(\""@ + sheet@ + "\").Unprotect"@);
                }
                one(v)
            },
            ResolutionFailureKind::PasteIntoNonAnchorMergedCell { merged_range, .. } => {
                let mut a = lit("unmerge ");
                push_rect_text(&mut a, *merged_range);
                push_str_chars(&mut a, " before pasting");
                let mut b = lit("or paste into its top-left cell ");
                push_rect_text(&mut b, (merged_range.0, merged_range.0));
                push_str_chars(&mut b, " instead");
                proof {
                    assert(a@ =~= "unmerge "@ + rect_text(*merged_range) + " before pasting"@);
                    assert(b@ =~= "or paste into its top-left cell "@ + rect_text((merged_range.0, merged_range.0))
                        + " instead"@);
                }
                two(a, b)
            },
            ResolutionFailureKind::PastePartialMergedRange { conflicts, .. } => {
                let mut v = lit("unmerge ");
                push_rects_list(&mut v, conflicts);
                push_str_chars(&mut v, " before pasting, or resize the destination to fully contain it");
                proof {
                    assert(v@ =~= "unmerge "@ + rects_list_text(conflicts@)
                        + " before pasting, or resize the destination to fully contain it"@);
                }
                one(v)
            },
            ResolutionFailureKind::PasteMergeLayoutMismatch { conflicts, .. } => {
                let mut a = lit("unmerge ");
                push_rects_list(&mut a, conflicts);
                push_str_chars(&mut a, " before pasting");
                proof {
                    assert(a@ =~= "unmerge "@ + rects_list_text(conflicts@) + " before pasting"@);
                }
                two(a, lit("or make the source and destination merge layouts identical"))
            },
            ResolutionFailureKind::MultiAreaToSingleAreaPaste { .. } => {
                let mut out = two(lit("paste each source area separately"), lit("copy a contiguous rectangular range"));
                let ghost prev = strings_view(out@);
                out.push(text("use destination areas with matching count and shapes"));
                proof {
                    assert(strings_view(out@) =~= prev.push("use destination areas with matching count and shapes"@));
                    assert(strings_view(out@) =~= kind_suggestions(*kind));
                }
                out
            },
            ResolutionFailureKind::MultiAreaCountMismatch { .. } => two(
                lit("match the destination area count to the source area count"),
                lit("paste each source area separately"),
            ),
            ResolutionFailureKind::MultiAreaShapeMismatch { area_index, .. } => {
                let mut a = lit("resize destination area ");
                push_all(&mut a, &fmt_u64(*area_index as u64));
                push_str_chars(&mut a, " to match the source area's shape");
                proof {
                    assert(a@ =~= "resize destination area "@ + decimal(*area_index as nat)
                        + " to match the source area's shape"@);
                }
                two(a, lit("paste each source area separately"))
            },
            ResolutionFailureKind::MultiAreaPasteUnsupported { .. } => one(lit("paste each source area separately")),
        }
}

impl RootCause {
    /// The root cause of `kind`: its code, classified as definite.
    pub fn from_kind(kind: ResolutionFailureKind) -> (r: RootCause)
        ensures
            r.code@ == kind_code(kind),
            r.certainty@ == "definite"@,
            r.kind == kind,
    {
        let code = root_cause_code(&kind);
        RootCause { code, certainty: "definite", kind }
    }

    /// Plain-English fix candidates for this root cause.
    pub fn suggestions(&self) -> (r: Vec<String>)
        requires
            kind_wf(self.kind),
        ensures
            strings_view(r@) == kind_suggestions(self.kind),
    {
        kind_suggestion_list(&self.kind)
    }
}

// ── JSON ─────────────────────────────────────────────────────────────────

pub open spec fn bool_text(b: bool) -> Seq<char> {
    if b {
        "true"@
    } else {
        "false"@
    }
}

/// The flat evidence fields of a failed sheet or workbook lookup.
pub open spec fn evidence_json_text(e: ResolutionEvidence) -> Seq<char> {
    "\"expression\":"@ + json_quoted(e.expression@) + ",\"requested\":"@ + json_quoted(e.requested@)
        + ",\"available\":"@ + string_array_json(strings_view(e.available@)) + ",\"suggested\":"@
        + match e.suggested {
        Some(x) => json_quoted(x@),
        None => "null"@,
    }
}

/// The evidence fields of a root cause; `loc` is where the copied range was
/// copied, shown by the paste kinds.
pub open spec fn kind_fields_text(k: ResolutionFailureKind, loc: Option<(Seq<char>, u32, u32)>) -> Seq<char> {
    match k {
        ResolutionFailureKind::WorksheetNotFound(e) => evidence_json_text(e),
        ResolutionFailureKind::WorkbookNotFound(e) => evidence_json_text(e),
        ResolutionFailureKind::ArrayIndexOutOfBounds { name, index, lower, upper } => "\"name\":"@ + json_quoted(
            name@,
        ) + ",\"index\":"@ + decimal_int(index as int) + ",\"lower\":"@ + decimal_int(lower as int)
            + ",\"upper\":"@ + decimal_int(upper as int),
        ResolutionFailureKind::PasteShapeMismatch {
            source_addr,
            source_rows,
            source_cols,
            dest_addr,
            dest_rows,
            dest_cols,
            transpose,
            ..
        } => "\"source_addr\":"@ + json_quoted(source_addr@) + ",\"source_rows\":"@ + decimal(
            source_rows as nat,
        ) + ",\"source_cols\":"@ + decimal(source_cols as nat) + ",\"dest_addr\":"@ + json_quoted(
            dest_addr@,
        ) + ",\"dest_rows\":"@ + decimal(dest_rows as nat) + ",\"dest_cols\":"@ + decimal(
            dest_cols as nat,
        ) + ",\"transpose\":"@ + bool_text(transpose) + ",\"copy_location\":"@ + location_json(loc),
        ResolutionFailureKind::PasteWithoutCopy { dest_addr } => "\"dest_addr\":"@ + json_quoted(dest_addr@),
        ResolutionFailureKind::SheetProtected { sheet } => "\"sheet\":"@ + json_quoted(sheet@),
        ResolutionFailureKind::PasteIntoNonAnchorMergedCell { dest_addr, dest_sheet, merged_range, .. } =>
            "\"dest_addr\":"@ + json_quoted(dest_addr@) + ",\"dest_sheet\":"@ + json_quoted(dest_sheet@)
            + ",\"merged_range\":"@ + json_quoted(rect_text(merged_range)) + ",\"copy_location\":"@
            + location_json(loc),
        ResolutionFailureKind::PastePartialMergedRange { dest_addr, dest_sheet, conflicts, .. } =>
            "\"dest_addr\":"@ + json_quoted(dest_addr@) + ",\"dest_sheet\":"@ + json_quoted(dest_sheet@)
            + ",\"conflicts\":"@ + conflicts_json_text(conflicts@) + ",\"copy_location\":"@ + location_json(
            loc,
        ),
        ResolutionFailureKind::PasteMergeLayoutMismatch {
            source_addr,
            source_sheet,
            dest_addr,
            dest_sheet,
            conflicts,
            ..
        } => "\"source_addr\":"@ + json_quoted(source_addr@) + ",\"source_sheet\":"@ + json_quoted(
            source_sheet@,
        ) + ",\"dest_addr\":"@ + json_quoted(dest_addr@) + ",\"dest_sheet\":"@ + json_quoted(dest_sheet@)
            + ",\"conflicts\":"@ + conflicts_json_text(conflicts@) + ",\"copy_location\":"@ + location_json(
            loc,
        ),
        ResolutionFailureKind::MultiAreaToSingleAreaPaste { source_areas, destination_areas } => areas_pair_text(
            source_areas@,
            destination_areas@,
        ),
        ResolutionFailureKind::MultiAreaCountMismatch { source_areas, destination_areas } => areas_pair_text(
            source_areas@,
            destination_areas@,
        ),
        ResolutionFailureKind::MultiAreaPasteUnsupported { source_areas, destination_areas } => areas_pair_text(
            source_areas@,
            destination_areas@,
        ),
        ResolutionFailureKind::MultiAreaShapeMismatch { area_index, source_area, destination_area } =>
            "\"area_index\":"@ + decimal(area_index as nat) + ",\"source_area\":"@ + area_json_text(
            source_area,
        ) + ",\"destination_area\":"@ + area_json_text(destination_area),
    }
}

pub open spec fn areas_pair_text(source: Seq<Rect>, destination: Seq<Rect>) -> Seq<char> {
    "\"source_areas\":"@ + areas_json_text(source) + ",\"destination_areas\":"@ + areas_json_text(destination)
}

/// The JSON object of one root cause.
pub open spec fn cause_json_text(
    code: Seq<char>,
    certainty: Seq<char>,
    k: ResolutionFailureKind,
    loc: Option<(Seq<char>, u32, u32)>,
) -> Seq<char> {
    "{\"code\":\""@ + code + "\",\"certainty\":\""@ + certainty + "\","@ + kind_fields_text(k, loc)
        + ",\"suggestions\":"@ + string_array_json(kind_suggestions(k)) + "}"@
}

fn push_evidence_json(out: &mut Vec<char>, e: &ResolutionEvidence)
    ensures
        final(out)@ == old(out)@ + evidence_json_text(*e),
{
    let ghost before = out@;
    push_str_chars(out, "\"expression\":");
    push_quoted_chars(out, &string_chars(&e.expression));
    push_str_chars(out, ",\"requested\":");
    push_quoted_chars(out, &string_chars(&e.requested));
    push_str_chars(out, ",\"available\":");
    push_messages_json(out, e.available.as_slice());
    push_str_chars(out, ",\"suggested\":");
    match &e.suggested {
        Some(x) => push_quoted_chars(out, &string_chars(x)),
        None => push_str_chars(out, "null"),
    }
    proof {
        assert(out@ =~= before + evidence_json_text(*e));
    }
}

fn push_key_quoted(out: &mut Vec<char>, key: &str, value: &String)
    ensures
        final(out)@ == old(out)@ + key@ + json_quoted(value@),
{
    let ghost before = out@;
    push_str_chars(out, key);
    push_quoted_chars(out, &string_chars(value));
    proof {
        assert(out@ =~= before + key@ + json_quoted(value@));
    }
}

fn push_key_number(out: &mut Vec<char>, key: &str, value: u64)
    ensures
        final(out)@ == old(out)@ + key@ + decimal(value as nat),
{
    let ghost before = out@;
    push_str_chars(out, key);
    push_all(out, &fmt_u64(value));
    proof {
        assert(out@ =~= before + key@ + decimal(value as nat));
    }
}

fn push_key_int(out: &mut Vec<char>, key: &str, value: i64)
    ensures
        final(out)@ == old(out)@ + key@ + decimal_int(value as int),
{
    let ghost before = out@;
    push_str_chars(out, key);
    push_all(out, &fmt_i64(value));
    proof {
        assert(out@ =~= before + key@ + decimal_int(value as int));
    }
}

fn push_key_location(out: &mut Vec<char>, key: &str, loc: Option<&SourceLocation>)
    ensures
        final(out)@ == old(out)@ + key@ + location_json(loc_view(loc)),
{
    let ghost before = out@;
    push_str_chars(out, key);
    push_location(out, loc);
    proof {
        assert(out@ =~= before + key@ + location_json(loc_view(loc)));
    }
}

#[verifier::spinoff_prover]
fn push_paste_shape_fields(out: &mut Vec<char>, k: &ResolutionFailureKind, loc: Option<&SourceLocation>)
    requires
        k is PasteShapeMismatch,
    ensures
        final(out)@ == old(out)@ + kind_fields_text(*k, loc_view(loc)),
{
    let ghost before = out@;
    match k {
        ResolutionFailureKind::PasteShapeMismatch {
            source_addr,
            source_rows,
            source_cols,
            dest_addr,
            dest_rows,
            dest_cols,
            transpose,
            ..
        } => {
            push_key_quoted(out, "\"source_addr\":", source_addr);
            push_key_number(out, ",\"source_rows\":", *source_rows as u64);
            push_key_number(out, ",\"source_cols\":", *source_cols as u64);
            push_key_quoted(out, ",\"dest_addr\":", dest_addr);
            push_key_number(out, ",\"dest_rows\":", *dest_rows as u64);
            push_key_number(out, ",\"dest_cols\":", *dest_cols as u64);
            push_str_chars(out, ",\"transpose\":");
            if *transpose {
                push_str_chars(out, "true");
            } else {
                push_str_chars(out, "false");
            }
            push_key_location(out, ",\"copy_location\":", loc);
            proof {
                assert(out@ =~= before + kind_fields_text(*k, loc_view(loc)));
            }
        },
        _ => {},
    }
}

fn push_anchor_fields(out: &mut Vec<char>, k: &ResolutionFailureKind, loc: Option<&SourceLocation>)
    requires
        k is PasteIntoNonAnchorMergedCell,
    ensures
        final(out)@ == old(out)@ + kind_fields_text(*k, loc_view(loc)),
{
    let ghost before = out@;
    match k {
        ResolutionFailureKind::PasteIntoNonAnchorMergedCell { dest_addr, dest_sheet, merged_range, .. } => {
            push_key_quoted(out, "\"dest_addr\":", dest_addr);
            push_key_quoted(out, ",\"dest_sheet\":", dest_sheet);
            push_str_chars(out, ",\"merged_range\":");
            let mut a: Vec<char> = Vec::new();
            push_rect_text(&mut a, *merged_range);
            push_quoted_chars(out, &a);
            push_key_location(out, ",\"copy_location\":", loc);
            proof {
                assert(a@ =~= rect_text(*merged_range));
                assert(out@ =~= before + kind_fields_text(*k, loc_view(loc)));
            }
        },
        _ => {},
    }
}

fn push_partial_fields(out: &mut Vec<char>, k: &ResolutionFailureKind, loc: Option<&SourceLocation>)
    requires
        k is PastePartialMergedRange,
    ensures
        final(out)@ == old(out)@ + kind_fields_text(*k, loc_view(loc)),
{
    let ghost before = out@;
    match k {
        ResolutionFailureKind::PastePartialMergedRange { dest_addr, dest_sheet, conflicts, .. } => {
            push_key_quoted(out, "\"dest_addr\":", dest_addr);
            push_key_quoted(out, ",\"dest_sheet\":", dest_sheet);
            push_str_chars(out, ",\"conflicts\":");
            push_conflicts_json(out, conflicts);
            push_key_location(out, ",\"copy_location\":", loc);
            proof {
                assert(out@ =~= before + kind_fields_text(*k, loc_view(loc)));
            }
        },
        _ => {},
    }
}

fn push_layout_fields(out: &mut Vec<char>, k: &ResolutionFailureKind, loc: Option<&SourceLocation>)
    requires
        k is PasteMergeLayoutMismatch,
    ensures
        final(out)@ == old(out)@ + kind_fields_text(*k, loc_view(loc)),
{
    let ghost before = out@;
    match k {
        ResolutionFailureKind::PasteMergeLayoutMismatch {
            source_addr,
            source_sheet,
            dest_addr,
            dest_sheet,
            conflicts,
            ..
        } => {
            push_key_quoted(out, "\"source_addr\":", source_addr);
            push_key_quoted(out, ",\"source_sheet\":", source_sheet);
            push_key_quoted(out, ",\"dest_addr\":", dest_addr);
            push_key_quoted(out, ",\"dest_sheet\":", dest_sheet);
            push_str_chars(out, ",\"conflicts\":");
            push_conflicts_json(out, conflicts);
            push_key_location(out, ",\"copy_location\":", loc);
            proof {
                assert(out@ =~= before + kind_fields_text(*k, loc_view(loc)));
            }
        },
        _ => {},
    }
}

fn push_areas_pair(out: &mut Vec<char>, source: &Vec<Rect>, destination: &Vec<Rect>)
    requires
        areas_wf(source@),
        areas_wf(destination@),
    ensures
        final(out)@ == old(out)@ + areas_pair_text(source@, destination@),
{
    let ghost before = out@;
    push_str_chars(out, "\"source_areas\":");
    push_areas_json(out, source);
    push_str_chars(out, ",\"destination_areas\":");
    push_areas_json(out, destination);
    proof {
        assert(out@ =~= before + areas_pair_text(source@, destination@));
    }
}

fn push_kind_fields(out: &mut Vec<char>, k: &ResolutionFailureKind, loc: Option<&SourceLocation>)
    requires
        kind_wf(*k),
    ensures
        final(out)@ == old(out)@ + kind_fields_text(*k, loc_view(loc)),
{
    let ghost before = out@;
    match k {
        ResolutionFailureKind::WorksheetNotFound(e) => push_evidence_json(out, e),
        ResolutionFailureKind::WorkbookNotFound(e) => push_evidence_json(out, e),
        ResolutionFailureKind::ArrayIndexOutOfBounds { name, index, lower, upper } => {
            push_key_quoted(out, "\"name\":", name);
            push_key_int(out, ",\"index\":", *index);
            push_key_int(out, ",\"lower\":", *lower);
            push_key_int(out, ",\"upper\":", *upper);
            proof {
                assert(out@ =~= before + kind_fields_text(*k, loc_view(loc)));
            }
        },
        ResolutionFailureKind::PasteShapeMismatch { .. } => push_paste_shape_fields(out, k, loc),
        ResolutionFailureKind::PasteWithoutCopy { dest_addr } => push_key_quoted(out, "\"dest_addr\":", dest_addr),
        ResolutionFailureKind::SheetProtected { sheet } => push_key_quoted(out, "\"sheet\":", sheet),
        ResolutionFailureKind::PasteIntoNonAnchorMergedCell { .. } => push_anchor_fields(out, k, loc),
        ResolutionFailureKind::PastePartialMergedRange { .. } => push_partial_fields(out, k, loc),
        ResolutionFailureKind::PasteMergeLayoutMismatch { .. } => push_layout_fields(out, k, loc),
        ResolutionFailureKind::MultiAreaToSingleAreaPaste { source_areas, destination_areas } => push_areas_pair(
            out,
            source_areas,
            destination_areas,
        ),
        ResolutionFailureKind::MultiAreaCountMismatch { source_areas, destination_areas } => push_areas_pair(
            out,
            source_areas,
            destination_areas,
        ),
        ResolutionFailureKind::MultiAreaPasteUnsupported { source_areas, destination_areas } => push_areas_pair(
            out,
            source_areas,
            destination_areas,
        ),
        ResolutionFailureKind::MultiAreaShapeMismatch { area_index, source_area, destination_area } => {
            push_key_number(out, "\"area_index\":", *area_index as u64);
            push_str_chars(out, ",\"source_area\":");
            push_area_json(out, *source_area);
            push_str_chars(out, ",\"destination_area\":");
            push_area_json(out, *destination_area);
            proof {
                assert(out@ =~= before + kind_fields_text(*k, loc_view(loc)));
            }
        },
    }
}

fn push_cause_json(out: &mut Vec<char>, code: &str, certainty: &str, k: &ResolutionFailureKind, loc: Option<&SourceLocation>)
    requires
        kind_wf(*k),
    ensures
        final(out)@ == old(out)@ + cause_json_text(code@, certainty@, *k, loc_view(loc)),
{
    let ghost before = out@;
    push_str_chars(out, "{\"code\":\"");
    push_str_chars(out, code);
    push_str_chars(out, "\",\"certainty\":\"");
    push_str_chars(out, certainty);
    push_str_chars(out, "\",");
    push_kind_fields(out, k, loc);
    push_str_chars(out, ",\"suggestions\":");
    let suggestions = kind_suggestion_list(k);
    push_messages_json(out, suggestions.as_slice());
    push_str_chars(out, "}");
    proof {
        assert(out@ =~= before + cause_json_text(code@, certainty@, *k, loc_view(loc)));
    }
}

/// The JSON object of a root cause: code, certainty, the evidence fields of
/// its kind (with `copy_location` for the paste kinds) and its suggestions.
pub fn root_cause_json(rc: &RootCause, copy_location: Option<&SourceLocation>) -> (r: String)
    requires
        kind_wf(rc.kind),
    ensures
        r@ == cause_json_text(rc.code@, rc.certainty@, rc.kind, loc_view(copy_location)),
{
    let mut out: Vec<char> = Vec::new();
    push_cause_json(&mut out, rc.code, rc.certainty, &rc.kind, copy_location);
    string_from_chars(&out)
}

pub open spec fn opt_kind(kind: Option<&ResolutionFailureKind>) -> Option<ResolutionFailureKind> {
    match kind {
        Some(k) => Some(*k),
        None => None,
    }
}

/// The `root_causes` array: `[]` for none, else the one definite root
/// cause of `kind`, without a copy location.
pub open spec fn root_causes_text(kind: Option<ResolutionFailureKind>) -> Seq<char> {
    match kind {
        Some(k) => "["@ + cause_json_text(kind_code(k), "definite"@, k, None) + "]"@,
        None => "[]"@,
    }
}

/// The `root_causes` array for an optional failure kind, with the same
/// fields `to_json` gives it.
pub fn root_causes_json(kind: Option<&ResolutionFailureKind>) -> (r: String)
    requires
        kind matches Some(k) ==> kind_wf(*k),
    ensures
        r@ == root_causes_text(opt_kind(kind)),
{
    let mut out: Vec<char> = Vec::new();
    match kind {
        Some(k) => {
            push_str_chars(&mut out, "[");
            push_cause_json(&mut out, root_cause_code(k), "definite", k, None);
            push_str_chars(&mut out, "]");
            proof {
                assert(loc_view(None) == None::<(Seq<char>, u32, u32)>);
                assert(out@ =~= root_causes_text(opt_kind(kind)));
            }
        },
        None => push_str_chars(&mut out, "[]"),
    }
    string_from_chars(&out)
}

// ── Diagnosis ────────────────────────────────────────────────────────────

/// The outcome of running one macro under strict-resolution diagnosis.
#[derive(Debug)]
pub struct Diagnosis {
    pub ok: bool,
    pub message: Option<String>,
    pub span: Option<SourceSpan>,
    pub copy_span: Option<SourceSpan>,
    pub root_cause: Option<RootCause>,
    pub hidden_cells: Option<HiddenCellsObservation>,
    pub messages: Vec<String>,
}

/// The root cause of a diagnosis, if any, renders.
pub open spec fn diagnosis_wf(d: Diagnosis) -> bool {
    d.root_cause matches Some(rc) ==> kind_wf(rc.kind)
}

/// `,"observations":[...]` when there is something to observe, else nothing.
pub open spec fn observations_field_text(obs: Option<HiddenCellsObservation>) -> Seq<char> {
    match obs {
        Some(o) => ",\"observations\":"@ + observation_json_text(o),
        None => Seq::empty(),
    }
}

/// The diagnosis as JSON: on success the messages; on failure also the
/// message, its location and the root causes; in both the observations
/// when there are any.
pub open spec fn diagnosis_json_text(
    d: Diagnosis,
    loc: Option<(Seq<char>, u32, u32)>,
    copy_loc: Option<(Seq<char>, u32, u32)>,
) -> Seq<char> {
    let messages = string_array_json(strings_view(d.messages@));
    let observations = observations_field_text(d.hidden_cells);
    if d.ok {
        "{\"schema_version\":1,\"ok\":true,\"messages\":"@ + messages + observations + "}"@
    } else {
        let root_causes = root_causes_field_text(d.root_cause, copy_loc);
        let message = match d.message {
            Some(m) => m@,
            None => Seq::empty(),
        };
        "{\"schema_version\":1,\"ok\":false,\"message\":"@ + json_quoted(message) + ",\"location\":"@
            + location_json(loc) + ",\"root_causes\":"@ + root_causes + ",\"messages\":"@ + messages
            + observations + "}"@
    }
}

fn push_observations_field(out: &mut Vec<char>, obs: &Option<HiddenCellsObservation>)
    ensures
        final(out)@ == old(out)@ + observations_field_text(*obs),
{
    let ghost before = out@;
    match obs {
        Some(o) => {
            push_str_chars(out, ",\"observations\":");
            push_observations_json(out, Some(o));
            proof {
                assert(out@ =~= before + observations_field_text(*obs));
            }
        },
        None => {
            proof {
                assert(out@ =~= before + observations_field_text(*obs));
            }
        },
    }
}

pub open spec fn root_causes_field_text(rc: Option<RootCause>, copy_loc: Option<(Seq<char>, u32, u32)>) -> Seq<char> {
    match rc {
        Some(rc) => "["@ + cause_json_text(rc.code@, rc.certainty@, rc.kind, copy_loc) + "]"@,
        None => "[]"@,
    }
}

fn push_root_causes_field(out: &mut Vec<char>, rc: &Option<RootCause>, copy_location: Option<&SourceLocation>)
    requires
        rc matches Some(c) ==> kind_wf(c.kind),
    ensures
        final(out)@ == old(out)@ + root_causes_field_text(*rc, loc_view(copy_location)),
{
    let ghost before = out@;
    match rc {
        Some(rc) => {
            push_str_chars(out, "[");
            push_cause_json(out, rc.code, rc.certainty, &rc.kind, copy_location);
            push_str_chars(out, "]");
        },
        None => push_str_chars(out, "[]"),
    }
    proof {
        assert(out@ =~= before + root_causes_field_text(*rc, loc_view(copy_location)));
    }
}

fn push_failure_json_head(out: &mut Vec<char>, diag: &Diagnosis, location: Option<&SourceLocation>)
    ensures
        final(out)@ == old(out)@ + "{\"schema_version\":1,\"ok\":false,\"message\":"@ + json_quoted(
            match diag.message {
                Some(m) => m@,
                None => Seq::empty(),
            },
        ) + ",\"location\":"@ + location_json(loc_view(location)),
{
    let ghost before = out@;
    push_str_chars(out, "{\"schema_version\":1,\"ok\":false,\"message\":");
    let message: Vec<char> = match &diag.message {
        Some(m) => string_chars(m),
        None => Vec::new(),
    };
    push_quoted_chars(out, &message);
    push_key_location(out, ",\"location\":", location);
    proof {
        assert(message@ =~= match diag.message {
            Some(m) => m@,
            None => Seq::empty(),
        });
        assert(out@ =~= before + "{\"schema_version\":1,\"ok\":false,\"message\":"@ + json_quoted(
            message@,
        ) + ",\"location\":"@ + location_json(loc_view(location)));
    }
}

/// The diagnosis as its JSON object; `location` and `copy_location` are
/// where the failing statement and the copy it pasted from stand, when the
/// caller resolved them.
pub fn to_json(diag: &Diagnosis, location: Option<&SourceLocation>, copy_location: Option<&SourceLocation>) -> (r: String)
    requires
        diagnosis_wf(*diag),
    ensures
        r@ == diagnosis_json_text(*diag, loc_view(location), loc_view(copy_location)),
{
    let mut out: Vec<char> = Vec::new();
    if diag.ok {
        push_str_chars(&mut out, "{\"schema_version\":1,\"ok\":true,\"messages\":");
        push_messages_json(&mut out, diag.messages.as_slice());
        push_observations_field(&mut out, &diag.hidden_cells);
        push_str_chars(&mut out, "}");
        proof {
            assert(out@ =~= diagnosis_json_text(*diag, loc_view(location), loc_view(copy_location)));
        }
    } else {
        push_failure_json_head(&mut out, diag, location);
        push_str_chars(&mut out, ",\"root_causes\":");
        push_root_causes_field(&mut out, &diag.root_cause, copy_location);
        push_str_chars(&mut out, ",\"messages\":");
        push_messages_json(&mut out, diag.messages.as_slice());
        push_observations_field(&mut out, &diag.hidden_cells);
        push_str_chars(&mut out, "}");
        proof {
            assert(out@ =~= diagnosis_json_text(*diag, loc_view(location), loc_view(copy_location)));
        }
    }
    string_from_chars(&out)
}

/// A failed diagnosis whose root cause was classified from `k` carries, in
/// the JSON of `to_json` without a copy location, exactly the
/// `root_causes_json` array of `k` as its `root_causes` field; with no
/// failure kind that array is `[]`.
pub proof fn law_root_causes_json_matches_diagnosis(
    d: Diagnosis,
    k: ResolutionFailureKind,
    loc: Option<(Seq<char>, u32, u32)>,
)
    requires
        !d.ok,
        d.root_cause matches Some(rc) && rc.code@ == kind_code(k) && rc.certainty@ == "definite"@ && rc.kind
            == k,
    ensures
        ({
            let j = diagnosis_json_text(d, loc, None);
            let w = ",\"root_causes\":"@ + root_causes_text(Some(k)) + ",\"messages\":"@;
            exists|i: int| 0 <= i && i + w.len() <= j.len() && #[trigger] j.subrange(i, i + w.len()) == w
        }),
        root_causes_text(None) == "[]"@,
{
    let j = diagnosis_json_text(d, loc, None);
    let w = ",\"root_causes\":"@ + root_causes_text(Some(k)) + ",\"messages\":"@;
    let message = match d.message {
        Some(m) => m@,
        None => Seq::empty(),
    };
    let pre = "{\"schema_version\":1,\"ok\":false,\"message\":"@ + json_quoted(message) + ",\"location\":"@
        + location_json(loc);
    let rest = string_array_json(strings_view(d.messages@)) + observations_field_text(d.hidden_cells) + "}"@;
    assert(root_causes_field_text(d.root_cause, None) == root_causes_text(Some(k)));
    assert(j =~= pre + w + rest);
    let i = pre.len() as int;
    assert(j.subrange(i, i + w.len()) =~= w);
}

// ── Plain text ───────────────────────────────────────────────────────────

pub open spec fn interval_texts(ivs: Seq<Interval>, rows: bool) -> Seq<Seq<char>> {
    ivs.map_values(|iv: Interval| interval_text(iv, rows))
}

/// The runs as `11:14, 30:39` (or `B:B` for columns), or `none`.
pub open spec fn runs_text(ivs: Seq<Interval>, rows: bool) -> Seq<char> {
    if ivs.len() == 0 {
        "none"@
    } else {
        join_seq(interval_texts(ivs, rows), ", "@)
    }
}

/// The plain-text note on a range with hidden cells.
pub open spec fn hidden_note_text(o: HiddenCellsObservation) -> Seq<char> {
    "\n\nRANGE_CONTAINS_HIDDEN_CELLS: "@ + o.address@ + " ("@ + o.sheet@ + ") has "@ + decimal(
        o.visible_cells as nat,
    ) + " of "@ + decimal(o.total_cells as nat) + " cells visible (hidden rows: "@ + runs_text(
        o.hidden_rows@,
        true,
    ) + "; hidden columns: "@ + runs_text(o.hidden_columns@, false) + ")"@
}

pub open spec fn note_text(obs: Option<HiddenCellsObservation>) -> Seq<char> {
    match obs {
        Some(o) => hidden_note_text(o),
        None => Seq::empty(),
    }
}

/// `file:line:column` of a location.
pub open spec fn position_text(file: Seq<char>, line: u32, column: u32) -> Seq<char> {
    file + seq![':'] + decimal(line as nat) + seq![':'] + decimal(column as nat)
}

/// `\n  copied at file:line:column`, when the copy was located.
pub open spec fn copied_at_text(loc: Option<(Seq<char>, u32, u32)>) -> Seq<char> {
    match loc {
        Some((f, l, c)) => "\n  copied at "@ + position_text(f, l, c),
        None => Seq::empty(),
    }
}

pub open spec fn area_texts(rs: Seq<Rect>) -> Seq<Seq<char>> {
    rs.map_values(|r: Rect| area_text(r))
}

pub open spec fn areas_counts_text(source: Seq<Rect>, destination: Seq<Rect>) -> Seq<char> {
    "copy source has "@ + decimal(source.len()) + " area(s) ("@ + join_seq(area_texts(source), ", "@)
        + "), paste destination has "@ + decimal(destination.len()) + " area(s) ("@ + join_seq(
        area_texts(destination),
        ", "@,
    ) + ")"@
}

pub open spec fn area_dims_text(r: Rect) -> Seq<char> {
    area_text(r) + " ("@ + decimal((r.end_row - r.start_row + 1) as nat) + seq!['x'] + decimal(
        (r.end_col - r.start_col + 1) as nat,
    ) + ")"@
}

/// The evidence of a root cause in words.
pub open spec fn kind_plain_text(k: ResolutionFailureKind, copy_loc: Option<(Seq<char>, u32, u32)>) -> Seq<char> {
    match k {
        ResolutionFailureKind::WorksheetNotFound(e) => evidence_plain_text(e),
        ResolutionFailureKind::WorkbookNotFound(e) => evidence_plain_text(e),
        ResolutionFailureKind::ArrayIndexOutOfBounds { name, index, lower, upper } => "array '"@ + name@
            + "' index "@ + decimal_int(index as int) + " out of bounds (valid range: "@ + decimal_int(
            lower as int,
        ) + " To "@ + decimal_int(upper as int) + ")"@,
        ResolutionFailureKind::PasteShapeMismatch {
            source_addr,
            source_rows,
            source_cols,
            dest_addr,
            dest_rows,
            dest_cols,
            transpose,
            ..
        } => "copy source "@ + source_addr@ + " ("@ + decimal(source_rows as nat) + seq!['x'] + decimal(
            source_cols as nat,
        ) + ") does not match paste destination "@ + dest_addr@ + " ("@ + decimal(dest_rows as nat)
            + seq!['x'] + decimal(dest_cols as nat) + ")"@ + (if transpose {
            ", Transpose:=True"@
        } else {
            Seq::empty()
        }) + copied_at_text(copy_loc),
        ResolutionFailureKind::PasteWithoutCopy { dest_addr } => "Paste to "@ + dest_addr@
            + " attempted with an empty clipboard"@,
        ResolutionFailureKind::SheetProtected { sheet } => "sheet '"@ + sheet@ + "' is protected"@,
        ResolutionFailureKind::PasteIntoNonAnchorMergedCell { dest_addr, dest_sheet, merged_range, .. } =>
            "paste destination "@ + dest_addr@ + " (sheet '"@ + dest_sheet@ + "') is inside merged range "@
            + rect_text(merged_range) + " but isn't its top-left cell"@ + copied_at_text(copy_loc),
        ResolutionFailureKind::PastePartialMergedRange { dest_addr, dest_sheet, conflicts, .. } =>
            "paste destination "@ + dest_addr@ + " (sheet '"@ + dest_sheet@
            + "') partially overlaps merged range(s): "@ + rects_list_text(conflicts@) + copied_at_text(
            copy_loc,
        ),
        ResolutionFailureKind::PasteMergeLayoutMismatch {
            source_addr,
            source_sheet,
            dest_addr,
            dest_sheet,
            conflicts,
            ..
        } => "copy source "@ + source_addr@ + " (sheet '"@ + source_sheet@ + "') and paste destination "@
            + dest_addr@ + " (sheet '"@ + dest_sheet@ + "') have different merged-cell layouts: "@
            + rects_list_text(conflicts@) + copied_at_text(copy_loc),
        ResolutionFailureKind::MultiAreaToSingleAreaPaste { source_areas, destination_areas } => areas_counts_text(
            source_areas@,
            destination_areas@,
        ),
        ResolutionFailureKind::MultiAreaCountMismatch { source_areas, destination_areas } => areas_counts_text(
            source_areas@,
            destination_areas@,
        ),
        ResolutionFailureKind::MultiAreaPasteUnsupported { source_areas, destination_areas } => areas_counts_text(
            source_areas@,
            destination_areas@,
        ),
        ResolutionFailureKind::MultiAreaShapeMismatch { area_index, source_area, destination_area } => "area "@
            + decimal(area_index as nat) + " shape mismatch: source "@ + area_dims_text(source_area)
            + " vs destination "@ + area_dims_text(destination_area),
    }
}

pub open spec fn evidence_plain_text(e: ResolutionEvidence) -> Seq<char> {
    e.expression@ + "\n  requested: "@ + e.requested@ + "\n  available: "@ + join_seq(
        strings_view(e.available@),
        ", "@,
    ) + match e.suggested {
        Some(x) => "\n  did you mean: "@ + x@,
        None => Seq::empty(),
    }
}

/// One `\n  suggestion: ...` line per suggestion.
pub open spec fn suggestion_lines(ss: Seq<Seq<char>>) -> Seq<char>
    decreases ss.len(),
{
    if ss.len() == 0 {
        Seq::empty()
    } else {
        suggestion_lines(ss.drop_last()) + "\n  suggestion: "@ + ss.last()
    }
}

/// The diagnosis as plain text: `OK: ...` or `FAILED: <message>`, the
/// location, the root cause's code, evidence and suggestions, and the
/// hidden-cells note.
pub open spec fn plain_text(
    d: Diagnosis,
    loc: Option<(Seq<char>, u32, u32)>,
    copy_loc: Option<(Seq<char>, u32, u32)>,
) -> Seq<char> {
    if d.ok {
        "OK: no resolution failure detected"@ + note_text(d.hidden_cells)
    } else {
        "FAILED: "@ + match d.message {
            Some(m) => m@,
            None => "(unknown error)"@,
        } + match loc {
            Some((f, l, c)) => "\n  at "@ + position_text(f, l, c),
            None => Seq::empty(),
        } + match d.root_cause {
            Some(rc) => "\n\n"@ + rc.code@ + ": "@ + kind_plain_text(rc.kind, copy_loc) + suggestion_lines(
                kind_suggestions(rc.kind),
            ),
            None => Seq::empty(),
        } + note_text(d.hidden_cells)
    }
}

fn push_runs(out: &mut Vec<char>, ivs: &Vec<Interval>, rows: bool)
    ensures
        final(out)@ == old(out)@ + runs_text(ivs@, rows),
{
    if ivs.len() == 0 {
        push_str_chars(out, "none");
        return;
    }
    let mut items: Vec<Vec<char>> = Vec::new();
    let mut i: usize = 0;
    while i < ivs.len()
        invariant
            0 <= i <= ivs@.len(),
            chars_view(items@) == interval_texts(ivs@.subrange(0, i as int), rows),
        decreases ivs@.len() - i,
    {
        let ghost prev = chars_view(items@);
        items.push(interval_chars(ivs[i], rows));
        proof {
            assert(chars_view(items@) =~= prev.push(interval_text(ivs@[i as int], rows)));
            assert(interval_texts(ivs@.subrange(0, i + 1), rows) =~= interval_texts(
                ivs@.subrange(0, i as int),
                rows,
            ).push(interval_text(ivs@[i as int], rows)));
        }
        i = i + 1;
    }
    proof {
        assert(ivs@.subrange(0, ivs@.len() as int) =~= ivs@);
    }
    push_joined(out, &items, ", ");
}

fn push_hidden_note(out: &mut Vec<char>, o: &HiddenCellsObservation)
    ensures
        final(out)@ == old(out)@ + hidden_note_text(*o),
{
    let ghost before = out@;
    push_str_chars(out, "\n\nRANGE_CONTAINS_HIDDEN_CELLS: ");
    push_all(out, &string_chars(&o.address));
    push_str_chars(out, " (");
    push_all(out, &string_chars(&o.sheet));
    push_str_chars(out, ") has ");
    push_all(out, &fmt_u64(o.visible_cells));
    push_str_chars(out, " of ");
    push_all(out, &fmt_u64(o.total_cells));
    push_str_chars(out, " cells visible (hidden rows: ");
    push_runs(out, &o.hidden_rows, true);
    push_str_chars(out, "; hidden columns: ");
    push_runs(out, &o.hidden_columns, false);
    push_str_chars(out, ")");
    proof {
        assert(out@ =~= before + hidden_note_text(*o));
    }
}

fn push_note(out: &mut Vec<char>, obs: &Option<HiddenCellsObservation>)
    ensures
        final(out)@ == old(out)@ + note_text(*obs),
{
    match obs {
        Some(o) => push_hidden_note(out, o),
        None => {
            proof {
                assert(old(out)@ + note_text(*obs) =~= old(out)@);
            }
        },
    }
}

fn push_position(out: &mut Vec<char>, l: &SourceLocation)
    ensures
        final(out)@ == old(out)@ + position_text(l.file@, l.line, l.column),
{
    let ghost before = out@;
    push_all(out, &string_chars(&l.file));
    out.push(':');
    push_all(out, &fmt_u64(l.line as u64));
    out.push(':');
    push_all(out, &fmt_u64(l.column as u64));
    proof {
        assert(out@ =~= before + position_text(l.file@, l.line, l.column));
    }
}

fn push_copied_at(out: &mut Vec<char>, loc: Option<&SourceLocation>)
    ensures
        final(out)@ == old(out)@ + copied_at_text(loc_view(loc)),
{
    let ghost before = out@;
    match loc {
        Some(l) => {
            push_str_chars(out, "\n  copied at ");
            push_position(out, l);
        },
        None => {},
    }
    proof {
        assert(out@ =~= before + copied_at_text(loc_view(loc)));
    }
}

fn push_evidence_plain(out: &mut Vec<char>, e: &ResolutionEvidence)
    ensures
        final(out)@ == old(out)@ + evidence_plain_text(*e),
{
    let ghost before = out@;
    push_all(out, &string_chars(&e.expression));
    push_str_chars(out, "\n  requested: ");
    push_all(out, &string_chars(&e.requested));
    push_str_chars(out, "\n  available: ");
    push_joined(out, &strings_to_chars(&e.available), ", ");
    match &e.suggested {
        Some(x) => {
            push_str_chars(out, "\n  did you mean: ");
            push_all(out, &string_chars(x));
        },
        None => {},
    }
    proof {
        assert(out@ =~= before + evidence_plain_text(*e));
    }
}

fn push_area_dims(out: &mut Vec<char>, r: Rect)
    requires
        rect_wf(r),
    ensures
        final(out)@ == old(out)@ + area_dims_text(r),
{
    let ghost before = out@;
    push_rect_text(out, ((r.start_row, r.start_col), (r.end_row, r.end_col)));
    push_str_chars(out, " (");
    push_all(out, &fmt_u64(r.rows()));
    out.push('x');
    push_all(out, &fmt_u64(r.cols()));
    push_str_chars(out, ")");
    proof {
        assert(out@ =~= before + area_dims_text(r));
    }
}

fn area_items(rs: &Vec<Rect>) -> (r: Vec<Vec<char>>)
    ensures
        chars_view(r@) == area_texts(rs@),
{
    let mut items: Vec<Vec<char>> = Vec::new();
    let mut i: usize = 0;
    while i < rs.len()
        invariant
            0 <= i <= rs@.len(),
            chars_view(items@) == area_texts(rs@.subrange(0, i as int)),
        decreases rs@.len() - i,
    {
        let ghost prev = chars_view(items@);
        let mut a: Vec<char> = Vec::new();
        push_rect_text(&mut a, ((rs[i].start_row, rs[i].start_col), (rs[i].end_row, rs[i].end_col)));
        items.push(a);
        proof {
            assert(chars_view(items@) =~= prev.push(area_text(rs@[i as int])));
            assert(area_texts(rs@.subrange(0, i + 1)) =~= area_texts(rs@.subrange(0, i as int)).push(
                area_text(rs@[i as int]),
            ));
        }
        i = i + 1;
    }
    proof {
        assert(rs@.subrange(0, rs@.len() as int) =~= rs@);
    }
    items
}

fn push_areas_counts(out: &mut Vec<char>, source: &Vec<Rect>, destination: &Vec<Rect>)
    ensures
        final(out)@ == old(out)@ + areas_counts_text(source@, destination@),
{
    let ghost before = out@;
    push_str_chars(out, "copy source has ");
    push_all(out, &fmt_u64(source.len() as u64));
    push_str_chars(out, " area(s) (");
    push_joined(out, &area_items(source), ", ");
    push_str_chars(out, "), paste destination has ");
    push_all(out, &fmt_u64(destination.len() as u64));
    push_str_chars(out, " area(s) (");
    push_joined(out, &area_items(destination), ", ");
    push_str_chars(out, ")");
    proof {
        assert(out@ =~= before + areas_counts_text(source@, destination@));
    }
}

fn push_paste_shape_plain(out: &mut Vec<char>, k: &ResolutionFailureKind, copy_loc: Option<&SourceLocation>)
    requires
        k is PasteShapeMismatch,
    ensures
        final(out)@ == old(out)@ + kind_plain_text(*k, loc_view(copy_loc)),
{
    let ghost before = out@;
    match k {
        ResolutionFailureKind::PasteShapeMismatch {
            source_addr,
            source_rows,
            source_cols,
            dest_addr,
            dest_rows,
            dest_cols,
            transpose,
            ..
        } => {
            push_str_chars(out, "copy source ");
            push_all(out, &string_chars(source_addr));
            push_str_chars(out, " (");
            push_all(out, &fmt_u64(*source_rows as u64));
            out.push('x');
            push_all(out, &fmt_u64(*source_cols as u64));
            push_str_chars(out, ") does not match paste destination ");
            push_all(out, &string_chars(dest_addr));
            push_str_chars(out, " (");
            push_all(out, &fmt_u64(*dest_rows as u64));
            out.push('x');
            push_all(out, &fmt_u64(*dest_cols as u64));
            push_str_chars(out, ")");
            if *transpose {
                push_str_chars(out, ", Transpose:=True");
            }
            push_copied_at(out, copy_loc);
            proof {
                assert(out@ =~= before + kind_plain_text(*k, loc_view(copy_loc)));
            }
        },
        _ => {},
    }
}

fn push_merge_plain(out: &mut Vec<char>, k: &ResolutionFailureKind, copy_loc: Option<&SourceLocation>)
    requires
        k is PasteIntoNonAnchorMergedCell || k is PastePartialMergedRange,
    ensures
        final(out)@ == old(out)@ + kind_plain_text(*k, loc_view(copy_loc)),
{
    let ghost before = out@;
    match k {
        ResolutionFailureKind::PasteIntoNonAnchorMergedCell { dest_addr, dest_sheet, merged_range, .. } => {
            push_str_chars(out, "paste destination ");
            push_all(out, &string_chars(dest_addr));
            push_str_chars(out, " (sheet '");
            push_all(out, &string_chars(dest_sheet));
            push_str_chars(out, "') is inside merged range ");
            push_rect_text(out, *merged_range);
            push_str_chars(out, " but isn't its top-left cell");
            push_copied_at(out, copy_loc);
            proof {
                assert(out@ =~= before + kind_plain_text(*k, loc_view(copy_loc)));
            }
        },
        ResolutionFailureKind::PastePartialMergedRange { dest_addr, dest_sheet, conflicts, .. } => {
            push_str_chars(out, "paste destination ");
            push_all(out, &string_chars(dest_addr));
            push_str_chars(out, " (sheet '");
            push_all(out, &string_chars(dest_sheet));
            push_str_chars(out, "') partially overlaps merged range(s): ");
            push_rects_list(out, conflicts);
            push_copied_at(out, copy_loc);
            proof {
                assert(out@ =~= before + kind_plain_text(*k, loc_view(copy_loc)));
            }
        },
        _ => {},
    }
}

fn push_layout_plain(out: &mut Vec<char>, k: &ResolutionFailureKind, copy_loc: Option<&SourceLocation>)
    requires
        k is PasteMergeLayoutMismatch,
    ensures
        final(out)@ == old(out)@ + kind_plain_text(*k, loc_view(copy_loc)),
{
    let ghost before = out@;
    match k {
        ResolutionFailureKind::PasteMergeLayoutMismatch {
            source_addr,
            source_sheet,
            dest_addr,
            dest_sheet,
            conflicts,
            ..
        } => {
            push_str_chars(out, "copy source ");
            push_all(out, &string_chars(source_addr));
            push_str_chars(out, " (sheet '");
            push_all(out, &string_chars(source_sheet));
            push_str_chars(out, "') and paste destination ");
            push_all(out, &string_chars(dest_addr));
            push_str_chars(out, " (sheet '");
            push_all(out, &string_chars(dest_sheet));
            push_str_chars(out, "') have different merged-cell layouts: ");
            push_rects_list(out, conflicts);
            push_copied_at(out, copy_loc);
            proof {
                assert(out@ =~= before + kind_plain_text(*k, loc_view(copy_loc)));
            }
        },
        _ => {},
    }
}

fn push_kind_plain(out: &mut Vec<char>, k: &ResolutionFailureKind, copy_loc: Option<&SourceLocation>)
    requires
        kind_wf(*k),
    ensures
        final(out)@ == old(out)@ + kind_plain_text(*k, loc_view(copy_loc)),
{
    let ghost before = out@;
    match k {
        ResolutionFailureKind::WorksheetNotFound(e) => push_evidence_plain(out, e),
        ResolutionFailureKind::WorkbookNotFound(e) => push_evidence_plain(out, e),
        ResolutionFailureKind::ArrayIndexOutOfBounds { name, index, lower, upper } => {
            push_str_chars(out, "array '");
            push_all(out, &string_chars(name));
            push_str_chars(out, "' index ");
            push_all(out, &fmt_i64(*index));
            push_str_chars(out, " out of bounds (valid range: ");
            push_all(out, &fmt_i64(*lower));
            push_str_chars(out, " To ");
            push_all(out, &fmt_i64(*upper));
            push_str_chars(out, ")");
            proof {
                assert(out@ =~= before + kind_plain_text(*k, loc_view(copy_loc)));
            }
        },
        ResolutionFailureKind::PasteShapeMismatch { .. } => push_paste_shape_plain(out, k, copy_loc),
        ResolutionFailureKind::PasteWithoutCopy { dest_addr } => {
            push_str_chars(out, "Paste to ");
            push_all(out, &string_chars(dest_addr));
            push_str_chars(out, " attempted with an empty clipboard");
            proof {
                assert(out@ =~= before + kind_plain_text(*k, loc_view(copy_loc)));
            }
        },
        ResolutionFailureKind::SheetProtected { sheet } => {
            push_str_chars(out, "sheet '");
            push_all(out, &string_chars(sheet));
            push_str_chars(out, "' is protected");
            proof {
                assert(out@ =~= before + kind_plain_text(*k, loc_view(copy_loc)));
            }
        },
        ResolutionFailureKind::PasteIntoNonAnchorMergedCell { .. } => push_merge_plain(out, k, copy_loc),
        ResolutionFailureKind::PastePartialMergedRange { .. } => push_merge_plain(out, k, copy_loc),
        ResolutionFailureKind::PasteMergeLayoutMismatch { .. } => push_layout_plain(out, k, copy_loc),
        ResolutionFailureKind::MultiAreaToSingleAreaPaste { source_areas, destination_areas } => push_areas_counts(
            out,
            source_areas,
            destination_areas,
        ),
        ResolutionFailureKind::MultiAreaCountMismatch { source_areas, destination_areas } => push_areas_counts(
            out,
            source_areas,
            destination_areas,
        ),
        ResolutionFailureKind::MultiAreaPasteUnsupported { source_areas, destination_areas } => push_areas_counts(
            out,
            source_areas,
            destination_areas,
        ),
        ResolutionFailureKind::MultiAreaShapeMismatch { area_index, source_area, destination_area } => {
            push_str_chars(out, "area ");
            push_all(out, &fmt_u64(*area_index as u64));
            push_str_chars(out, " shape mismatch: source ");
            push_area_dims(out, *source_area);
            push_str_chars(out, " vs destination ");
            push_area_dims(out, *destination_area);
            proof {
                assert(out@ =~= before + kind_plain_text(*k, loc_view(copy_loc)));
            }
        },
    }
}

fn push_suggestion_lines(out: &mut Vec<char>, ss: &Vec<String>)
    ensures
        final(out)@ == old(out)@ + suggestion_lines(strings_view(ss@)),
{
    let ghost before = out@;
    let ghost sv = strings_view(ss@);
    let mut i: usize = 0;
    proof {
        assert(sv.subrange(0, 0) =~= Seq::<Seq<char>>::empty());
        assert(out@ =~= before + suggestion_lines(sv.subrange(0, 0)));
    }
    while i < ss.len()
        invariant
            0 <= i <= ss@.len(),
            sv == strings_view(ss@),
            sv.len() == ss@.len(),
            out@ == before + suggestion_lines(sv.subrange(0, i as int)),
        decreases ss@.len() - i,
    {
        let ghost pre = sv.subrange(0, i + 1);
        proof {
            assert(pre.drop_last() =~= sv.subrange(0, i as int));
            assert(pre.last() == ss@[i as int]@);
        }
        push_str_chars(out, "\n  suggestion: ");
        push_all(out, &string_chars(&ss[i]));
        proof {
            assert(out@ =~= before + suggestion_lines(pre));
        }
        i = i + 1;
    }
    proof {
        assert(sv.subrange(0, sv.len() as int) =~= sv);
    }
}

fn push_failure_head(out: &mut Vec<char>, diag: &Diagnosis, location: Option<&SourceLocation>)
    ensures
        final(out)@ == old(out)@ + "FAILED: "@ + match diag.message {
            Some(m) => m@,
            None => "(unknown error)"@,
        } + match loc_view(location) {
            Some((f, l, c)) => "\n  at "@ + position_text(f, l, c),
            None => Seq::empty(),
        },
{
    let ghost before = out@;
    push_str_chars(out, "FAILED: ");
    match &diag.message {
        Some(m) => push_all(out, &string_chars(m)),
        None => push_str_chars(out, "(unknown error)"),
    }
    let ghost mid = out@;
    match location {
        Some(l) => {
            push_str_chars(out, "\n  at ");
            push_position(out, l);
        },
        None => {},
    }
    proof {
        assert(out@ =~= before + "FAILED: "@ + match diag.message {
            Some(m) => m@,
            None => "(unknown error)"@,
        } + match loc_view(location) {
            Some((f, l, c)) => "\n  at "@ + position_text(f, l, c),
            None => Seq::empty(),
        });
    }
}

fn push_root_cause_plain(out: &mut Vec<char>, rc: &RootCause, copy_location: Option<&SourceLocation>)
    requires
        kind_wf(rc.kind),
    ensures
        final(out)@ == old(out)@ + "\n\n"@ + rc.code@ + ": "@ + kind_plain_text(rc.kind, loc_view(copy_location))
            + suggestion_lines(kind_suggestions(rc.kind)),
{
    let ghost before = out@;
    push_str_chars(out, "\n\n");
    push_str_chars(out, rc.code);
    push_str_chars(out, ": ");
    push_kind_plain(out, &rc.kind, copy_location);
    let ss = rc.suggestions();
    push_suggestion_lines(out, &ss);
    proof {
        assert(out@ =~= before + "\n\n"@ + rc.code@ + ": "@ + kind_plain_text(rc.kind, loc_view(copy_location))
            + suggestion_lines(kind_suggestions(rc.kind)));
    }
}

/// The diagnosis as a plain-text summary.
pub fn to_plain_text(diag: &Diagnosis, location: Option<&SourceLocation>, copy_location: Option<&SourceLocation>) -> (r: String)
    requires
        diagnosis_wf(*diag),
    ensures
        r@ == plain_text(*diag, loc_view(location), loc_view(copy_location)),
{
    let mut out: Vec<char> = Vec::new();
    if diag.ok {
        push_str_chars(&mut out, "OK: no resolution failure detected");
        push_note(&mut out, &diag.hidden_cells);
        return string_from_chars(&out);
    }
    push_failure_head(&mut out, diag, location);
    let ghost head = out@;
    match &diag.root_cause {
        Some(rc) => push_root_cause_plain(&mut out, rc, copy_location),
        None => {},
    }
    let ghost body = out@;
    push_note(&mut out, &diag.hidden_cells);
    proof {
        assert(out@ =~= plain_text(*diag, loc_view(location), loc_view(copy_location)));
    }
    string_from_chars(&out)
}
} // verus!
