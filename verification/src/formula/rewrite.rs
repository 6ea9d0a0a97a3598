//! Reference rewriting for row/column insert-delete, sheet rename and range
//! move, workbook-wide.
//!
//! Patches only the text span of each affected cell/range reference --
//! everything else in the formula (operators, function names, literals,
//! whitespace, unaffected references) is left untouched.
//!
//! A formula lives on one sheet (`host_sheet_key`) and may reference cells on
//! any sheet, unqualified (bare `A1`, implicitly the host sheet) or qualified
//! (`Sheet2!A1`, explicitly named). A structural edit happens on exactly one
//! sheet (`edited_sheet_key`). A reference is only rewritten when it actually
//! points at the edited sheet:
//!
//! - unqualified: only if `host_sheet_key == edited_sheet_key`
//! - qualified: only if the qualifier's name, lowercased, is
//!   `edited_sheet_key`, regardless of which sheet hosts the formula

use vstd::prelude::*;
use crate::text::{
    join_with,    ascii_alnum, is_ascii_alnum, slice_chars, trim_bounds, char_is_alphabetic, char_is_alphanumeric, unicode_alphabetic, unicode_alphanumeric, chars_eq, chars_to_lowercase, col_letters, col_to_letters, decimal, fmt_u128,
    formula_body, formula_body_chars, lemma_strip_equals_suffix, lemma_trim_end_bounds,
    lemma_trim_start_bounds, push_all, str_chars, string_chars, string_from_chars, trimmed,
    unicode_lowercase,
};
use super::ast::{QualV, SheetQualifier};
use super::grammar::{
    err_message, is_char, name_end, quoted_scan, sp_qualifier, ErrV, ref_begin, ref_end, ref_spans_ordered, refs_ordered, spec_parse_with_refs,
    RefV,
};
use super::parser::{leading_sheet_qualifier, parse_with_refs, view_refs, RefOccurrence};
use super::patch::{
    apply_patches, collect_patches, lemma_collect_patches_within, patches_within, splice,
    view_patches, Patch, PatchV,
};

verus! {

#[derive(Debug, Clone, Copy, PartialEq, Eq)]
pub enum RefAxis {
    Row,
    Col,
}

#[derive(Debug, Clone, Copy, PartialEq, Eq)]
pub enum StructuralEdit {
    Insert { at: u32, count: u32 },
    Delete { at: u32, count: u32 },
}

/// Outcome of shifting a single coordinate by a structural edit.
#[derive(Debug, Clone, Copy, PartialEq, Eq)]
pub enum CellShift {
    Unchanged,
    Moved(u32),
    Deleted,
}

pub open spec fn is_noop_edit(edit: StructuralEdit) -> bool {
    match edit {
        StructuralEdit::Insert { count, .. } => count == 0,
        StructuralEdit::Delete { count, .. } => count == 0,
    }
}

/// The edit's arithmetic on `idx` stays within `u32`: an insert moves an
/// index at or after `at` up by `count`; a delete compares such an index
/// with `at + count`.
pub open spec fn shift_fits(idx: u32, edit: StructuralEdit) -> bool {
    match edit {
        StructuralEdit::Insert { at, count } => idx >= at ==> idx + count <= u32::MAX,
        StructuralEdit::Delete { at, count } => idx >= at ==> at + count <= u32::MAX,
    }
}

/// A single cell reference's coordinate on the edited axis: an insert at or
/// before it moves it; a delete past it moves it back; a delete covering it
/// deletes it.
pub open spec fn spec_shift_cell_coord(idx: u32, edit: StructuralEdit) -> CellShift {
    match edit {
        StructuralEdit::Insert { at, count } => if count > 0 && idx >= at {
            CellShift::Moved((idx + count) as u32)
        } else {
            CellShift::Unchanged
        },
        StructuralEdit::Delete { at, count } => if count > 0 && idx >= at {
            if idx < at + count {
                CellShift::Deleted
            } else {
                CellShift::Moved((idx - count) as u32)
            }
        } else {
            CellShift::Unchanged
        },
    }
}

/// Lower bound of a range corner: on deletion, an index inside the deleted
/// band clamps to `at`.
pub open spec fn spec_shift_bound_low(idx: u32, edit: StructuralEdit) -> int {
    match edit {
        StructuralEdit::Insert { at, count } => if idx >= at {
            idx + count
        } else {
            idx as int
        },
        StructuralEdit::Delete { at, count } => if idx < at {
            idx as int
        } else if idx < at + count {
            at as int
        } else {
            idx - count
        },
    }
}

/// Upper bound of a range corner: on deletion, an index inside the deleted
/// band clamps to `at - 1`.
pub open spec fn spec_shift_bound_high(idx: u32, edit: StructuralEdit) -> int {
    match edit {
        StructuralEdit::Insert { at, count } => if idx >= at {
            idx + count
        } else {
            idx as int
        },
        StructuralEdit::Delete { at, count } => if idx < at {
            idx as int
        } else if idx < at + count {
            at - 1
        } else {
            idx - count
        },
    }
}

pub fn shift_cell_coord(idx: u32, edit: StructuralEdit) -> (r: CellShift)
    requires
        shift_fits(idx, edit),
    ensures
        r == spec_shift_cell_coord(idx, edit),
{
    match edit {
        StructuralEdit::Insert { at, count } => {
            if count > 0 && idx >= at {
                CellShift::Moved(idx + count)
            } else {
                CellShift::Unchanged
            }
        },
        StructuralEdit::Delete { at, count } => {
            if count > 0 && idx >= at {
                if idx < at + count {
                    CellShift::Deleted
                } else {
                    CellShift::Moved(idx - count)
                }
            } else {
                CellShift::Unchanged
            }
        },
    }
}

pub fn shift_bound_low(idx: u32, edit: StructuralEdit) -> (r: u32)
    requires
        shift_fits(idx, edit),
    ensures
        r as int == spec_shift_bound_low(idx, edit),
{
    match edit {
        StructuralEdit::Insert { at, count } => {
            if idx >= at {
                idx + count
            } else {
                idx
            }
        },
        StructuralEdit::Delete { at, count } => {
            if idx < at {
                idx
            } else if idx < at + count {
                at
            } else {
                idx - count
            }
        },
    }
}

/// Returned as `i64` so a range whose top clamps to `at` and whose bottom
/// clamps to `at - 1` reads as collapsed (`low > high`) even when `at` is 1.
pub fn shift_bound_high(idx: u32, edit: StructuralEdit) -> (r: i64)
    requires
        shift_fits(idx, edit),
    ensures
        r as int == spec_shift_bound_high(idx, edit),
{
    match edit {
        StructuralEdit::Insert { at, count } => {
            if idx >= at {
                (idx + count) as i64
            } else {
                idx as i64
            }
        },
        StructuralEdit::Delete { at, count } => {
            if idx < at {
                idx as i64
            } else if idx < at + count {
                at as i64 - 1
            } else {
                (idx - count) as i64
            }
        },
    }
}

/// The text of a cell reference: optional `$`, column letters, optional `$`,
/// row number.
pub open spec fn ref_text(col: nat, row: nat, abs_col: bool, abs_row: bool) -> Seq<char> {
    (if abs_col {
        seq!['$']
    } else {
        Seq::empty()
    }) + col_letters(col) + (if abs_row {
        seq!['$']
    } else {
        Seq::empty()
    }) + decimal(row)
}

pub open spec fn ref_error_text() -> Seq<char> {
    seq!['#', 'R', 'E', 'F', '!']
}

fn format_cell_ref(col: u32, row: u32, abs_col: bool, abs_row: bool) -> (r: Vec<char>)
    ensures
        r@ == ref_text(col as nat, row as nat, abs_col, abs_row),
{
    let mut s: Vec<char> = Vec::new();
    if abs_col {
        s.push('$');
    }
    let letters = col_to_letters(col);
    push_all(&mut s, &letters);
    if abs_row {
        s.push('$');
    }
    let digits = fmt_u128(row as u128);
    push_all(&mut s, &digits);
    proof {
        assert(s@ =~= ref_text(col as nat, row as nat, abs_col, abs_row));
    }
    s
}

fn ref_error() -> (r: Vec<char>)
    ensures
        r@ == ref_error_text(),
{
    let mut v: Vec<char> = Vec::new();
    v.push('#');
    v.push('R');
    v.push('E');
    v.push('F');
    v.push('!');
    proof {
        assert(v@ =~= ref_error_text());
    }
    v
}

/// Does a reference with this qualifier, in a formula hosted on `host`,
/// point at the sheet `edited`? Sheet keys are lowercased names; a
/// qualifier's name is lowercased at compare time.
pub open spec fn targets_sheet(sheet: Option<QualV>, host: Seq<char>, edited: Seq<char>) -> bool {
    match sheet {
        None => host == edited,
        Some(q) => unicode_lowercase(q.normalized_name) == edited,
    }
}

fn ref_targets_edited_sheet(
    sheet: &Option<SheetQualifier>,
    host_sheet_key: &Vec<char>,
    edited_sheet_key: &Vec<char>,
) -> (r: bool)
    ensures
        r == targets_sheet(super::ast::view_qual(*sheet), host_sheet_key@, edited_sheet_key@),
{
    match sheet {
        None => chars_eq(host_sheet_key, edited_sheet_key),
        Some(q) => {
            let name = string_chars(&q.normalized_name);
            let lower = chars_to_lowercase(&name);
            chars_eq(&lower, edited_sheet_key)
        },
    }
}

pub open spec fn axis_coord(axis: RefAxis, col: u32, row: u32) -> u32 {
    match axis {
        RefAxis::Row => row,
        RefAxis::Col => col,
    }
}

/// `(col, row)` with the coordinate on `axis` replaced by `v`.
pub open spec fn with_axis(axis: RefAxis, col: u32, row: u32, v: u32) -> (u32, u32) {
    match axis {
        RefAxis::Row => (col, v),
        RefAxis::Col => (v, row),
    }
}

/// The arithmetic that shifting this reference performs stays within `u32`.
pub open spec fn shift_ref_fits(
    r: RefV,
    host: Seq<char>,
    edited: Seq<char>,
    axis: RefAxis,
    edit: StructuralEdit,
) -> bool {
    match r {
        RefV::Cell { col, row, sheet, .. } => targets_sheet(sheet, host, edited) ==> shift_fits(
            axis_coord(axis, col, row),
            edit,
        ),
        RefV::Range { c1, r1, c2, r2, sheet, .. } => targets_sheet(sheet, host, edited) ==> (
        shift_fits(axis_coord(axis, c1, r1), edit) && shift_fits(axis_coord(axis, c2, r2), edit)),
    }
}

/// The patches that shifting one reference makes: the whole coordinate
/// text becomes `#REF!` when everything it names is deleted; otherwise each
/// corner whose coordinate moves is rewritten, keeping its `$` flags.
pub open spec fn shift_ref_patches(
    r: RefV,
    host: Seq<char>,
    edited: Seq<char>,
    axis: RefAxis,
    edit: StructuralEdit,
) -> Seq<PatchV> {
    match r {
        RefV::Cell { span, col, row, abs_col, abs_row, sheet } => if !targets_sheet(
            sheet,
            host,
            edited,
        ) {
            Seq::empty()
        } else {
            match spec_shift_cell_coord(axis_coord(axis, col, row), edit) {
                CellShift::Unchanged => Seq::empty(),
                CellShift::Deleted => seq![(span.0 as int, span.1 as int, ref_error_text())],
                CellShift::Moved(n) => {
                    let (c, w) = with_axis(axis, col, row, n);
                    seq![(span.0 as int, span.1 as int, ref_text(c as nat, w as nat, abs_col, abs_row))]
                },
            }
        },
        RefV::Range {
            span,
            c1,
            r1,
            abs_c1,
            abs_r1,
            c1_span,
            c2,
            r2,
            abs_c2,
            abs_r2,
            c2_span,
            sheet,
        } => if !targets_sheet(sheet, host, edited) {
            Seq::empty()
        } else {
            let v1 = axis_coord(axis, c1, r1);
            let v2 = axis_coord(axis, c2, r2);
            let (v1_is_low, low, high) = if v1 <= v2 {
                (true, v1, v2)
            } else {
                (false, v2, v1)
            };
            let new_low = spec_shift_bound_low(low, edit);
            let new_high = spec_shift_bound_high(high, edit);
            if new_low > new_high {
                seq![(span.0 as int, span.1 as int, ref_error_text())]
            } else {
                let (nv1, nv2) = if v1_is_low {
                    (new_low, new_high)
                } else {
                    (new_high, new_low)
                };
                let p1 = if nv1 != v1 {
                    let (c, w) = with_axis(axis, c1, r1, nv1 as u32);
                    seq![(c1_span.0 as int, c1_span.1 as int, ref_text(c as nat, w as nat, abs_c1, abs_r1))]
                } else {
                    Seq::empty()
                };
                let p2 = if nv2 != v2 {
                    let (c, w) = with_axis(axis, c2, r2, nv2 as u32);
                    seq![(c2_span.0 as int, c2_span.1 as int, ref_text(c as nat, w as nat, abs_c2, abs_r2))]
                } else {
                    Seq::empty()
                };
                p1 + p2
            }
        },
    }
}

pub open spec fn shift_patches(
    refs: Seq<RefV>,
    host: Seq<char>,
    edited: Seq<char>,
    axis: RefAxis,
    edit: StructuralEdit,
) -> Seq<PatchV> {
    collect_patches(refs, |r: RefV| shift_ref_patches(r, host, edited, axis, edit))
}

/// What `shift_references` gives: `Ok(None)` for a no-op edit, a formula
/// with no reference or none affected; `Ok(Some(text))` with the affected
/// reference spans patched in the normalized formula text; `Err` with the
/// parse error's message.
pub open spec fn spec_shift_references(
    formula: Seq<char>,
    host: Seq<char>,
    edited: Seq<char>,
    axis: RefAxis,
    edit: StructuralEdit,
) -> Result<Option<Seq<char>>, Seq<char>> {
    if is_noop_edit(edit) {
        Ok(None)
    } else {
        let input = formula_body(formula);
        match spec_parse_with_refs(input) {
            Err(e) => Err(err_message(e)),
            Ok((_, refs)) => if refs.len() == 0 {
                Ok(None)
            } else {
                let ps = shift_patches(refs, host, edited, axis, edit);
                if ps.len() == 0 {
                    Ok(None)
                } else {
                    Ok(Some(splice(input, ps)))
                }
            },
        }
    }
}

/// The arithmetic of shifting every reference of the formula stays within
/// `u32`.
pub open spec fn shift_references_fit(
    formula: Seq<char>,
    host: Seq<char>,
    edited: Seq<char>,
    axis: RefAxis,
    edit: StructuralEdit,
) -> bool {
    !is_noop_edit(edit) ==> match spec_parse_with_refs(formula_body(formula)) {
        Ok((_, refs)) => forall|i: int|
            0 <= i < refs.len() ==> #[trigger] shift_ref_fits(refs[i], host, edited, axis, edit),
        Err(_) => true,
    }
}

pub proof fn lemma_formula_body_len(s: Seq<char>)
    ensures
        formula_body(s).len() <= s.len(),
{
    let a = crate::text::trim_start_index(s, 0);
    lemma_trim_start_bounds(s, 0);
    lemma_trim_end_bounds(s, a, s.len() as int);
    lemma_strip_equals_suffix(trimmed(s));
}

proof fn lemma_shift_ref_patches_within(
    r: RefV,
    host: Seq<char>,
    edited: Seq<char>,
    axis: RefAxis,
    edit: StructuralEdit,
)
    requires
        ref_spans_ordered(r),
    ensures
        patches_within(shift_ref_patches(r, host, edited, axis, edit), ref_begin(r), ref_end(r)),
{
    let ps = shift_ref_patches(r, host, edited, axis, edit);
    match r {
        RefV::Cell { .. } => {},
        RefV::Range { .. } => {
            if ps.len() == 2 {
                assert(ps[0].1 <= ps[1].0);
            }
        },
    }
}

proof fn lemma_shift_patches_within(
    refs: Seq<RefV>,
    host: Seq<char>,
    edited: Seq<char>,
    axis: RefAxis,
    edit: StructuralEdit,
    bound: int,
)
    requires
        refs_ordered(refs, bound),
    ensures
        patches_within(shift_patches(refs, host, edited, axis, edit), 0, bound),
{
    let f = |r: RefV| shift_ref_patches(r, host, edited, axis, edit);
    assert forall|r: RefV| ref_spans_ordered(r) implies #[trigger] patches_within(
        f(r),
        ref_begin(r),
        ref_end(r),
    ) by {
        lemma_shift_ref_patches_within(r, host, edited, axis, edit);
    }
    lemma_collect_patches_within(refs, f, bound);
}

fn push_patch(out: &mut Vec<Patch>, start: usize, end: usize, text: Vec<char>)
    ensures
        view_patches(final(out)@) == view_patches(old(out)@).push((start as int, end as int, text@)),
{
    let p = Patch { start, end, text };
    out.push(p);
    proof {
        assert(view_patches(out@) =~= view_patches(old(out)@).push((start as int, end as int, text@)));
    }
}

/// Appends the patches that shifting `r` makes.
fn push_shift_ref_patches(
    r: &RefOccurrence,
    host: &Vec<char>,
    edited: &Vec<char>,
    axis: RefAxis,
    edit: StructuralEdit,
    out: &mut Vec<Patch>,
)
    requires
        shift_ref_fits(r.view(), host@, edited@, axis, edit),
    ensures
        view_patches(final(out)@) == view_patches(old(out)@) + shift_ref_patches(
            r.view(),
            host@,
            edited@,
            axis,
            edit,
        ),
{
    let ghost expected = shift_ref_patches(r.view(), host@, edited@, axis, edit);
    match r {
        RefOccurrence::Cell { span, col, row, abs_col, abs_row, sheet } => {
            if !ref_targets_edited_sheet(sheet, host, edited) {
                proof {
                    assert(view_patches(out@) + expected =~= view_patches(out@));
                }
                return ;
            }
            let idx = match axis {
                RefAxis::Row => *row,
                RefAxis::Col => *col,
            };
            match shift_cell_coord(idx, edit) {
                CellShift::Unchanged => {
                    proof {
                        assert(view_patches(out@) + expected =~= view_patches(out@));
                    }
                },
                CellShift::Deleted => {
                    push_patch(out, span.0, span.1, ref_error());
                    proof {
                        assert(view_patches(out@) =~= view_patches(old(out)@) + expected);
                    }
                },
                CellShift::Moved(new_idx) => {
                    let (new_col, new_row) = match axis {
                        RefAxis::Row => (*col, new_idx),
                        RefAxis::Col => (new_idx, *row),
                    };
                    push_patch(out, span.0, span.1, format_cell_ref(new_col, new_row, *abs_col, *abs_row));
                    proof {
                        assert(view_patches(out@) =~= view_patches(old(out)@) + expected);
                    }
                },
            }
        },
        RefOccurrence::Range {
            span,
            c1,
            r1,
            abs_c1,
            abs_r1,
            c1_span,
            c2,
            r2,
            abs_c2,
            abs_r2,
            c2_span,
            sheet,
        } => {
            if !ref_targets_edited_sheet(sheet, host, edited) {
                proof {
                    assert(view_patches(out@) + expected =~= view_patches(out@));
                }
                return ;
            }
            let (v1, v2) = match axis {
                RefAxis::Row => (*r1, *r2),
                RefAxis::Col => (*c1, *c2),
            };
            // Ranges are order-independent here (a reversed range keeps its
            // corner order).
            let (v1_is_low, low, high) = if v1 <= v2 {
                (true, v1, v2)
            } else {
                (false, v2, v1)
            };
            let new_low = shift_bound_low(low, edit);
            let new_high = shift_bound_high(high, edit);
            if new_low as i64 > new_high {
                // The whole range fell inside a deleted band.
                push_patch(out, span.0, span.1, ref_error());
                proof {
                    assert(view_patches(out@) =~= view_patches(old(out)@) + expected);
                }
                return ;
            }
            let new_high = new_high as u32;
            let (new_v1, new_v2) = if v1_is_low {
                (new_low, new_high)
            } else {
                (new_high, new_low)
            };
            let ghost mid = view_patches(out@);
            if new_v1 != v1 {
                let (new_c1, new_r1) = match axis {
                    RefAxis::Row => (*c1, new_v1),
                    RefAxis::Col => (new_v1, *r1),
                };
                push_patch(out, c1_span.0, c1_span.1, format_cell_ref(new_c1, new_r1, *abs_c1, *abs_r1));
            }
            let ghost mid2 = view_patches(out@);
            if new_v2 != v2 {
                let (new_c2, new_r2) = match axis {
                    RefAxis::Row => (*c2, new_v2),
                    RefAxis::Col => (new_v2, *r2),
                };
                push_patch(out, c2_span.0, c2_span.1, format_cell_ref(new_c2, new_r2, *abs_c2, *abs_r2));
            }
            proof {
                assert(view_patches(out@) =~= view_patches(old(out)@) + expected);
            }
        },
    }
}

/// Rewrite `formula`'s cell/range references for a row or column
/// insert/delete happening on `edited_sheet_key`. `formula` is hosted on
/// `host_sheet_key`. Returns `Ok(None)` when no reference was affected; a
/// reference that falls entirely inside a deleted band becomes `#REF!` (the
/// qualifier, if any, is preserved). `$` flags never change whether a
/// reference shifts; they are preserved as-is. A formula the parser can't
/// parse is reported as `Err`. The returned text carries no leading `=`.
pub fn shift_references(
    formula: &str,
    host_sheet_key: &str,
    edited_sheet_key: &str,
    axis: RefAxis,
    edit: StructuralEdit,
) -> (r: Result<Option<String>, String>)
    requires
        shift_references_fit(formula@, host_sheet_key@, edited_sheet_key@, axis, edit),
    ensures
        match spec_shift_references(formula@, host_sheet_key@, edited_sheet_key@, axis, edit) {
            Ok(None) => r matches Ok(None),
            Ok(Some(t)) => r matches Ok(Some(x)) && x@ == t,
            Err(m) => r matches Err(x) && x@ == m,
        },
{
    let is_noop_edit = match edit {
        StructuralEdit::Insert { count, .. } => count == 0,
        StructuralEdit::Delete { count, .. } => count == 0,
    };
    if is_noop_edit {
        return Ok(None);
    }
    let input_chars = formula_body_chars(formula);
    let input = string_from_chars(&input_chars);
    let (_, refs) = parse_with_refs(&input)?;
    if refs.len() == 0 {
        return Ok(None);
    }
    let host = str_chars(host_sheet_key);
    let edited = str_chars(edited_sheet_key);
    let ghost rv = view_refs(refs@);
    let mut patches: Vec<Patch> = Vec::new();
    let mut i: usize = 0;
    proof {
        assert(view_patches(patches@) =~= shift_patches(rv.subrange(0, 0), host@, edited@, axis, edit));
    }
    while i < refs.len()
        invariant
            0 <= i <= refs@.len(),
            rv == view_refs(refs@),
            rv.len() == refs@.len(),
            forall|k: int| 0 <= k < rv.len() ==> #[trigger] shift_ref_fits(
                rv[k],
                host@,
                edited@,
                axis,
                edit,
            ),
            view_patches(patches@) == shift_patches(
                rv.subrange(0, i as int),
                host@,
                edited@,
                axis,
                edit,
            ),
        decreases refs@.len() - i,
    {
        proof {
            assert(rv[i as int] == refs@[i as int].view());
            let pre = rv.subrange(0, i + 1);
            assert(pre.drop_last() == rv.subrange(0, i as int));
            assert(pre.last() == rv[i as int]);
        }
        push_shift_ref_patches(&refs[i], &host, &edited, axis, edit, &mut patches);
        i = i + 1;
    }
    proof {
        assert(rv.subrange(0, rv.len() as int) == rv);
        lemma_formula_body_len(input@);
        lemma_shift_patches_within(rv, host@, edited@, axis, edit, formula_body(input@).len() as int);
    }
    if patches.len() == 0 {
        return Ok(None);
    }
    let out = apply_patches(&input_chars, &patches);
    Ok(Some(string_from_chars(&out)))
}


fn shift_fits_exec(idx: u32, edit: StructuralEdit) -> (r: bool)
    ensures
        r == shift_fits(idx, edit),
{
    match edit {
        StructuralEdit::Insert { at, count } => idx < at || (idx as u64) + (count as u64) <= 0xffff_ffff,
        StructuralEdit::Delete { at, count } => idx < at || (at as u64) + (count as u64) <= 0xffff_ffff,
    }
}

fn shift_ref_fits_exec(
    r: &RefOccurrence,
    host: &Vec<char>,
    edited: &Vec<char>,
    axis: RefAxis,
    edit: StructuralEdit,
) -> (b: bool)
    ensures
        b == shift_ref_fits(r.view(), host@, edited@, axis, edit),
{
    match r {
        RefOccurrence::Cell { col, row, sheet, .. } => {
            if !ref_targets_edited_sheet(sheet, host, edited) {
                return true;
            }
            let idx = match axis {
                RefAxis::Row => *row,
                RefAxis::Col => *col,
            };
            shift_fits_exec(idx, edit)
        },
        RefOccurrence::Range { c1, r1, c2, r2, sheet, .. } => {
            if !ref_targets_edited_sheet(sheet, host, edited) {
                return true;
            }
            let (v1, v2) = match axis {
                RefAxis::Row => (*r1, *r2),
                RefAxis::Col => (*c1, *c2),
            };
            shift_fits_exec(v1, edit) && shift_fits_exec(v2, edit)
        },
    }
}

/// `shift_references` where the edit's arithmetic stays within `u32` for
/// every reference it shifts, and `None` where it would overflow.
pub fn shift_references_checked(
    formula: &str,
    host_sheet_key: &str,
    edited_sheet_key: &str,
    axis: RefAxis,
    edit: StructuralEdit,
) -> (r: Option<Result<Option<String>, String>>)
    ensures
        r is None <==> !shift_references_fit(formula@, host_sheet_key@, edited_sheet_key@, axis, edit),
        r matches Some(x) ==> match spec_shift_references(formula@, host_sheet_key@, edited_sheet_key@, axis, edit) {
            Ok(None) => x matches Ok(None),
            Ok(Some(t)) => x matches Ok(Some(y)) && y@ == t,
            Err(m) => x matches Err(y) && y@ == m,
        },
{
    let noop = match edit {
        StructuralEdit::Insert { count, .. } => count == 0,
        StructuralEdit::Delete { count, .. } => count == 0,
    };
    if !noop {
        let input_chars = formula_body_chars(formula);
        let input = string_from_chars(&input_chars);
        if let Ok((_, refs)) = parse_with_refs(&input) {
            let host = str_chars(host_sheet_key);
            let edited = str_chars(edited_sheet_key);
            let ghost rv = view_refs(refs@);
            let mut i: usize = 0;
            while i < refs.len()
                invariant
                    0 <= i <= refs@.len(),
                    rv == view_refs(refs@),
                    rv.len() == refs@.len(),
                    !is_noop_edit(edit),
                    host@ == host_sheet_key@,
                    edited@ == edited_sheet_key@,
                    spec_parse_with_refs(formula_body(formula@)) matches Ok((_, x)) && x == rv,
                    forall|k: int| 0 <= k < i ==> #[trigger] shift_ref_fits(rv[k], host@, edited@, axis, edit),
                decreases refs@.len() - i,
            {
                proof {
                    assert(rv[i as int] == refs@[i as int].view());
                }
                if !shift_ref_fits_exec(&refs[i], &host, &edited, axis, edit) {
                    proof {
                        assert(!shift_ref_fits(rv[i as int], host@, edited@, axis, edit));
                    }
                    return None;
                }
                i = i + 1;
            }
        }
    }
    Some(shift_references(formula, host_sheet_key, edited_sheet_key, axis, edit))
}

// ── Sheet rename ─────────────────────────────────────────────────────────

/// A sheet name that stands unquoted in a formula and reads back as itself:
/// it starts with a letter or `_`, and every later char is a letter, a digit
/// or `_` (Unicode-aware, as the parser's unquoted qualifier).
pub open spec fn plain_sheet_name(name: Seq<char>) -> bool {
    &&& name.len() > 0
    &&& (unicode_alphabetic(name[0]) || name[0] == '_')
    &&& forall|k: int| 1 <= k < name.len() ==> (#[trigger] unicode_alphanumeric(name[k]) || name[k] == '_')
}

/// `s` with every `'` doubled.
pub open spec fn escape_quotes(s: Seq<char>) -> Seq<char>
    decreases s.len(),
{
    if s.len() == 0 {
        Seq::empty()
    } else {
        escape_quotes(s.drop_last()) + if s.last() == '\'' {
            seq!['\'', '\'']
        } else {
            seq![s.last()]
        }
    }
}

/// The qualifier text (without its `!`) that names sheet `name` in a
/// formula: the name itself when it can stand unquoted, else the name in
/// single quotes with each `'` doubled.
pub open spec fn qualifier_text(name: Seq<char>) -> Seq<char> {
    if plain_sheet_name(name) {
        name
    } else {
        seq!['\''] + escape_quotes(name) + seq!['\'']
    }
}

/// Would an unquoted sheet name written into a formula fail to parse back
/// out to exactly this `name`?
fn sheet_name_needs_quoting(name: &Vec<char>) -> (r: bool)
    ensures
        r == !plain_sheet_name(name@),
{
    if name.len() == 0 {
        return true;
    }
    let first = name[0];
    if !(char_is_alphabetic(first) || first == '_') {
        return true;
    }
    let mut i: usize = 1;
    while i < name.len()
        invariant
            1 <= i <= name@.len(),
            forall|k: int| 1 <= k < i ==> (#[trigger] unicode_alphanumeric(name@[k]) || name@[k] == '_'),
        decreases name@.len() - i,
    {
        let c = name[i];
        if !(char_is_alphanumeric(c) || c == '_') {
            return true;
        }
        i = i + 1;
    }
    false
}

/// Formats `name` as a formula sheet qualifier (no trailing `!`), quoting and
/// `'`-escaping it only when required.
fn format_sheet_qualifier(name: &Vec<char>) -> (r: Vec<char>)
    ensures
        r@ == qualifier_text(name@),
{
    if !sheet_name_needs_quoting(name) {
        let mut out: Vec<char> = Vec::new();
        push_all(&mut out, name);
        proof {
            assert(out@ =~= name@);
        }
        return out;
    }
    let mut out: Vec<char> = Vec::new();
    out.push('\'');
    let mut i: usize = 0;
    proof {
        assert(name@.subrange(0, 0) =~= Seq::<char>::empty());
        assert(out@ =~= seq!['\''] + escape_quotes(name@.subrange(0, 0)));
    }
    while i < name.len()
        invariant
            0 <= i <= name@.len(),
            out@ == seq!['\''] + escape_quotes(name@.subrange(0, i as int)),
        decreases name@.len() - i,
    {
        let c = name[i];
        let ghost pre = name@.subrange(0, i + 1);
        proof {
            assert(pre.drop_last() =~= name@.subrange(0, i as int));
            assert(pre.last() == c);
        }
        if c == '\'' {
            out.push('\'');
            out.push('\'');
        } else {
            out.push(c);
        }
        proof {
            assert(out@ =~= seq!['\''] + escape_quotes(pre));
        }
        i = i + 1;
    }
    out.push('\'');
    proof {
        assert(name@.subrange(0, name@.len() as int) =~= name@);
    }
    out
}

/// The qualifier a recorded reference carries, if any.
pub open spec fn ref_sheet(r: RefV) -> Option<QualV> {
    match r {
        RefV::Cell { sheet, .. } => sheet,
        RefV::Range { sheet, .. } => sheet,
    }
}

/// The patch renaming one reference: its qualifier text becomes `new_q`
/// when the qualifier's name, lowercased, is `old_key`.
pub open spec fn rename_ref_patches(r: RefV, old_key: Seq<char>, new_q: Seq<char>) -> Seq<PatchV> {
    match ref_sheet(r) {
        Some(q) => if unicode_lowercase(q.normalized_name) == old_key {
            seq![(q.raw_span.0 as int, q.raw_span.1 as int, new_q)]
        } else {
            Seq::empty()
        },
        None => Seq::empty(),
    }
}

pub open spec fn rename_patches(refs: Seq<RefV>, old_key: Seq<char>, new_q: Seq<char>) -> Seq<PatchV> {
    collect_patches(refs, |r: RefV| rename_ref_patches(r, old_key, new_q))
}

/// What `rename_sheet_references` gives: `Ok(None)` when no reference is
/// qualified with `old_key`; otherwise the normalized formula text with each
/// such qualifier replaced by `new_name`'s qualifier text; `Err` with the
/// parse error's message.
pub open spec fn spec_rename_sheet_references(
    formula: Seq<char>,
    old_key: Seq<char>,
    new_name: Seq<char>,
) -> Result<Option<Seq<char>>, Seq<char>> {
    let input = formula_body(formula);
    match spec_parse_with_refs(input) {
        Err(e) => Err(err_message(e)),
        Ok((_, refs)) => if refs.len() == 0 {
            Ok(None)
        } else {
            let ps = rename_patches(refs, old_key, qualifier_text(new_name));
            if ps.len() == 0 {
                Ok(None)
            } else {
                Ok(Some(splice(input, ps)))
            }
        },
    }
}

proof fn lemma_rename_patches_within(refs: Seq<RefV>, old_key: Seq<char>, new_q: Seq<char>, bound: int)
    requires
        refs_ordered(refs, bound),
    ensures
        patches_within(rename_patches(refs, old_key, new_q), 0, bound),
{
    let f = |r: RefV| rename_ref_patches(r, old_key, new_q);
    assert forall|r: RefV| ref_spans_ordered(r) implies #[trigger] patches_within(
        f(r),
        ref_begin(r),
        ref_end(r),
    ) by {
        match r {
            RefV::Cell { .. } => {},
            RefV::Range { .. } => {},
        }
    }
    lemma_collect_patches_within(refs, f, bound);
}

/// Appends the patch that renaming `r` makes.
fn push_rename_ref_patches(r: &RefOccurrence, old_key: &Vec<char>, new_q: &Vec<char>, out: &mut Vec<Patch>)
    ensures
        view_patches(final(out)@) == view_patches(old(out)@) + rename_ref_patches(
            r.view(),
            old_key@,
            new_q@,
        ),
{
    let sheet = match r {
        RefOccurrence::Cell { sheet, .. } => sheet,
        RefOccurrence::Range { sheet, .. } => sheet,
    };
    let ghost expected = rename_ref_patches(r.view(), old_key@, new_q@);
    match sheet {
        Some(q) => {
            let name = string_chars(&q.normalized_name);
            let lower = chars_to_lowercase(&name);
            if chars_eq(&lower, old_key) {
                let mut text: Vec<char> = Vec::new();
                push_all(&mut text, new_q);
                push_patch(out, q.raw_span.0, q.raw_span.1, text);
                proof {
                    assert(view_patches(out@) =~= view_patches(old(out)@) + expected);
                }
            } else {
                proof {
                    assert(view_patches(out@) + expected =~= view_patches(out@));
                }
            }
        },
        None => {
            proof {
                assert(view_patches(out@) + expected =~= view_patches(out@));
            }
        },
    }
}

/// Rewrite every reference in `formula` qualified with `old_sheet_key`
/// (compared with the qualifier's name lowercased) to name `new_sheet_name`
/// instead -- only the qualifier text changes, coordinates are never
/// touched. The replacement is quoted/escaped for `new_sheet_name` itself,
/// whatever quoting the old reference used. Unqualified references are
/// never touched. Returns `Ok(None)` when nothing in `formula` was qualified
/// with `old_sheet_key`; `Err` when the formula does not parse.
pub fn rename_sheet_references(
    formula: &str,
    old_sheet_key: &str,
    new_sheet_name: &str,
) -> (r: Result<Option<String>, String>)
    ensures
        match spec_rename_sheet_references(formula@, old_sheet_key@, new_sheet_name@) {
            Ok(None) => r matches Ok(None),
            Ok(Some(t)) => r matches Ok(Some(x)) && x@ == t,
            Err(m) => r matches Err(x) && x@ == m,
        },
{
    let input_chars = formula_body_chars(formula);
    let input = string_from_chars(&input_chars);
    let (_, refs) = parse_with_refs(&input)?;
    if refs.len() == 0 {
        return Ok(None);
    }
    let new_name = str_chars(new_sheet_name);
    let new_q = format_sheet_qualifier(&new_name);
    let old_key = str_chars(old_sheet_key);
    let ghost rv = view_refs(refs@);
    let ghost f = |r: RefV| rename_ref_patches(r, old_key@, new_q@);
    let mut patches: Vec<Patch> = Vec::new();
    let mut i: usize = 0;
    proof {
        assert(view_patches(patches@) =~= collect_patches(rv.subrange(0, 0), f));
    }
    while i < refs.len()
        invariant
            0 <= i <= refs@.len(),
            rv == view_refs(refs@),
            rv.len() == refs@.len(),
            f == (|r: RefV| rename_ref_patches(r, old_key@, new_q@)),
            view_patches(patches@) == collect_patches(rv.subrange(0, i as int), f),
        decreases refs@.len() - i,
    {
        proof {
            assert(rv[i as int] == refs@[i as int].view());
            let pre = rv.subrange(0, i + 1);
            assert(pre.drop_last() == rv.subrange(0, i as int));
            assert(pre.last() == rv[i as int]);
        }
        push_rename_ref_patches(&refs[i], &old_key, &new_q, &mut patches);
        i = i + 1;
    }
    proof {
        assert(rv.subrange(0, rv.len() as int) == rv);
        lemma_formula_body_len(input@);
        lemma_rename_patches_within(rv, old_key@, new_q@, formula_body(input@).len() as int);
    }
    if patches.len() == 0 {
        return Ok(None);
    }
    let out = apply_patches(&input_chars, &patches);
    Ok(Some(string_from_chars(&out)))
}

// ── Range move ───────────────────────────────────────────────────────────

/// A rectangular range on one sheet, 1-indexed, inclusive on both corners,
/// with `r1 <= r2` and `c1 <= c2` normalized by the caller.
#[derive(Debug, Clone, Copy, PartialEq, Eq)]
pub struct MoveRect {
    pub r1: u32,
    pub c1: u32,
    pub r2: u32,
    pub c2: u32,
}

pub open spec fn rect_contains(rect: MoveRect, col: u32, row: u32) -> bool {
    rect.r1 <= row <= rect.r2 && rect.c1 <= col <= rect.c2
}

impl MoveRect {
    /// Is the cell `(col, row)` inside the rectangle?
    pub fn contains(&self, col: u32, row: u32) -> (r: bool)
        ensures
            r == rect_contains(*self, col, row),
    {
        row >= self.r1 && row <= self.r2 && col >= self.c1 && col <= self.c2
    }
}

/// Outcome of translating one formula's references for a range move. A
/// range reference with exactly one corner inside the moved rectangle is
/// `Ambiguous`: the rewrite refuses to guess, and the whole move must be
/// rejected.
#[derive(Debug, Clone, PartialEq, Eq)]
pub enum MoveRewrite {
    Unchanged,
    Rewritten(String),
    Ambiguous,
}

/// The view of a `MoveRewrite`.
pub enum MoveV {
    Unchanged,
    Rewritten(Seq<char>),
    Ambiguous,
}

impl MoveRewrite {
    pub open spec fn view(&self) -> MoveV {
        match self {
            MoveRewrite::Unchanged => MoveV::Unchanged,
            MoveRewrite::Rewritten(s) => MoveV::Rewritten(s@),
            MoveRewrite::Ambiguous => MoveV::Ambiguous,
        }
    }
}

/// An unqualified reference, or one qualified with the move sheet itself.
pub open spec fn move_targets(sheet: Option<QualV>, key: Seq<char>) -> bool {
    targets_sheet(sheet, key, key)
}

/// A range reference on the move sheet with exactly one corner inside the
/// moved rectangle.
pub open spec fn ref_ambiguous(r: RefV, key: Seq<char>, src: MoveRect) -> bool {
    match r {
        RefV::Cell { .. } => false,
        RefV::Range { c1, r1, c2, r2, sheet, .. } => move_targets(sheet, key) && rect_contains(
            src,
            c1,
            r1,
        ) != rect_contains(src, c2, r2),
    }
}

pub open spec fn no_ambiguous_before(refs: Seq<RefV>, i: int, key: Seq<char>, src: MoveRect) -> bool {
    forall|j: int| 0 <= j < i ==> !#[trigger] ref_ambiguous(refs[j], key, src)
}

/// A coordinate moved by `d`, as a `u32` (the sum's low 32 bits).
pub open spec fn moved_coord(v: u32, d: i64) -> u32 {
    (v + d) as u32
}

/// A coordinate plus `d` fits in `i64`.
pub open spec fn move_sum_fits(v: u32, d: i64) -> bool {
    v + d <= i64::MAX
}

/// The arithmetic of translating this reference stays within `i64`.
pub open spec fn move_ref_fits(r: RefV, key: Seq<char>, src: MoveRect, d_row: i64, d_col: i64) -> bool {
    match r {
        RefV::Cell { col, row, sheet, .. } => (move_targets(sheet, key) && rect_contains(src, col, row))
            ==> (move_sum_fits(col, d_col) && move_sum_fits(row, d_row)),
        RefV::Range { c1, r1, c2, r2, sheet, .. } => (move_targets(sheet, key) && rect_contains(
            src,
            c1,
            r1,
        ) && rect_contains(src, c2, r2)) ==> (move_sum_fits(c1, d_col) && move_sum_fits(r1, d_row)
            && move_sum_fits(c2, d_col) && move_sum_fits(r2, d_row)),
    }
}

/// The patches translating one reference: a reference on the move sheet
/// whose target cells are all inside the rectangle moves by the offset,
/// keeping its `$` flags.
pub open spec fn move_ref_patches(r: RefV, key: Seq<char>, src: MoveRect, d_row: i64, d_col: i64) -> Seq<PatchV> {
    match r {
        RefV::Cell { span, col, row, abs_col, abs_row, sheet } => if move_targets(sheet, key)
            && rect_contains(src, col, row) {
            seq![
                (
                    span.0 as int,
                    span.1 as int,
                    ref_text(moved_coord(col, d_col) as nat, moved_coord(row, d_row) as nat, abs_col, abs_row),
                ),
            ]
        } else {
            Seq::empty()
        },
        RefV::Range { c1, r1, abs_c1, abs_r1, c1_span, c2, r2, abs_c2, abs_r2, c2_span, sheet, .. } => if move_targets(sheet, key)
            && rect_contains(src, c1, r1) && rect_contains(src, c2, r2) {
            seq![
                (
                    c1_span.0 as int,
                    c1_span.1 as int,
                    ref_text(moved_coord(c1, d_col) as nat, moved_coord(r1, d_row) as nat, abs_c1, abs_r1),
                ),
                (
                    c2_span.0 as int,
                    c2_span.1 as int,
                    ref_text(moved_coord(c2, d_col) as nat, moved_coord(r2, d_row) as nat, abs_c2, abs_r2),
                ),
            ]
        } else {
            Seq::empty()
        },
    }
}

pub open spec fn move_patches(refs: Seq<RefV>, key: Seq<char>, src: MoveRect, d_row: i64, d_col: i64) -> Seq<PatchV> {
    collect_patches(refs, |r: RefV| move_ref_patches(r, key, src, d_row, d_col))
}

/// What `translate_references_for_move` gives: `Unchanged` for a zero
/// offset, a formula with no reference or none inside the rectangle;
/// `Ambiguous` when some range reference on the move sheet has exactly one
/// corner inside; otherwise the normalized text with each moved reference
/// patched; `Err` with the parse error's message.
pub open spec fn spec_translate_references_for_move(
    formula: Seq<char>,
    key: Seq<char>,
    src: MoveRect,
    d_row: i64,
    d_col: i64,
) -> Result<MoveV, Seq<char>> {
    if d_row == 0 && d_col == 0 {
        Ok(MoveV::Unchanged)
    } else {
        let input = formula_body(formula);
        match spec_parse_with_refs(input) {
            Err(e) => Err(err_message(e)),
            Ok((_, refs)) => if refs.len() == 0 {
                Ok(MoveV::Unchanged)
            } else if !no_ambiguous_before(refs, refs.len() as int, key, src) {
                Ok(MoveV::Ambiguous)
            } else {
                let ps = move_patches(refs, key, src, d_row, d_col);
                if ps.len() == 0 {
                    Ok(MoveV::Unchanged)
                } else {
                    Ok(MoveV::Rewritten(splice(input, ps)))
                }
            },
        }
    }
}

/// The arithmetic of translating every reference the move looks at (those
/// before the first ambiguous one) stays within `i64`.
pub open spec fn move_references_fit(
    formula: Seq<char>,
    key: Seq<char>,
    src: MoveRect,
    d_row: i64,
    d_col: i64,
) -> bool {
    !(d_row == 0 && d_col == 0) ==> match spec_parse_with_refs(formula_body(formula)) {
        Ok((_, refs)) => forall|i: int|
            0 <= i < refs.len() && no_ambiguous_before(refs, i, key, src) ==> #[trigger] move_ref_fits(
                refs[i],
                key,
                src,
                d_row,
                d_col,
            ),
        Err(_) => true,
    }
}

proof fn lemma_move_patches_within(
    refs: Seq<RefV>,
    key: Seq<char>,
    src: MoveRect,
    d_row: i64,
    d_col: i64,
    bound: int,
)
    requires
        refs_ordered(refs, bound),
    ensures
        patches_within(move_patches(refs, key, src, d_row, d_col), 0, bound),
{
    let f = |r: RefV| move_ref_patches(r, key, src, d_row, d_col);
    assert forall|r: RefV| ref_spans_ordered(r) implies #[trigger] patches_within(
        f(r),
        ref_begin(r),
        ref_end(r),
    ) by {
        let ps = f(r);
        match r {
            RefV::Cell { .. } => {},
            RefV::Range { .. } => {
                if ps.len() == 2 {
                    assert(ps[0].1 <= ps[1].0);
                }
            },
        }
    }
    lemma_collect_patches_within(refs, f, bound);
}

fn move_coord(v: u32, d: i64) -> (r: u32)
    requires
        move_sum_fits(v, d),
    ensures
        r == moved_coord(v, d),
{
    (v as i64 + d) as u32
}

/// Appends the patches translating `r`, or reports that `r` is ambiguous.
fn push_move_ref_patches(
    r: &RefOccurrence,
    key: &Vec<char>,
    source: &MoveRect,
    d_row: i64,
    d_col: i64,
    out: &mut Vec<Patch>,
) -> (ambiguous: bool)
    requires
        !ref_ambiguous(r.view(), key@, *source) ==> move_ref_fits(r.view(), key@, *source, d_row, d_col),
    ensures
        ambiguous == ref_ambiguous(r.view(), key@, *source),
        !ambiguous ==> view_patches(final(out)@) == view_patches(old(out)@) + move_ref_patches(
            r.view(),
            key@,
            *source,
            d_row,
            d_col,
        ),
{
    let ghost expected = move_ref_patches(r.view(), key@, *source, d_row, d_col);
    match r {
        RefOccurrence::Cell { span, col, row, abs_col, abs_row, sheet } => {
            if !ref_targets_edited_sheet(sheet, key, key) || !source.contains(*col, *row) {
                proof {
                    assert(view_patches(out@) + expected =~= view_patches(out@));
                }
                return false;
            }
            let new_col = move_coord(*col, d_col);
            let new_row = move_coord(*row, d_row);
            push_patch(out, span.0, span.1, format_cell_ref(new_col, new_row, *abs_col, *abs_row));
            proof {
                assert(view_patches(out@) =~= view_patches(old(out)@) + expected);
            }
            false
        },
        RefOccurrence::Range { c1, r1, abs_c1, abs_r1, c1_span, c2, r2, abs_c2, abs_r2, c2_span, sheet, .. } => {
            if !ref_targets_edited_sheet(sheet, key, key) {
                proof {
                    assert(view_patches(out@) + expected =~= view_patches(out@));
                }
                return false;
            }
            let c1_inside = source.contains(*c1, *r1);
            let c2_inside = source.contains(*c2, *r2);
            if !c1_inside && !c2_inside {
                proof {
                    assert(view_patches(out@) + expected =~= view_patches(out@));
                }
                false
            } else if c1_inside && c2_inside {
                let new_c1 = move_coord(*c1, d_col);
                let new_r1 = move_coord(*r1, d_row);
                push_patch(out, c1_span.0, c1_span.1, format_cell_ref(new_c1, new_r1, *abs_c1, *abs_r1));
                let new_c2 = move_coord(*c2, d_col);
                let new_r2 = move_coord(*r2, d_row);
                push_patch(out, c2_span.0, c2_span.1, format_cell_ref(new_c2, new_r2, *abs_c2, *abs_r2));
                proof {
                    assert(view_patches(out@) =~= view_patches(old(out)@) + expected);
                }
                false
            } else {
                true
            }
        },
    }
}

/// Rewrite `formula`'s references for a same-sheet range move: `source` is
/// moving by `(d_row, d_col)` on `move_sheet_key`, and `formula` is hosted on
/// that sheet. Every reference (unqualified, or qualified naming the move
/// sheet itself) whose target cell falls inside `source` is translated by
/// the move offset; a range with both corners inside translates as a whole,
/// both outside is left alone, exactly one inside is `Ambiguous`. An offset
/// of `(0, 0)` is always `Unchanged` without parsing.
pub fn translate_references_for_move(
    formula: &str,
    move_sheet_key: &str,
    source: MoveRect,
    d_row: i64,
    d_col: i64,
) -> (r: Result<MoveRewrite, String>)
    requires
        move_references_fit(formula@, move_sheet_key@, source, d_row, d_col),
    ensures
        match spec_translate_references_for_move(formula@, move_sheet_key@, source, d_row, d_col) {
            Ok(v) => r matches Ok(x) && x.view() == v,
            Err(m) => r matches Err(x) && x@ == m,
        },
{
    if d_row == 0 && d_col == 0 {
        return Ok(MoveRewrite::Unchanged);
    }
    let input_chars = formula_body_chars(formula);
    let input = string_from_chars(&input_chars);
    let (_, refs) = parse_with_refs(&input)?;
    if refs.len() == 0 {
        return Ok(MoveRewrite::Unchanged);
    }
    let key = str_chars(move_sheet_key);
    let ghost rv = view_refs(refs@);
    proof {
        assert(input@ == formula_body(formula@));
    }
    let ghost f = |r: RefV| move_ref_patches(r, key@, source, d_row, d_col);
    let mut patches: Vec<Patch> = Vec::new();
    let mut i: usize = 0;
    proof {
        assert(view_patches(patches@) =~= collect_patches(rv.subrange(0, 0), f));
    }
    while i < refs.len()
        invariant
            0 <= i <= refs@.len(),
            rv == view_refs(refs@),
            rv.len() == refs@.len(),
            f == (|r: RefV| move_ref_patches(r, key@, source, d_row, d_col)),
            !(d_row == 0 && d_col == 0),
            key@ == move_sheet_key@,
            spec_parse_with_refs(formula_body(formula@)) matches Ok((_, x)) && x == rv,
            forall|k: int|
                0 <= k < rv.len() && no_ambiguous_before(rv, k, key@, source) ==> #[trigger] move_ref_fits(
                    rv[k],
                    key@,
                    source,
                    d_row,
                    d_col,
                ),
            no_ambiguous_before(rv, i as int, key@, source),
            view_patches(patches@) == collect_patches(rv.subrange(0, i as int), f),
        decreases refs@.len() - i,
    {
        proof {
            assert(rv[i as int] == refs@[i as int].view());
            let pre = rv.subrange(0, i + 1);
            assert(pre.drop_last() == rv.subrange(0, i as int));
            assert(pre.last() == rv[i as int]);
            assert(move_ref_fits(rv[i as int], key@, source, d_row, d_col));
        }
        let ambiguous = push_move_ref_patches(&refs[i], &key, &source, d_row, d_col, &mut patches);
        if ambiguous {
            proof {
                assert(ref_ambiguous(rv[i as int], key@, source));
                assert(!no_ambiguous_before(rv, rv.len() as int, key@, source));
            }
            return Ok(MoveRewrite::Ambiguous);
        }
        i = i + 1;
    }
    proof {
        assert(rv.subrange(0, rv.len() as int) == rv);
        lemma_formula_body_len(input@);
        lemma_move_patches_within(rv, key@, source, d_row, d_col, formula_body(input@).len() as int);
    }
    if patches.len() == 0 {
        return Ok(MoveRewrite::Unchanged);
    }
    let out = apply_patches(&input_chars, &patches);
    Ok(MoveRewrite::Rewritten(string_from_chars(&out)))
}

fn move_sum_fits_exec(v: u32, d: i64) -> (r: bool)
    ensures
        r == move_sum_fits(v, d),
{
    d <= 0 || (v as i64) <= i64::MAX - d
}

fn move_ref_fits_exec(r: &RefOccurrence, key: &Vec<char>, source: &MoveRect, d_row: i64, d_col: i64) -> (b: bool)
    ensures
        b == move_ref_fits(r.view(), key@, *source, d_row, d_col),
{
    match r {
        RefOccurrence::Cell { col, row, sheet, .. } => {
            if !ref_targets_edited_sheet(sheet, key, key) || !source.contains(*col, *row) {
                return true;
            }
            move_sum_fits_exec(*col, d_col) && move_sum_fits_exec(*row, d_row)
        },
        RefOccurrence::Range { c1, r1, c2, r2, sheet, .. } => {
            if !ref_targets_edited_sheet(sheet, key, key) || !source.contains(*c1, *r1)
                || !source.contains(*c2, *r2) {
                return true;
            }
            move_sum_fits_exec(*c1, d_col) && move_sum_fits_exec(*r1, d_row) && move_sum_fits_exec(
                *c2,
                d_col,
            ) && move_sum_fits_exec(*r2, d_row)
        },
    }
}

fn ref_ambiguous_exec(r: &RefOccurrence, key: &Vec<char>, source: &MoveRect) -> (b: bool)
    ensures
        b == ref_ambiguous(r.view(), key@, *source),
{
    match r {
        RefOccurrence::Cell { .. } => false,
        RefOccurrence::Range { c1, r1, c2, r2, sheet, .. } => {
            ref_targets_edited_sheet(sheet, key, key) && source.contains(*c1, *r1) != source.contains(
                *c2,
                *r2,
            )
        },
    }
}

/// `translate_references_for_move` where the translation's arithmetic stays
/// within `i64`, and `None` where it would overflow.
pub fn translate_references_for_move_checked(
    formula: &str,
    move_sheet_key: &str,
    source: MoveRect,
    d_row: i64,
    d_col: i64,
) -> (r: Option<Result<MoveRewrite, String>>)
    ensures
        r is None <==> !move_references_fit(formula@, move_sheet_key@, source, d_row, d_col),
        r matches Some(x) ==> match spec_translate_references_for_move(formula@, move_sheet_key@, source, d_row, d_col) {
            Ok(v) => x matches Ok(y) && y.view() == v,
            Err(m) => x matches Err(y) && y@ == m,
        },
{
    if !(d_row == 0 && d_col == 0) {
        let input_chars = formula_body_chars(formula);
        let input = string_from_chars(&input_chars);
        if let Ok((_, refs)) = parse_with_refs(&input) {
            let key = str_chars(move_sheet_key);
            let ghost rv = view_refs(refs@);
            let mut i: usize = 0;
            let mut stop = false;
            while i < refs.len() && !stop
                invariant
                    0 <= i <= refs@.len(),
                    rv == view_refs(refs@),
                    rv.len() == refs@.len(),
                    !(d_row == 0 && d_col == 0),
                    key@ == move_sheet_key@,
                    spec_parse_with_refs(formula_body(formula@)) matches Ok((_, x)) && x == rv,
                    forall|k: int|
                        0 <= k < i && no_ambiguous_before(rv, k, key@, source) ==> #[trigger] move_ref_fits(
                            rv[k],
                            key@,
                            source,
                            d_row,
                            d_col,
                        ),
                    !stop ==> no_ambiguous_before(rv, i as int, key@, source),
                    stop ==> 0 < i && ref_ambiguous(rv[i - 1], key@, source),
                decreases refs@.len() - i,
            {
                proof {
                    assert(rv[i as int] == refs@[i as int].view());
                }
                if !move_ref_fits_exec(&refs[i], &key, &source, d_row, d_col) {
                    proof {
                        assert(!move_ref_fits(rv[i as int], key@, source, d_row, d_col));
                    }
                    return None;
                }
                if ref_ambiguous_exec(&refs[i], &key, &source) {
                    stop = true;
                }
                i = i + 1;
            }
            proof {
                assert forall|k: int|
                    0 <= k < rv.len() && no_ambiguous_before(rv, k, key@, source) implies #[trigger] move_ref_fits(
                    rv[k],
                    key@,
                    source,
                    d_row,
                    d_col,
                ) by {
                    if k >= i {
                        assert(stop);
                        assert(!ref_ambiguous(rv[i - 1], key@, source));
                    }
                }
            }
        }
    }
    Some(translate_references_for_move(formula, move_sheet_key, source, d_row, d_col))
}

// ── Defined names ───────────────────────────────────────────────────────

/// Outcome of `rewrite_defined_name_for_renames` for one `<definedName>`
/// value.
#[derive(Debug, Clone, PartialEq, Eq)]
pub enum DefinedNameRewrite {
    /// No tracked rename affects this value: its text passes through
    /// unmodified.
    Unchanged,
    /// At least one tracked rename's old sheet qualifier was rewritten.
    Rewritten(String),
    /// The value could not be confirmed either way and its text plausibly
    /// names one of the renamed sheets: drop this one element.
    Drop,
}

/// The view of a `DefinedNameRewrite`.
pub enum DefinedV {
    Unchanged,
    Rewritten(Seq<char>),
    Drop,
}

impl DefinedNameRewrite {
    pub open spec fn view(&self) -> DefinedV {
        match self {
            DefinedNameRewrite::Unchanged => DefinedV::Unchanged,
            DefinedNameRewrite::Rewritten(s) => DefinedV::Rewritten(s@),
            DefinedNameRewrite::Drop => DefinedV::Drop,
        }
    }
}

/// The renames as `(old lowercased key, new display name)` char sequences.
pub open spec fn renames_view(renames: Seq<(String, String)>) -> Seq<(Seq<char>, Seq<char>)> {
    renames.map_values(|p: (String, String)| (p.0@, p.1@))
}

/// The patch renaming one reference by the renames: its qualifier text
/// becomes the qualifier of the new name tracked for the qualifier's name,
/// lowercased, when there is one.
pub open spec fn map_rename_ref_patches(r: RefV, renames: Seq<(Seq<char>, Seq<char>)>) -> Seq<PatchV> {
    match ref_sheet(r) {
        Some(q) => match rename_lookup(renames, unicode_lowercase(q.normalized_name)) {
            Some(n) => seq![(q.raw_span.0 as int, q.raw_span.1 as int, qualifier_text(n))],
            None => Seq::empty(),
        },
        None => Seq::empty(),
    }
}

pub open spec fn map_rename_patches(refs: Seq<RefV>, renames: Seq<(Seq<char>, Seq<char>)>) -> Seq<PatchV> {
    collect_patches(refs, |r: RefV| map_rename_ref_patches(r, renames))
}

/// The formula path of a defined-name rewrite: every sheet qualifier of the
/// normalized formula text is renamed once, by the rename of the sheet it
/// names. `Ok(None)` when no qualifier names a renamed sheet; `Err` with the
/// parse error's message.
pub open spec fn spec_rename_by_map(
    formula: Seq<char>,
    renames: Seq<(Seq<char>, Seq<char>)>,
) -> Result<Option<Seq<char>>, Seq<char>> {
    let input = formula_body(formula);
    match spec_parse_with_refs(input) {
        Err(e) => Err(err_message(e)),
        Ok((_, refs)) => {
            let ps = map_rename_patches(refs, renames);
            if ps.len() == 0 {
                Ok(None)
            } else {
                Ok(Some(splice(input, ps)))
            }
        },
    }
}

proof fn lemma_map_rename_patches_within(refs: Seq<RefV>, renames: Seq<(Seq<char>, Seq<char>)>, bound: int)
    requires
        refs_ordered(refs, bound),
    ensures
        patches_within(map_rename_patches(refs, renames), 0, bound),
{
    let f = |r: RefV| map_rename_ref_patches(r, renames);
    assert forall|r: RefV| ref_spans_ordered(r) implies #[trigger] patches_within(
        f(r),
        ref_begin(r),
        ref_end(r),
    ) by {
        match r {
            RefV::Cell { .. } => {},
            RefV::Range { .. } => {},
        }
    }
    lemma_collect_patches_within(refs, f, bound);
}

/// Appends the patch that renaming `r` by the renames makes.
fn push_map_rename_patches(r: &RefOccurrence, renames: &Vec<(String, String)>, out: &mut Vec<Patch>)
    ensures
        view_patches(final(out)@) == view_patches(old(out)@) + map_rename_ref_patches(
            r.view(),
            renames_view(renames@),
        ),
{
    let sheet = match r {
        RefOccurrence::Cell { sheet, .. } => sheet,
        RefOccurrence::Range { sheet, .. } => sheet,
    };
    let ghost expected = map_rename_ref_patches(r.view(), renames_view(renames@));
    match sheet {
        Some(q) => {
            let name = string_chars(&q.normalized_name);
            let lower = chars_to_lowercase(&name);
            match lookup_rename(renames, &lower) {
                Some(new_name) => {
                    let text = format_sheet_qualifier(&new_name);
                    push_patch(out, q.raw_span.0, q.raw_span.1, text);
                    proof {
                        assert(view_patches(out@) =~= view_patches(old(out)@) + expected);
                    }
                },
                None => {
                    proof {
                        assert(view_patches(out@) + expected =~= view_patches(out@));
                    }
                },
            }
        },
        None => {
            proof {
                assert(view_patches(out@) + expected =~= view_patches(out@));
            }
        },
    }
}

/// Renames every sheet qualifier of `formula` once, by the rename of the
/// sheet it names (`renames` holds `(old lowercased key, new display name)`;
/// a key listed twice takes its first entry). `Ok(None)` when no qualifier
/// names a renamed sheet; `Err` when the formula does not parse.
fn rename_qualifiers_once(formula: &str, renames: &Vec<(String, String)>) -> (r: Result<Option<String>, String>)
    ensures
        match spec_rename_by_map(formula@, renames_view(renames@)) {
            Ok(None) => r matches Ok(None),
            Ok(Some(t)) => r matches Ok(Some(x)) && x@ == t,
            Err(m) => r matches Err(x) && x@ == m,
        },
{
    let input_chars = formula_body_chars(formula);
    let input = string_from_chars(&input_chars);
    let (_, refs) = parse_with_refs(&input)?;
    let ghost rv = view_refs(refs@);
    let ghost rn = renames_view(renames@);
    let ghost f = |r: RefV| map_rename_ref_patches(r, rn);
    let mut patches: Vec<Patch> = Vec::new();
    let mut i: usize = 0;
    proof {
        assert(view_patches(patches@) =~= collect_patches(rv.subrange(0, 0), f));
    }
    while i < refs.len()
        invariant
            0 <= i <= refs@.len(),
            rv == view_refs(refs@),
            rv.len() == refs@.len(),
            rn == renames_view(renames@),
            f == (|r: RefV| map_rename_ref_patches(r, rn)),
            view_patches(patches@) == collect_patches(rv.subrange(0, i as int), f),
        decreases refs@.len() - i,
    {
        proof {
            assert(rv[i as int] == refs@[i as int].view());
            let pre = rv.subrange(0, i + 1);
            assert(pre.drop_last() == rv.subrange(0, i as int));
            assert(pre.last() == rv[i as int]);
        }
        push_map_rename_patches(&refs[i], renames, &mut patches);
        i = i + 1;
    }
    proof {
        assert(rv.subrange(0, rv.len() as int) == rv);
        lemma_formula_body_len(input@);
        lemma_map_rename_patches_within(rv, rn, formula_body(input@).len() as int);
    }
    if patches.len() == 0 {
        return Ok(None);
    }
    let out = apply_patches(&input_chars, &patches);
    Ok(Some(string_from_chars(&out)))
}

/// `s` split at every `sep` (always at least one item).
pub open spec fn split_on(s: Seq<char>, sep: char) -> Seq<Seq<char>>
    decreases s.len(),
{
    if s.len() == 0 {
        seq![Seq::empty()]
    } else {
        let init = split_on(s.drop_last(), sep);
        if s.last() == sep {
            init.push(Seq::empty())
        } else {
            init.update(init.len() - 1, init.last().push(s.last()))
        }
    }
}

/// The new name tracked for `key` (the first entry with that key).
pub open spec fn rename_lookup(renames: Seq<(Seq<char>, Seq<char>)>, key: Seq<char>) -> Option<Seq<char>>
    decreases renames.len(),
{
    if renames.len() == 0 {
        None
    } else if renames[0].0 == key {
        Some(renames[0].1)
    } else {
        rename_lookup(renames.drop_first(), key)
    }
}

/// Nothing but column letters, row digits, `$` and `:`, and not empty.
pub open spec fn bare_reference_body(s: Seq<char>) -> bool {
    s.len() > 0 && forall|k: int| 0 <= k < s.len() ==> #[trigger] is_ascii_alnum(s[k]) || s[k] == '$' || s[k]
        == ':'
}

/// The sheet qualifier `t` starts with, by the formula parser's rule:
/// `(qualifier text with its '!', lowercased name, rest of t)`.
pub open spec fn scan_qualifier(t: Seq<char>) -> Option<(Seq<char>, Seq<char>, Seq<char>)> {
    match sp_qualifier(t, 0) {
        Ok((Some(q), k)) => Some((t.subrange(0, k), unicode_lowercase(q.normalized_name), t.subrange(k, t.len() as int))),
        _ => None,
    }
}

/// One item of a reference list, trimmed and rewritten: a qualifier naming
/// a renamed sheet is replaced by the new name's qualifier; `None` when the
/// item is not a bare reference.
pub open spec fn list_item(item: Seq<char>, renames: Seq<(Seq<char>, Seq<char>)>) -> Option<Seq<char>> {
    let t = trimmed(item);
    match scan_qualifier(t) {
        Some((raw, name, rest)) => if !bare_reference_body(rest) {
            None
        } else {
            match rename_lookup(renames, name) {
                Some(new_name) => Some(qualifier_text(new_name) + seq!['!'] + rest),
                None => Some(raw + rest),
            }
        },
        None => if !bare_reference_body(t) {
            None
        } else {
            Some(t)
        },
    }
}

pub open spec fn list_items(items: Seq<Seq<char>>, renames: Seq<(Seq<char>, Seq<char>)>) -> Option<Seq<Seq<char>>>
    decreases items.len(),
{
    if items.len() == 0 {
        Some(Seq::empty())
    } else {
        match list_items(items.drop_last(), renames) {
            None => None,
            Some(done) => match list_item(items.last(), renames) {
                None => None,
                Some(x) => Some(done.push(x)),
            },
        }
    }
}

/// The comma-separated reference list rewritten item by item, or `None`
/// when some item is outside that grammar.
pub open spec fn spec_reference_list(value: Seq<char>, renames: Seq<(Seq<char>, Seq<char>)>) -> Option<Seq<char>> {
    match list_items(split_on(value, ','), renames) {
        Some(out) => Some(join_with(out, ',')),
        None => None,
    }
}

/// `needle` occurs in `hay`.
pub open spec fn contains_sub(hay: Seq<char>, needle: Seq<char>) -> bool {
    exists|i: int| 0 <= i && i + needle.len() <= hay.len() && #[trigger] hay.subrange(i, i + needle.len()) == needle
}

/// A reference-list item whose qualifier names a renamed sheet.
pub open spec fn item_renamed(item: Seq<char>, renames: Seq<(Seq<char>, Seq<char>)>) -> bool {
    match scan_qualifier(trimmed(item)) {
        Some((_, name, _)) => rename_lookup(renames, name) is Some,
        None => false,
    }
}

/// Some item of the comma-separated list names a renamed sheet.
pub open spec fn list_renamed(value: Seq<char>, renames: Seq<(Seq<char>, Seq<char>)>) -> bool {
    let items = split_on(value, ',');
    exists|i: int| 0 <= i < items.len() && #[trigger] item_renamed(items[i], renames)
}

/// What `rewrite_defined_name_for_renames` gives: `Rewritten` exactly when
/// some sheet qualifier names a renamed sheet (each renamed once), by the
/// formula path when the value parses as a formula, else by the
/// reference-list path; `Unchanged` when no qualifier does; `Drop` when
/// neither path can read the value and a renamed sheet's old key occurs in
/// its lowercased text.
pub open spec fn spec_rewrite_defined_name(value: Seq<char>, renames: Seq<(Seq<char>, Seq<char>)>) -> DefinedV {
    if renames.len() == 0 {
        DefinedV::Unchanged
    } else {
        match spec_rename_by_map(value, renames) {
            Ok(Some(t)) => DefinedV::Rewritten(t),
            Ok(None) => DefinedV::Unchanged,
            Err(_) => match spec_reference_list(value, renames) {
                Some(t) => if list_renamed(value, renames) {
                    DefinedV::Rewritten(t)
                } else {
                    DefinedV::Unchanged
                },
                None => if exists|i: int| 0 <= i < renames.len() && contains_sub(unicode_lowercase(value), #[trigger] renames[i].0) {
                    DefinedV::Drop
                } else {
                    DefinedV::Unchanged
                },
            },
        }
    }
}

fn is_bare_reference_body(body: &Vec<char>) -> (r: bool)
    ensures
        r == bare_reference_body(body@),
{
    if body.len() == 0 {
        return false;
    }
    let mut i: usize = 0;
    while i < body.len()
        invariant
            0 <= i <= body@.len(),
            forall|k: int| 0 <= k < i ==> #[trigger] is_ascii_alnum(body@[k]) || body@[k] == '$' || body@[k] == ':',
        decreases body@.len() - i,
    {
        let c = body[i];
        if !(ascii_alnum(c) || c == '$' || c == ':') {
            return false;
        }
        i = i + 1;
    }
    true
}

/// Scans `item`'s leading `Sheet!` / `'Sheet Name'!` qualifier by the formula
/// parser's own rule: `(qualifier text with its '!', lowercased name, rest)`,
/// or `None` when `item` starts with no qualifier.
fn scan_leading_qualifier(item: &Vec<char>) -> (r: Option<(Vec<char>, Vec<char>, Vec<char>)>)
    ensures
        match scan_qualifier(item@) {
            Some((a, b, c)) => r matches Some((x, y, z)) && x@ == a && y@ == b && z@ == c,
            None => r is None,
        },
{
    let copy = slice_chars(item, 0, item.len());
    proof {
        assert(copy@ =~= item@);
    }
    match leading_sheet_qualifier(copy) {
        Some((q, k)) => {
            let raw = slice_chars(item, 0, k);
            let rest = slice_chars(item, k, item.len());
            let name = string_chars(&q.normalized_name);
            let lower = chars_to_lowercase(&name);
            Some((raw, lower, rest))
        },
        None => None,
    }
}

fn lookup_rename(renames: &Vec<(String, String)>, key: &Vec<char>) -> (r: Option<Vec<char>>)
    ensures
        match rename_lookup(renames_view(renames@), key@) {
            Some(n) => r matches Some(x) && x@ == n,
            None => r is None,
        },
{
    let ghost rv = renames_view(renames@);
    let mut i: usize = 0;
    proof {
        assert(rv.subrange(0, rv.len() as int) == rv);
    }
    while i < renames.len()
        invariant
            0 <= i <= renames@.len(),
            rv == renames_view(renames@),
            rv.len() == renames@.len(),
            rename_lookup(rv, key@) == rename_lookup(rv.subrange(i as int, rv.len() as int), key@),
        decreases renames@.len() - i,
    {
        let old_key = string_chars(&renames[i].0);
        let ghost sub = rv.subrange(i as int, rv.len() as int);
        proof {
            assert(sub[0] == rv[i as int]);
            assert(sub.drop_first() == rv.subrange(i + 1, rv.len() as int));
        }
        if chars_eq(&old_key, key) {
            let n = string_chars(&renames[i].1);
            return Some(n);
        }
        i = i + 1;
    }
    None
}

/// Rewrites one trimmed reference-list item, or `None` outside the grammar.
fn rewrite_list_item(item: &Vec<char>, renames: &Vec<(String, String)>) -> (r: Option<Vec<char>>)
    ensures
        match list_item(item@, renames_view(renames@)) {
            Some(t) => r matches Some(x) && x@ == t,
            None => r is None,
        },
{
    let (a, b) = trim_bounds(item);
    let t = slice_chars(item, a, b);
    match scan_leading_qualifier(&t) {
        Some((raw, name, rest)) => {
            if !is_bare_reference_body(&rest) {
                return None;
            }
            match lookup_rename(renames, &name) {
                Some(new_name) => {
                    let mut out = format_sheet_qualifier(&new_name);
                    out.push('!');
                    push_all(&mut out, &rest);
                    Some(out)
                },
                None => {
                    let mut out: Vec<char> = Vec::new();
                    push_all(&mut out, &raw);
                    push_all(&mut out, &rest);
                    proof {
                        assert(out@ =~= raw@ + rest@);
                    }
                    Some(out)
                },
            }
        },
        None => {
            if !is_bare_reference_body(&t) {
                return None;
            }
            Some(t)
        },
    }
}

pub open spec fn view_items(items: Seq<Vec<char>>) -> Seq<Seq<char>> {
    items.map_values(|v: Vec<char>| v@)
}

fn split_chars(s: &Vec<char>, sep: char) -> (r: Vec<Vec<char>>)
    ensures
        view_items(r@) == split_on(s@, sep),
{
    let mut items: Vec<Vec<char>> = Vec::new();
    let mut cur: Vec<char> = Vec::new();
    let mut i: usize = 0;
    proof {
        assert(s@.subrange(0, 0) =~= Seq::<char>::empty());
        assert(view_items(items@).push(cur@) =~= split_on(s@.subrange(0, 0), sep));
    }
    while i < s.len()
        invariant
            0 <= i <= s@.len(),
            view_items(items@).push(cur@) == split_on(s@.subrange(0, i as int), sep),
        decreases s@.len() - i,
    {
        let c = s[i];
        let ghost pre = s@.subrange(0, i + 1);
        let ghost before = view_items(items@);
        proof {
            assert(pre.drop_last() =~= s@.subrange(0, i as int));
            assert(pre.last() == c);
        }
        if c == sep {
            let done = cur;
            items.push(done);
            cur = Vec::new();
            proof {
                assert(view_items(items@) =~= before.push(done@));
                assert(view_items(items@).push(cur@) =~= split_on(pre, sep));
            }
        } else {
            cur.push(c);
            proof {
                assert(view_items(items@).push(cur@) =~= split_on(pre, sep));
            }
        }
        i = i + 1;
    }
    let ghost before = view_items(items@);
    items.push(cur);
    proof {
        assert(s@.subrange(0, s@.len() as int) =~= s@);
        assert(view_items(items@) =~= before.push(cur@));
    }
    items
}

fn join_chars(items: &Vec<Vec<char>>, sep: char) -> (r: Vec<char>)
    ensures
        r@ == join_with(view_items(items@), sep),
{
    let ghost vi = view_items(items@);
    let mut out: Vec<char> = Vec::new();
    let mut i: usize = 0;
    proof {
        assert(vi.subrange(0, 0) =~= Seq::<Seq<char>>::empty());
    }
    while i < items.len()
        invariant
            0 <= i <= items@.len(),
            vi == view_items(items@),
            vi.len() == items@.len(),
            out@ == join_with(vi.subrange(0, i as int), sep),
        decreases items@.len() - i,
    {
        let ghost pre = vi.subrange(0, i + 1);
        proof {
            assert(pre.drop_last() =~= vi.subrange(0, i as int));
            assert(pre.last() == items@[i as int]@);
        }
        if i > 0 {
            out.push(sep);
        }
        push_all(&mut out, &items[i]);
        proof {
            if i == 0 {
                assert(pre.len() == 1);
                assert(out@ =~= pre[0]);
            } else {
                assert(out@ =~= join_with(pre.drop_last(), sep) + seq![sep] + pre.last());
            }
        }
        i = i + 1;
    }
    proof {
        assert(vi.subrange(0, vi.len() as int) =~= vi);
    }
    out
}

/// A comma-separated reference-list rewrite: every item is optionally
/// sheet-qualified, followed by nothing but column letters, row digits, `$`
/// and `:`. `None` the instant any item falls outside this grammar.
fn rewrite_reference_list_for_renames(value: &Vec<char>, renames: &Vec<(String, String)>) -> (r: Option<Vec<char>>)
    ensures
        match spec_reference_list(value@, renames_view(renames@)) {
            Some(t) => r matches Some(x) && x@ == t,
            None => r is None,
        },
{
    let items = split_chars(value, ',');
    let ghost vi = view_items(items@);
    let ghost rn = renames_view(renames@);
    let mut out_items: Vec<Vec<char>> = Vec::new();
    let mut i: usize = 0;
    proof {
        assert(vi.subrange(0, 0) =~= Seq::<Seq<char>>::empty());
        assert(view_items(out_items@) =~= Seq::<Seq<char>>::empty());
    }
    while i < items.len()
        invariant
            0 <= i <= items@.len(),
            vi == view_items(items@),
            vi == split_on(value@, ','),
            vi.len() == items@.len(),
            rn == renames_view(renames@),
            list_items(vi.subrange(0, i as int), rn) == Some(view_items(out_items@)),
        decreases items@.len() - i,
    {
        let ghost pre = vi.subrange(0, i + 1);
        let ghost before = view_items(out_items@);
        proof {
            assert(pre.drop_last() =~= vi.subrange(0, i as int));
            assert(pre.last() == items@[i as int]@);
        }
        match rewrite_list_item(&items[i], renames) {
            Some(x) => {
                let ghost xv = x@;
                out_items.push(x);
                proof {
                    assert(view_items(out_items@) =~= before.push(xv));
                }
            },
            None => {
                proof {
                    assert(list_items(pre, rn) is None);
                    lemma_list_items_none_extends(vi, rn, i + 1);
                    assert(vi.subrange(0, vi.len() as int) =~= vi);
                }
                return None;
            },
        }
        i = i + 1;
    }
    proof {
        assert(vi.subrange(0, vi.len() as int) =~= vi);
    }
    Some(join_chars(&out_items, ','))
}

proof fn lemma_list_items_none_extends(items: Seq<Seq<char>>, renames: Seq<(Seq<char>, Seq<char>)>, i: int)
    requires
        0 <= i <= items.len(),
        list_items(items.subrange(0, i), renames) is None,
    ensures
        list_items(items, renames) is None,
    decreases items.len() - i,
{
    if i < items.len() {
        let pre = items.subrange(0, i + 1);
        assert(pre.drop_last() == items.subrange(0, i));
        lemma_list_items_none_extends(items, renames, i + 1);
    } else {
        assert(items.subrange(0, i) == items);
    }
}

fn matches_at(hay: &Vec<char>, needle: &Vec<char>, i: usize) -> (r: bool)
    requires
        i + needle@.len() <= hay@.len(),
    ensures
        r == (hay@.subrange(i as int, i + needle@.len()) == needle@),
{
    let mut k: usize = 0;
    while k < needle.len()
        invariant
            0 <= k <= needle@.len(),
            i + needle@.len() <= hay.len(),
            forall|j: int| 0 <= j < k ==> hay@[i + j] == needle@[j],
        decreases needle@.len() - k,
    {
        if hay[i + k] != needle[k] {
            proof {
                assert(hay@.subrange(i as int, i + needle@.len())[k as int] != needle@[k as int]);
            }
            return false;
        }
        k = k + 1;
    }
    proof {
        assert(hay@.subrange(i as int, i + needle@.len()) =~= needle@);
    }
    true
}

/// Does `needle` occur in `hay`?
fn contains_chars(hay: &Vec<char>, needle: &Vec<char>) -> (r: bool)
    ensures
        r == contains_sub(hay@, needle@),
{
    if needle.len() > hay.len() {
        return false;
    }
    let last = hay.len() - needle.len();
    let mut i: usize = 0;
    while i < last
        invariant
            0 <= i <= last,
            last + needle@.len() == hay@.len(),
            forall|j: int| 0 <= j < i ==> #[trigger] hay@.subrange(j, j + needle@.len()) != needle@,
        decreases last - i,
    {
        if matches_at(hay, needle, i) {
            return true;
        }
        i = i + 1;
    }
    matches_at(hay, needle, last)
}

/// Does some item of the comma-separated list name a renamed sheet?
fn list_has_rename(value: &Vec<char>, renames: &Vec<(String, String)>) -> (r: bool)
    ensures
        r == list_renamed(value@, renames_view(renames@)),
{
    let items = split_chars(value, ',');
    let ghost vi = view_items(items@);
    let ghost rn = renames_view(renames@);
    let mut i: usize = 0;
    while i < items.len()
        invariant
            0 <= i <= items@.len(),
            vi == view_items(items@),
            vi == split_on(value@, ','),
            vi.len() == items@.len(),
            rn == renames_view(renames@),
            forall|j: int| 0 <= j < i ==> !#[trigger] item_renamed(vi[j], rn),
        decreases items@.len() - i,
    {
        let (a, b) = trim_bounds(&items[i]);
        let t = slice_chars(&items[i], a, b);
        proof {
            assert(items@[i as int]@ == vi[i as int]);
        }
        match scan_leading_qualifier(&t) {
            Some((_, name, _)) => {
                match lookup_rename(renames, &name) {
                    Some(_) => {
                        proof {
                            assert(item_renamed(vi[i as int], rn));
                        }
                        return true;
                    },
                    None => {},
                }
            },
            None => {},
        }
        i = i + 1;
    }
    false
}

/// Rewrites a `<definedName>` element's raw text value for the sheet
/// renames in `renames` (`(old lowercased key, new display name)`; a key
/// listed twice takes its first entry). Each sheet qualifier is renamed
/// once, by the rename of the sheet it names. Two paths, tried in order: the
/// formula-reference rewriter; if that cannot parse the value, the narrower
/// comma-separated reference-list grammar. The value is `Rewritten` only
/// when some qualifier names a renamed sheet, and otherwise passes through
/// `Unchanged`. If neither path can make sense of the value, it is left
/// alone when no rename's old key occurs in its lowercased text, and dropped
/// otherwise.
pub fn rewrite_defined_name_for_renames(value: &str, renames: &Vec<(String, String)>) -> (r: DefinedNameRewrite)
    ensures
        r.view() == spec_rewrite_defined_name(value@, renames_view(renames@)),
{
    if renames.len() == 0 {
        return DefinedNameRewrite::Unchanged;
    }
    match rename_qualifiers_once(value, renames) {
        Ok(Some(t)) => DefinedNameRewrite::Rewritten(t),
        Ok(None) => DefinedNameRewrite::Unchanged,
        Err(_) => defined_name_fallback(value, renames),
    }
}

/// The fallback once the formula path cannot parse the value: the
/// reference-list grammar, else drop the value when a renamed sheet's old
/// key occurs in it.
fn defined_name_fallback(value: &str, renames: &Vec<(String, String)>) -> (r: DefinedNameRewrite)
    requires
        renames@.len() > 0,
        spec_rename_by_map(value@, renames_view(renames@)) is Err,
    ensures
        r.view() == spec_rewrite_defined_name(value@, renames_view(renames@)),
{
    let ghost rn = renames_view(renames@);
    let value_chars = str_chars(value);
    match rewrite_reference_list_for_renames(&value_chars, renames) {
        Some(rewritten) => {
            if list_has_rename(&value_chars, renames) {
                DefinedNameRewrite::Rewritten(string_from_chars(&rewritten))
            } else {
                DefinedNameRewrite::Unchanged
            }
        },
        None => {
            let lower = chars_to_lowercase(&value_chars);
            let mut k: usize = 0;
            while k < renames.len()
                invariant
                    0 <= k <= renames@.len(),
                    rn == renames_view(renames@),
                    rn.len() == renames@.len(),
                    lower@ == unicode_lowercase(value@),
                    rn.len() > 0,
                    spec_rename_by_map(value@, rn) is Err,
                    spec_reference_list(value@, rn) is None,
                    forall|j: int| 0 <= j < k ==> !contains_sub(lower@, #[trigger] rn[j].0),
                decreases renames@.len() - k,
            {
                let key = string_chars(&renames[k].0);
                proof {
                    assert(rn[k as int].0 == key@);
                }
                if contains_chars(&lower, &key) {
                    proof {
                        assert(contains_sub(unicode_lowercase(value@), rn[k as int].0));
                    }
                    return DefinedNameRewrite::Drop;
                }
                k = k + 1;
            }
            DefinedNameRewrite::Unchanged
        },
    }
}

// ── Laws ─────────────────────────────────────────────────────────────────

/// Inserting `count` rows (or columns) at `at` and then deleting the same
/// band gives every cell coordinate back: the insert moves it out of the
/// band's way, the delete moves it back.
pub proof fn law_delete_undoes_insert(idx: u32, at: u32, count: u32)
    requires
        shift_fits(idx, StructuralEdit::Insert { at, count }),
        at + count <= u32::MAX,
    ensures
        match spec_shift_cell_coord(idx, StructuralEdit::Insert { at, count }) {
            CellShift::Moved(n) => spec_shift_cell_coord(n, StructuralEdit::Delete { at, count })
                == CellShift::Moved(idx),
            CellShift::Unchanged => spec_shift_cell_coord(idx, StructuralEdit::Delete { at, count })
                == CellShift::Unchanged,
            CellShift::Deleted => false,
        },
{
}

/// The same for range corners: after an insert and the delete of the same
/// band, both bounds of a range are where they were.
pub proof fn law_range_bounds_restored(idx: u32, at: u32, count: u32)
    requires
        shift_fits(idx, StructuralEdit::Insert { at, count }),
        at + count <= u32::MAX,
    ensures
        spec_shift_bound_low(
            spec_shift_bound_low(idx, StructuralEdit::Insert { at, count }) as u32,
            StructuralEdit::Delete { at, count },
        ) == idx,
        spec_shift_bound_high(
            spec_shift_bound_high(idx, StructuralEdit::Insert { at, count }) as u32,
            StructuralEdit::Delete { at, count },
        ) == idx,
{
}

/// `escape_quotes` read from the front: the first char's escape, then the
/// rest escaped.
proof fn lemma_escape_quotes_front(s: Seq<char>)
    requires
        s.len() > 0,
    ensures
        escape_quotes(s) == (if s[0] == '\'' {
            seq!['\'', '\'']
        } else {
            seq![s[0]]
        }) + escape_quotes(s.drop_first()),
    decreases s.len(),
{
    if s.len() == 1 {
        assert(s.drop_last() =~= Seq::<char>::empty());
        assert(s.drop_first() =~= Seq::<char>::empty());
        assert(s.last() == s[0]);
    } else {
        let t = s.drop_last();
        lemma_escape_quotes_front(t);
        assert(t.drop_first() =~= s.drop_first().drop_last());
        assert(s.drop_first().last() == s.last());
        assert(t[0] == s[0]);
        let e0 = if s[0] == '\'' {
            seq!['\'', '\'']
        } else {
            seq![s[0]]
        };
        let el = if s.last() == '\'' {
            seq!['\'', '\'']
        } else {
            seq![s.last()]
        };
        assert(escape_quotes(s.drop_first()) == escape_quotes(s.drop_first().drop_last()) + el);
        assert(escape_quotes(s) =~= e0 + escape_quotes(s.drop_first()));
    }
}

/// Scanning a quoted name whose chars were escaped by `escape_quotes` stops
/// at the closing quote and gives the name back.
proof fn lemma_quoted_scan_escaped(p: Seq<char>, name: Seq<char>, t: Seq<char>)
    requires
        t.len() >= 1,
        t[0] == '\'',
        t.len() >= 2 ==> t[1] != '\'',
    ensures
        quoted_scan(p + escape_quotes(name) + t, p.len() as int, '\'') == Some(
            ((p.len() + escape_quotes(name).len() + 1) as int, name),
        ),
    decreases name.len(),
{
    let s = p + escape_quotes(name) + t;
    let j = p.len() as int;
    if name.len() == 0 {
        assert(escape_quotes(name) =~= Seq::<char>::empty());
        assert(s[j] == '\'');
        assert(!is_char(s, j + 1, '\''));
        assert(name =~= Seq::<char>::empty());
    } else {
        lemma_escape_quotes_front(name);
        let rest = name.drop_first();
        if name[0] == '\'' {
            let p2 = p + seq!['\'', '\''];
            assert(s =~= p2 + escape_quotes(rest) + t);
            assert(s[j] == '\'');
            assert(s[j + 1] == '\'');
            lemma_quoted_scan_escaped(p2, rest, t);
            assert(seq!['\''] + rest =~= name);
        } else {
            let p2 = p + seq![name[0]];
            assert(s =~= p2 + escape_quotes(rest) + t);
            assert(s[j] == name[0]);
            lemma_quoted_scan_escaped(p2, rest, t);
            assert(seq![name[0]] + rest =~= name);
        }
    }
}

/// The two ASCII punctuation chars the qualifier syntax rests on are not
/// letters: `!` is not alphanumeric and `'` is not alphabetic.
pub open spec fn qualifier_punctuation_is_not_letters() -> bool {
    !unicode_alphanumeric('!') && !unicode_alphabetic('\'')
}

/// A sheet name written as its qualifier text, followed by `!`, reads back
/// by the formula parser's qualifier rule as a qualifier naming exactly that
/// sheet and spanning exactly that text. A name that needs quoting always
/// reads back; a plain name reads back given that `!` and `'` are not
/// letters (Unicode's properties for them, which this library names rather
/// than states).
pub proof fn law_qualifier_reads_back(name: Seq<char>, rest: Seq<char>)
    ensures
        (!plain_sheet_name(name) || qualifier_punctuation_is_not_letters()) ==> ({
            let q = qualifier_text(name);
            sp_qualifier(q + seq!['!'] + rest, 0) == Ok::<(Option<QualV>, int), ErrV>(
                (
                    Some(
                        QualV {
                            raw_span: (0usize, q.len() as usize),
                            raw_text: q,
                            normalized_name: name,
                        },
                    ),
                    q.len() + 1int,
                ),
            )
        }),
{
    let q = qualifier_text(name);
    let s = q + seq!['!'] + rest;
    if !plain_sheet_name(name) {
        let t = seq!['\''] + seq!['!'] + rest;
        assert(s =~= seq!['\''] + escape_quotes(name) + t);
        lemma_quoted_scan_escaped(seq!['\''], name, t);
        let k: int = escape_quotes(name).len() + 2int;
        assert(s[k] == '!');
        assert(s.subrange(0, k) =~= q);
    } else if qualifier_punctuation_is_not_letters() {
        assert(s[0] == name[0]);
        assert(s[0] != '\'');
        assert forall|k: int| 0 <= k < name.len() implies (#[trigger] unicode_alphanumeric(s[k]) || s[k] == '_') by {
            assert(s[k] == name[k]);
        }
        lemma_name_end_at(s, 0, name.len() as int);
        assert(s.subrange(0, name.len() as int) =~= name);
    }
}

/// `name_end` from `i` reaches `j` when every char in between is a name char
/// and the char at `j` is not.
proof fn lemma_name_end_at(s: Seq<char>, i: int, j: int)
    requires
        0 <= i <= j < s.len(),
        forall|k: int| i <= k < j ==> (#[trigger] unicode_alphanumeric(s[k]) || s[k] == '_'),
        !(unicode_alphanumeric(s[j]) || s[j] == '_'),
    ensures
        name_end(s, i) == j,
    decreases j - i,
{
    if i < j {
        lemma_name_end_at(s, i + 1, j);
    }
}

} // verus!
