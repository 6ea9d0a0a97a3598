//! A1-style cell references for 1-based `(row, column)` coordinates.

use vstd::prelude::*;
use crate::text::{col_to_letters, decimal, fmt_u64, push_all, string_from_chars};

verus! {

/// The text of cell `(row, col)`: its column letters, then its row number.
pub open spec fn cell_ref_text(row: u32, col: u32) -> Seq<char> {
    crate::text::col_letters(col as nat) + decimal(row as nat)
}

/// The text of a rectangle `((r1, c1), (r2, c2))`: one cell when both
/// corners coincide, else `start:end`.
pub open spec fn rect_text(rect: ((u32, u32), (u32, u32))) -> Seq<char> {
    let ((r1, c1), (r2, c2)) = rect;
    if r1 == r2 && c1 == c2 {
        cell_ref_text(r1, c1)
    } else {
        cell_ref_text(r1, c1) + seq![':'] + cell_ref_text(r2, c2)
    }
}

/// The letters of the 1-based column `col` (`1` -> `A`, `27` -> `AA`;
/// `0` has none).
pub fn col_letters(col: u32) -> (r: String)
    ensures
        r@ == crate::text::col_letters(col as nat),
{
    let v = col_to_letters(col);
    string_from_chars(&v)
}

pub(crate) fn cell_ref_chars(row: u32, col: u32) -> (r: Vec<char>)
    ensures
        r@ == cell_ref_text(row, col),
{
    let mut v = col_to_letters(col);
    let digits = fmt_u64(row as u64);
    push_all(&mut v, &digits);
    v
}

/// The A1 reference of the 1-based cell `(row, col)`.
pub fn cell_ref(row: u32, col: u32) -> (r: String)
    ensures
        r@ == cell_ref_text(row, col),
{
    let v = cell_ref_chars(row, col);
    string_from_chars(&v)
}

/// Appends the A1 text of a 1-based rectangle.
pub(crate) fn push_rect_text(out: &mut Vec<char>, rect: ((u32, u32), (u32, u32)))
    ensures
        final(out)@ == old(out)@ + rect_text(rect),
{
    let ghost before = out@;
    let ((r1, c1), (r2, c2)) = rect;
    let start = cell_ref_chars(r1, c1);
    push_all(out, &start);
    if !(r1 == r2 && c1 == c2) {
        out.push(':');
        let end = cell_ref_chars(r2, c2);
        push_all(out, &end);
    }
    proof {
        assert(out@ =~= before + rect_text(rect));
    }
}

/// The A1 text of a 1-based rectangle: `B2` for a single cell, `A1:C3`
/// otherwise.
pub fn format_rect(rect: &((u32, u32), (u32, u32))) -> (r: String)
    ensures
        r@ == rect_text(*rect),
{
    let ((r1, c1), (r2, c2)) = *rect;
    let mut v = cell_ref_chars(r1, c1);
    if !(r1 == r2 && c1 == c2) {
        v.push(':');
        let end = cell_ref_chars(r2, c2);
        push_all(&mut v, &end);
    }
    string_from_chars(&v)
}

} // verus!
