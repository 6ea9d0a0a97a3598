//! The worksheet parts (`xl/worksheets/sheetN.xml`) of a saved package:
//! the fragments carried over from the source around the regenerated
//! hidden columns, rows of cells and merges.
//!
//! A floating-point cell value arrives as the text it is written as.

use vstd::prelude::*;
use crate::a1::{cell_ref_chars, cell_ref_text};
use crate::sheetjson::{key_before, key_order, law_key_order_sorts, order_by_key};
use crate::package::{merge_rect_text, merge_rect_to_a1, push_xml_escaped, xml_escaped};
use crate::text::{
    decimal, decimal_int, fmt_i64, fmt_u64, push_all, push_str_chars, str_chars, string_chars, string_from_chars,
    trim_bounds, trimmed,
};
use crate::types::{error_text, ExcelError};

verus! {

/// A cell value as a saved part writes it. A floating-point value is
/// held as the text it is written as; `Blank` stands for the values that
/// are written without a value (empty, null, arrays and records).
pub enum SavedCellValue {
    Integer(i64),
    Float(String),
    Date(i64),
    Str(String),
    Error(ExcelError),
    Boolean(bool),
    Blank,
}

/// The index of the first shared string equal to `s`.
pub open spec fn string_index(index: Seq<(String, usize)>, s: Seq<char>) -> Option<usize>
    decreases index.len(),
{
    if index.len() == 0 {
        None
    } else if index[0].0@ == s {
        Some(index[0].1)
    } else {
        string_index(index.drop_first(), s)
    }
}

/// A formula with leading `=` signs removed.
pub open spec fn without_leading_eq(s: Seq<char>) -> Seq<char>
    decreases s.len(),
{
    if s.len() > 0 && s[0] == '=' {
        without_leading_eq(s.drop_first())
    } else {
        s
    }
}

/// ` s="N"` for a style index; nothing without one.
pub open spec fn style_attr(style_idx: Option<u32>) -> Seq<char> {
    match style_idx {
        Some(i) => " s=\""@ + decimal(i as nat) + "\""@,
        None => Seq::empty(),
    }
}

/// `<f>...</f>` for a formula, trimmed, without leading `=`, escaped;
/// nothing without one.
pub open spec fn formula_tag(formula: Option<Seq<char>>) -> Seq<char> {
    match formula {
        Some(f) => "<f>"@ + xml_escaped(without_leading_eq(trimmed(f))) + "</f>"@,
        None => Seq::empty(),
    }
}

/// The `<c>` element of a cell, or none for a value written as no cell.
pub open spec fn cell_xml(
    cell_ref: Seq<char>,
    v: SavedCellValue,
    index: Seq<(String, usize)>,
    style_idx: Option<u32>,
    formula: Option<Seq<char>>,
) -> Option<Seq<char>> {
    let head = "<c r=\""@ + cell_ref + "\""@ + style_attr(style_idx);
    let f = formula_tag(formula);
    match v {
        SavedCellValue::Integer(n) => Some(head + ">"@ + f + "<v>"@ + decimal_int(n as int) + "</v></c>"@),
        SavedCellValue::Float(t) => Some(head + ">"@ + f + "<v>"@ + t@ + "</v></c>"@),
        SavedCellValue::Date(n) => Some(head + ">"@ + f + "<v>"@ + decimal_int(n as int) + "</v></c>"@),
        SavedCellValue::Str(s) => Some(
            head + " t=\"s\">"@ + f + "<v>"@ + decimal(string_index(index, s@).unwrap() as nat) + "</v></c>"@,
        ),
        SavedCellValue::Error(e) => Some(head + " t=\"e\">"@ + f + "<v>"@ + error_text(e) + "</v></c>"@),
        SavedCellValue::Boolean(b) => Some(
            head + " t=\"b\">"@ + f + "<v>"@ + (if b {
                "1"@
            } else {
                "0"@
            }) + "</v></c>"@,
        ),
        SavedCellValue::Blank => None,
    }
}

/// A cell's formula is written, whatever the type of its value: the element
/// with a formula is the element without one with `<f>formula</f>`
/// (trimmed, leading `=` removed, escaped) inserted right after its opening
/// tag; a blank value is written as no element at all.
#[verifier::spinoff_prover]
pub proof fn law_formula_written_for_every_value(
    cell_ref: Seq<char>,
    v: SavedCellValue,
    index: Seq<(String, usize)>,
    style_idx: Option<u32>,
    f: Seq<char>,
)
    ensures
        v is Blank ==> cell_xml(cell_ref, v, index, style_idx, Some(f)) is None && cell_xml(
            cell_ref,
            v,
            index,
            style_idx,
            None,
        ) is None,
        !(v is Blank) ==> cell_xml(cell_ref, v, index, style_idx, None) is Some && exists|k: int|
            0 < k <= cell_xml(cell_ref, v, index, style_idx, None).unwrap().len() && cell_xml(
                cell_ref,
                v,
                index,
                style_idx,
                None,
            ).unwrap()[k - 1] == '>' && cell_xml(cell_ref, v, index, style_idx, Some(f)) == Some(
                #[trigger] cell_xml(cell_ref, v, index, style_idx, None).unwrap().subrange(0, k) + "<f>"@
                    + xml_escaped(without_leading_eq(trimmed(f))) + "</f>"@ + cell_xml(
                    cell_ref,
                    v,
                    index,
                    style_idx,
                    None,
                ).unwrap().subrange(k, cell_xml(cell_ref, v, index, style_idx, None).unwrap().len() as int),
            ),
{
    let head = "<c r=\""@ + cell_ref + "\""@ + style_attr(style_idx);
    let tag = "<f>"@ + xml_escaped(without_leading_eq(trimmed(f))) + "</f>"@;
    assert(formula_tag(None) =~= Seq::<char>::empty());
    assert(formula_tag(Some(f)) == tag);
    if !(v is Blank) {
        let open = match v {
            SavedCellValue::Str(_) => head + " t=\"s\">"@,
            SavedCellValue::Error(_) => head + " t=\"e\">"@,
            SavedCellValue::Boolean(_) => head + " t=\"b\">"@,
            _ => head + ">"@,
        };
        let tail = match v {
            SavedCellValue::Integer(n) => "<v>"@ + decimal_int(n as int) + "</v></c>"@,
            SavedCellValue::Float(t) => "<v>"@ + t@ + "</v></c>"@,
            SavedCellValue::Date(n) => "<v>"@ + decimal_int(n as int) + "</v></c>"@,
            SavedCellValue::Str(st) => "<v>"@ + decimal(string_index(index, st@).unwrap() as nat) + "</v></c>"@,
            SavedCellValue::Error(e) => "<v>"@ + error_text(e) + "</v></c>"@,
            SavedCellValue::Boolean(b) => "<v>"@ + (if b {
                "1"@
            } else {
                "0"@
            }) + "</v></c>"@,
            SavedCellValue::Blank => Seq::empty(),
        };
        reveal_strlit(">");
        reveal_strlit(" t=\"s\">");
        reveal_strlit(" t=\"e\">");
        reveal_strlit(" t=\"b\">");
        assert(open[open.len() - 1] == '>');
        let x = cell_xml(cell_ref, v, index, style_idx, None).unwrap();
        assert(x =~= open + tail);
        assert(cell_xml(cell_ref, v, index, style_idx, Some(f)).unwrap() =~= open + tag + tail);
        lemma_tag_after_open(open, tag, tail);
        let k = open.len() as int;
        assert(x.subrange(0, k) + tag + x.subrange(k, x.len() as int) == open + tag + tail);
    }
}

/// `open + tag + tail` is `open + tail` with `tag` inserted after `open`.
proof fn lemma_tag_after_open(open: Seq<char>, tag: Seq<char>, tail: Seq<char>)
    requires
        open.len() > 0,
        open[open.len() - 1] == '>',
    ensures
        ({
            let x = open + tail;
            let k = open.len() as int;
            &&& 0 < k <= x.len()
            &&& x[k - 1] == '>'
            &&& open + tag + tail == x.subrange(0, k) + tag + x.subrange(k, x.len() as int)
        }),
{
    let x = open + tail;
    let k = open.len() as int;
    assert(x.subrange(0, k) =~= open);
    assert(x.subrange(k, x.len() as int) =~= tail);
    assert(open + tag + tail =~= x.subrange(0, k) + tag + x.subrange(k, x.len() as int));
}

/// Whether a string value has its shared-string index.
pub open spec fn indexed(v: SavedCellValue, index: Seq<(String, usize)>) -> bool {
    match v {
        SavedCellValue::Str(s) => string_index(index, s@) is Some,
        _ => true,
    }
}

pub open spec fn opt_str_view(o: Option<&str>) -> Option<Seq<char>> {
    match o {
        Some(s) => Some(s@),
        None => None,
    }
}

fn string_index_exec(index: &Vec<(String, usize)>, s: &String) -> (r: Option<usize>)
    ensures
        r == string_index(index@, s@),
{
    let mut i: usize = 0;
    proof {
        assert(index@.subrange(0, index@.len() as int) =~= index@);
    }
    while i < index.len()
        invariant
            0 <= i <= index@.len(),
            string_index(index@, s@) == string_index(index@.subrange(i as int, index@.len() as int), s@),
        decreases index@.len() - i,
    {
        proof {
            let rest = index@.subrange(i as int, index@.len() as int);
            assert(rest[0] == index@[i as int]);
            assert(rest.drop_first() =~= index@.subrange(i + 1, index@.len() as int));
        }
        if index[i].0 == *s {
            return Some(index[i].1);
        }
        i = i + 1;
    }
    None
}

fn push_formula_tag(out: &mut Vec<char>, formula: Option<&str>)
    ensures
        final(out)@ == old(out)@ + formula_tag(opt_str_view(formula)),
{
    let ghost before = out@;
    match formula {
        Some(f) => {
            let chars = str_chars(f);
            let (a, b) = trim_bounds(&chars);
            let mut j: usize = a;
            proof {
                assert(chars@.subrange(a as int, b as int) == trimmed(f@));
            }
            while j < b && chars[j] == '='
                invariant
                    a <= j <= b <= chars@.len(),
                    chars@ == f@,
                    chars@.subrange(a as int, b as int) == trimmed(f@),
                    without_leading_eq(trimmed(f@)) == without_leading_eq(chars@.subrange(j as int, b as int)),
                decreases b - j,
            {
                proof {
                    let t = chars@.subrange(j as int, b as int);
                    assert(t[0] == '=');
                    assert(t.drop_first() =~= chars@.subrange(j + 1, b as int));
                }
                j = j + 1;
            }
            proof {
                let t = chars@.subrange(j as int, b as int);
                if j < b {
                    assert(t[0] == chars@[j as int]);
                }
            }
            let mut body: Vec<char> = Vec::new();
            let mut k: usize = j;
            while k < b
                invariant
                    j <= k <= b <= chars@.len(),
                    body@ == chars@.subrange(j as int, k as int),
                decreases b - k,
            {
                body.push(chars[k]);
                proof {
                    assert(body@ =~= chars@.subrange(j as int, k + 1));
                }
                k = k + 1;
            }
            push_str_chars(out, "<f>");
            push_xml_escaped(out, &body);
            push_str_chars(out, "</f>");
        },
        None => {},
    }
    proof {
        assert(out@ =~= before + formula_tag(opt_str_view(formula)));
    }
}

/// The `<c>` element of a cell: `r`, its style index where it has one, its
/// type (`s` with its shared-string index, `e` with the error text, `b`
/// with 1 or 0; none for a number or date serial), the formula (trimmed,
/// without leading `=`) and the value. A blank value writes no element.
#[verifier::spinoff_prover]
#[verifier::rlimit(30)]
pub fn xlsx_cell_xml(
    cell_ref: &str,
    v: &SavedCellValue,
    str_index: &Vec<(String, usize)>,
    style_idx: Option<u32>,
    formula: Option<&str>,
) -> (r: Option<String>)
    requires
        indexed(*v, str_index@),
    ensures
        match r {
            Some(x) => cell_xml(cell_ref@, *v, str_index@, style_idx, opt_str_view(formula)) == Some(x@),
            None => cell_xml(cell_ref@, *v, str_index@, style_idx, opt_str_view(formula)) is None,
        },
{
    if let SavedCellValue::Blank = v {
        return None;
    }
    let mut out: Vec<char> = Vec::new();
    push_str_chars(&mut out, "<c r=\"");
    push_str_chars(&mut out, cell_ref);
    push_str_chars(&mut out, "\"");
    match style_idx {
        Some(i) => {
            push_str_chars(&mut out, " s=\"");
            push_all(&mut out, &fmt_u64(i as u64));
            push_str_chars(&mut out, "\"");
        },
        None => {},
    }
    let ghost head = out@;
    proof {
        assert(head =~= "<c r=\""@ + cell_ref@ + "\""@ + style_attr(style_idx));
    }
    match v {
        SavedCellValue::Str(_) => push_str_chars(&mut out, " t=\"s\">"),
        SavedCellValue::Error(_) => push_str_chars(&mut out, " t=\"e\">"),
        SavedCellValue::Boolean(_) => push_str_chars(&mut out, " t=\"b\">"),
        _ => push_str_chars(&mut out, ">"),
    }
    let ghost typed = out@;
    push_formula_tag(&mut out, formula);
    push_str_chars(&mut out, "<v>");
    let ghost opened = out@;
    match v {
        SavedCellValue::Integer(n) => push_all(&mut out, &fmt_i64(*n)),
        SavedCellValue::Float(t) => push_all(&mut out, &string_chars(t)),
        SavedCellValue::Date(n) => push_all(&mut out, &fmt_i64(*n)),
        SavedCellValue::Str(s) => {
            let idx = string_index_exec(str_index, s);
            match idx {
                Some(ix) => push_all(&mut out, &fmt_u64(ix as u64)),
                None => {},
            }
        },
        SavedCellValue::Error(e) => push_str_chars(&mut out, e.as_str()),
        SavedCellValue::Boolean(b) => if *b {
            push_str_chars(&mut out, "1");
        } else {
            push_str_chars(&mut out, "0");
        },
        SavedCellValue::Blank => {},
    }
    let ghost valued = out@;
    push_str_chars(&mut out, "</v></c>");
    proof {
        let f = formula_tag(opt_str_view(formula));
        let x = cell_xml(cell_ref@, *v, str_index@, style_idx, opt_str_view(formula));
        assert(x is Some);
        let vt = valued.subrange(opened.len() as int, valued.len() as int);
        let tt = typed.subrange(head.len() as int, typed.len() as int);
        assert(typed =~= head + tt);
        assert(valued =~= typed + f + "<v>"@ + vt);
        assert(out@ =~= head + tt + f + "<v>"@ + vt + "</v></c>"@);
        assert(x->0 =~= head + tt + f + "<v>"@ + vt + "</v></c>"@);
    }
    Some(string_from_chars(&out))
}

// ── Rows of cells ────────────────────────────────────────────────────────

/// One cell of a worksheet: its 1-based position, value, formula text and
/// the style index it had in the source.
pub struct SheetXmlCell {
    pub row: u32,
    pub col: u32,
    pub value: SavedCellValue,
    pub formula: Option<String>,
    pub style_idx: Option<u32>,
}

pub open spec fn opt_string_view(o: Option<String>) -> Option<Seq<char>> {
    match o {
        Some(s) => Some(s@),
        None => None,
    }
}

/// A cell with a row and a column (neither 0).
pub open spec fn placed(c: SheetXmlCell) -> bool {
    c.row > 0 && c.col > 0
}

/// The line of a cell in `<sheetData>`: its element and a newline, or
/// nothing for a value written as no cell.
pub open spec fn cell_line(c: SheetXmlCell, index: Seq<(String, usize)>) -> Seq<char> {
    match cell_xml(cell_ref_text(c.row, c.col), c.value, index, c.style_idx, opt_string_view(c.formula)) {
        Some(x) => x + "\n"@,
        None => Seq::empty(),
    }
}

/// The lines of the listed cells that lie in row `r`, in list order.
pub open spec fn row_lines(cs: Seq<SheetXmlCell>, idxs: Seq<usize>, r: u32, index: Seq<(String, usize)>) -> Seq<char>
    decreases idxs.len(),
{
    if idxs.len() == 0 {
        Seq::empty()
    } else {
        row_lines(cs, idxs.drop_last(), r, index) + (if cs[idxs.last() as int].row == r {
            cell_line(cs[idxs.last() as int], index)
        } else {
            Seq::empty()
        })
    }
}

/// The indices of the first `n` cells that are placed, in order.
pub open spec fn placed_indices(cs: Seq<SheetXmlCell>, n: nat) -> Seq<usize>
    decreases n,
{
    if n == 0 {
        Seq::empty()
    } else {
        let k = placed_indices(cs, (n - 1) as nat);
        if placed(cs[n - 1]) {
            k.push((n - 1) as usize)
        } else {
            k
        }
    }
}

/// The placed cells' indices in row-then-column order.
pub open spec fn cell_order(cs: Seq<SheetXmlCell>) -> Seq<usize> {
    let v = placed_indices(cs, cs.len());
    key_order(v.map_values(|i: usize| (cs[i as int].row, cs[i as int].col)), v.len()).map_values(|k: usize| v[k as int])
}

/// Whether row `r` lies in one of the hidden intervals.
pub open spec fn row_hidden(hidden: Seq<(u32, u32)>, r: int) -> bool {
    exists|i: int| 0 <= i < hidden.len() && #[trigger] hidden[i].0 <= r <= hidden[i].1
}

/// Whether row `r` is written: it holds a placed cell or is hidden.
pub open spec fn row_written(cs: Seq<SheetXmlCell>, hidden: Seq<(u32, u32)>, r: int) -> bool {
    (exists|i: int| 0 <= i < cs.len() && placed(#[trigger] cs[i]) && cs[i].row == r) || row_hidden(hidden, r)
}

/// The `<row>` element of row `r`: hidden where it is, with the lines of
/// its cells in column order.
pub open spec fn row_text(cs: Seq<SheetXmlCell>, hidden: Seq<(u32, u32)>, r: u32, index: Seq<(String, usize)>) -> Seq<char> {
    "<row r=\""@ + decimal(r as nat) + "\""@ + (if row_hidden(hidden, r as int) {
        " hidden=\"1\""@
    } else {
        Seq::empty()
    }) + ">\n"@ + row_lines(cs, cell_order(cs), r, index) + "</row>\n"@
}

/// The `<row>` elements of the written rows in `[a, b)`, in order.
pub open spec fn rows_range(
    cs: Seq<SheetXmlCell>,
    hidden: Seq<(u32, u32)>,
    index: Seq<(String, usize)>,
    a: int,
    b: int,
) -> Seq<char>
    decreases b - a,
{
    if b <= a {
        Seq::empty()
    } else {
        rows_range(cs, hidden, index, a, b - 1) + (if row_written(cs, hidden, b - 1) && b - 1 <= u32::MAX {
            row_text(cs, hidden, (b - 1) as u32, index)
        } else {
            Seq::empty()
        })
    }
}

proof fn lemma_rows_range_split(
    cs: Seq<SheetXmlCell>,
    hidden: Seq<(u32, u32)>,
    index: Seq<(String, usize)>,
    a: int,
    b: int,
    c: int,
)
    requires
        a <= b <= c,
    ensures
        rows_range(cs, hidden, index, a, c) == rows_range(cs, hidden, index, a, b) + rows_range(cs, hidden, index, b, c),
    decreases c - b,
{
    if b == c {
        assert(rows_range(cs, hidden, index, a, b) + Seq::<char>::empty() =~= rows_range(cs, hidden, index, a, b));
    } else {
        lemma_rows_range_split(cs, hidden, index, a, b, c - 1);
        let x = if row_written(cs, hidden, c - 1) && c - 1 <= u32::MAX {
            row_text(cs, hidden, (c - 1) as u32, index)
        } else {
            Seq::empty()
        };
        assert(rows_range(cs, hidden, index, a, b) + rows_range(cs, hidden, index, b, c - 1) + x =~= rows_range(
            cs,
            hidden,
            index,
            a,
            b,
        ) + (rows_range(cs, hidden, index, b, c - 1) + x));
    }
}

proof fn lemma_rows_range_empty(
    cs: Seq<SheetXmlCell>,
    hidden: Seq<(u32, u32)>,
    index: Seq<(String, usize)>,
    a: int,
    b: int,
)
    requires
        a <= b,
        forall|r: int| a <= r < b ==> !row_written(cs, hidden, r),
    ensures
        rows_range(cs, hidden, index, a, b) == Seq::<char>::empty(),
    decreases b - a,
{
    if a < b {
        lemma_rows_range_empty(cs, hidden, index, a, b - 1);
    }
}

proof fn lemma_row_lines_append(
    cs: Seq<SheetXmlCell>,
    s: Seq<usize>,
    t: Seq<usize>,
    r: u32,
    index: Seq<(String, usize)>,
)
    ensures
        row_lines(cs, s + t, r, index) == row_lines(cs, s, r, index) + row_lines(cs, t, r, index),
    decreases t.len(),
{
    if t.len() == 0 {
        assert(s + t =~= s);
        assert(row_lines(cs, s, r, index) + Seq::<char>::empty() =~= row_lines(cs, s, r, index));
    } else {
        lemma_row_lines_append(cs, s, t.drop_last(), r, index);
        assert((s + t).drop_last() =~= s + t.drop_last());
        assert((s + t).last() == t.last());
        let x = if cs[t.last() as int].row == r {
            cell_line(cs[t.last() as int], index)
        } else {
            Seq::empty()
        };
        assert(row_lines(cs, s, r, index) + row_lines(cs, t.drop_last(), r, index) + x =~= row_lines(cs, s, r, index)
            + (row_lines(cs, t.drop_last(), r, index) + x));
    }
}

proof fn lemma_row_lines_none(cs: Seq<SheetXmlCell>, s: Seq<usize>, r: u32, index: Seq<(String, usize)>)
    requires
        forall|j: int| 0 <= j < s.len() ==> cs[#[trigger] s[j] as int].row != r,
    ensures
        row_lines(cs, s, r, index) == Seq::<char>::empty(),
    decreases s.len(),
{
    if s.len() > 0 {
        lemma_row_lines_none(cs, s.drop_last(), r, index);
        assert(cs[s[s.len() - 1] as int].row != r);
    }
}

proof fn lemma_placed_indices(cs: Seq<SheetXmlCell>, n: nat)
    requires
        n <= cs.len(),
        n <= usize::MAX,
    ensures
        forall|j: int| 0 <= j < placed_indices(cs, n).len() ==> #[trigger] placed_indices(cs, n)[j] < n && placed(
            cs[placed_indices(cs, n)[j] as int],
        ),
        forall|x: int| 0 <= x < n && placed(#[trigger] cs[x]) ==> placed_indices(cs, n).contains(x as usize),
        placed_indices(cs, n).len() <= n,
    decreases n,
{
    if n > 0 {
        let m = (n - 1) as nat;
        lemma_placed_indices(cs, m);
        let k = placed_indices(cs, m);
        if placed(cs[n - 1]) {
            let k2 = k.push((n - 1) as usize);
            assert forall|x: int| 0 <= x < n && placed(#[trigger] cs[x]) implies k2.contains(x as usize) by {
                if x < n - 1 {
                    let j = choose|j: int| 0 <= j < k.len() && k[j] == x as usize;
                    assert(k2[j] == x as usize);
                } else {
                    assert(k2[k.len() as int] == x as usize);
                }
            }
        }
    }
}

/// The placed cells' indices in row-then-column order, with the facts the
/// row walk needs: only placed cells, rows never decreasing, none missing.
#[verifier::spinoff_prover]
#[verifier::rlimit(30)]
fn placed_order(cells: &Vec<SheetXmlCell>) -> (r: Vec<usize>)
    ensures
        r@ == cell_order(cells@),
        forall|j: int| 0 <= j < r@.len() ==> #[trigger] r@[j] < cells@.len() && placed(cells@[r@[j] as int]),
        forall|i: int, j: int| 0 <= i < j < r@.len() ==> cells@[#[trigger] r@[i] as int].row <= cells@[#[trigger] r@[j] as int].row,
        forall|x: int| 0 <= x < cells@.len() && placed(#[trigger] cells@[x]) ==> r@.contains(x as usize),
{
    let ghost cs = cells@;
    let mut v: Vec<usize> = Vec::new();
    let mut keys: Vec<(u32, u32)> = Vec::new();
    let mut i: usize = 0;
    while i < cells.len()
        invariant
            0 <= i <= cells@.len(),
            cs == cells@,
            v@ == placed_indices(cs, i as nat),
            keys@ == v@.map_values(|k: usize| (cs[k as int].row, cs[k as int].col)),
        decreases cells@.len() - i,
    {
        if cells[i].row > 0 && cells[i].col > 0 {
            let ghost v0 = v@;
            v.push(i);
            keys.push((cells[i].row, cells[i].col));
            proof {
                assert(keys@ =~= v@.map_values(|k: usize| (cs[k as int].row, cs[k as int].col)));
            }
        }
        i = i + 1;
    }
    proof {
        lemma_placed_indices(cs, cs.len());
        law_key_order_sorts(keys@, keys@.len());
    }
    let order = order_by_key(&keys);
    let mut out: Vec<usize> = Vec::new();
    let mut k: usize = 0;
    while k < order.len()
        invariant
            0 <= k <= order@.len(),
            order@.len() == v@.len(),
            forall|j: int| 0 <= j < order@.len() ==> #[trigger] order@[j] < v@.len(),
            out@ == order@.subrange(0, k as int).map_values(|x: usize| v@[x as int]),
        decreases order@.len() - k,
    {
        out.push(v[order[k]]);
        proof {
            assert(out@ =~= order@.subrange(0, k + 1).map_values(|x: usize| v@[x as int]));
        }
        k = k + 1;
    }
    proof {
        assert(order@.subrange(0, order@.len() as int) =~= order@);
        let kv = keys@;
        let o = order@;
        assert(out@ == cell_order(cs));
        assert forall|j: int| 0 <= j < out@.len() implies #[trigger] out@[j] < cs.len() && placed(cs[out@[j] as int]) by {
            assert(out@[j] == v@[o[j] as int]);
        }
        assert forall|a: int, b: int| 0 <= a < b < out@.len() implies cs[#[trigger] out@[a] as int].row <= cs[#[trigger] out@[b] as int].row by {
            assert(out@[a] == v@[o[a] as int]);
            assert(out@[b] == v@[o[b] as int]);
            assert(!key_before(kv[o[b] as int], kv[o[a] as int]));
        }
        assert forall|x: int| 0 <= x < cs.len() && placed(#[trigger] cs[x]) implies out@.contains(x as usize) by {
            let j = choose|j: int| 0 <= j < v@.len() && v@[j] == x as usize;
            assert(o.contains(j as usize));
            let q = choose|q: int| 0 <= q < o.len() && o[q] == j as usize;
            assert(out@[q] == x as usize);
        }
    }
    out
}

/// Whether row `r` lies in one of the hidden intervals.
fn row_is_hidden(hidden: &[(u32, u32)], r: u32) -> (b: bool)
    ensures
        b == row_hidden(hidden@, r as int),
{
    let mut i: usize = 0;
    while i < hidden.len()
        invariant
            0 <= i <= hidden@.len(),
            forall|j: int| 0 <= j < i ==> !(#[trigger] hidden@[j].0 <= r <= hidden@[j].1),
        decreases hidden@.len() - i,
    {
        if hidden[i].0 <= r && r <= hidden[i].1 {
            return true;
        }
        i = i + 1;
    }
    false
}

/// The first row at or after `lo` of the interval `iv`, where it has one.
pub open spec fn first_row_from(iv: (u32, u32), lo: int) -> Option<int> {
    if iv.0 <= iv.1 && iv.1 >= lo {
        Some(if iv.0 >= lo {
            iv.0 as int
        } else {
            lo
        })
    } else {
        None
    }
}

/// The first hidden row at or after `lo`.
fn next_hidden_row(hidden: &[(u32, u32)], lo: u64) -> (h: Option<u32>)
    ensures
        match h {
            Some(h) => lo <= h && row_hidden(hidden@, h as int) && forall|r: int| lo <= r < h ==> !row_hidden(hidden@, r),
            None => forall|r: int| lo <= r ==> !row_hidden(hidden@, r),
        },
{
    let mut best: Option<u32> = None;
    let mut i: usize = 0;
    while i < hidden.len()
        invariant
            0 <= i <= hidden@.len(),
            match best {
                Some(b) => lo <= b && row_hidden(hidden@, b as int) && forall|j: int|
                    0 <= j < i ==> #[trigger] first_row_from(hidden@[j], lo as int) is None || first_row_from(
                        hidden@[j],
                        lo as int,
                    )->0 >= b,
                None => forall|j: int| 0 <= j < i ==> #[trigger] first_row_from(hidden@[j], lo as int) is None,
            },
        decreases hidden@.len() - i,
    {
        let (s, e) = hidden[i];
        if s <= e && (e as u64) >= lo {
            let cand: u32 = if (s as u64) >= lo {
                s
            } else {
                lo as u32
            };
            proof {
                assert(hidden@[i as int].0 <= cand <= hidden@[i as int].1);
                assert(row_hidden(hidden@, cand as int));
            }
            match best {
                Some(b) => if cand < b {
                    best = Some(cand);
                },
                None => {
                    best = Some(cand);
                },
            }
        }
        i = i + 1;
    }
    proof {
        match best {
            Some(b) => {
                assert forall|r: int| lo <= r < b implies !row_hidden(hidden@, r) by {
                    if row_hidden(hidden@, r) {
                        let j = choose|j: int| 0 <= j < hidden@.len() && #[trigger] hidden@[j].0 <= r <= hidden@[j].1;
                        assert(first_row_from(hidden@[j], lo as int) is Some);
                    }
                }
            },
            None => {
                assert forall|r: int| lo <= r implies !row_hidden(hidden@, r) by {
                    if row_hidden(hidden@, r) {
                        let j = choose|j: int| 0 <= j < hidden@.len() && #[trigger] hidden@[j].0 <= r <= hidden@[j].1;
                        assert(first_row_from(hidden@[j], lo as int) is Some);
                    }
                }
            },
        }
    }
    best
}

pub open spec fn cells_indexed(cs: Seq<SheetXmlCell>, index: Seq<(String, usize)>) -> bool {
    forall|i: int| 0 <= i < cs.len() && placed(#[trigger] cs[i]) ==> indexed(cs[i].value, index)
}

fn push_cell_line(out: &mut Vec<char>, c: &SheetXmlCell, index: &Vec<(String, usize)>)
    requires
        indexed(c.value, index@),
    ensures
        final(out)@ == old(out)@ + cell_line(*c, index@),
{
    let ghost before = out@;
    let cell_ref = string_from_chars(&cell_ref_chars(c.row, c.col));
    let f: Option<&str> = match &c.formula {
        Some(t) => Some(t.as_str()),
        None => None,
    };
    proof {
        assert(opt_str_view(f) == opt_string_view(c.formula));
    }
    match xlsx_cell_xml(cell_ref.as_str(), &c.value, index, c.style_idx, f) {
        Some(x) => {
            push_all(out, &string_chars(&x));
            push_str_chars(out, "\n");
        },
        None => {},
    }
    proof {
        assert(out@ =~= before + cell_line(*c, index@));
    }
}

/// Appends row `r`, whose cells are `order[p..]` while their row is `r`;
/// returns where the next row's cells begin.
#[verifier::spinoff_prover]
#[verifier::rlimit(30)]
fn push_row(
    out: &mut Vec<char>,
    cells: &Vec<SheetXmlCell>,
    order: &Vec<usize>,
    p: usize,
    r: u32,
    hidden: &[(u32, u32)],
    index: &Vec<(String, usize)>,
) -> (q: usize)
    requires
        order@ == cell_order(cells@),
        p <= order@.len(),
        forall|j: int| 0 <= j < order@.len() ==> #[trigger] order@[j] < cells@.len() && placed(cells@[order@[j] as int]),
        forall|i: int, j: int|
            0 <= i < j < order@.len() ==> cells@[#[trigger] order@[i] as int].row <= cells@[#[trigger] order@[j] as int].row,
        forall|j: int| 0 <= j < p ==> cells@[#[trigger] order@[j] as int].row < r,
        forall|j: int| p <= j < order@.len() ==> cells@[#[trigger] order@[j] as int].row >= r,
        cells_indexed(cells@, index@),
    ensures
        p <= q <= order@.len(),
        forall|j: int| 0 <= j < q ==> cells@[#[trigger] order@[j] as int].row <= r,
        forall|j: int| q <= j < order@.len() ==> cells@[#[trigger] order@[j] as int].row > r,
        final(out)@ == old(out)@ + row_text(cells@, hidden@, r, index@),
{
    let ghost cs = cells@;
    let ghost o = order@;
    let ghost before = out@;
    push_str_chars(out, "<row r=\"");
    push_all(out, &fmt_u64(r as u64));
    push_str_chars(out, "\"");
    if row_is_hidden(hidden, r) {
        push_str_chars(out, " hidden=\"1\"");
    }
    push_str_chars(out, ">\n");
    let ghost mid = out@;
    let mut q: usize = p;
    proof {
        assert(o.subrange(p as int, p as int) =~= Seq::<usize>::empty());
        assert(out@ =~= mid + row_lines(cs, o.subrange(p as int, q as int), r, index@));
    }
    while q < order.len() && cells[order[q]].row == r
        invariant
            p <= q <= o.len(),
            o == order@,
            cs == cells@,
            forall|j: int| 0 <= j < o.len() ==> #[trigger] o[j] < cs.len() && placed(cs[o[j] as int]),
            forall|j: int| p <= j < q ==> cs[#[trigger] o[j] as int].row == r,
            cells_indexed(cs, index@),
            out@ == mid + row_lines(cs, o.subrange(p as int, q as int), r, index@),
        decreases o.len() - q,
    {
        let idx = order[q];
        proof {
            assert(placed(cs[idx as int]));
            let sub = o.subrange(p as int, q + 1);
            assert(sub.drop_last() =~= o.subrange(p as int, q as int));
            assert(sub.last() == idx);
        }
        push_cell_line(out, &cells[idx], index);
        q = q + 1;
    }
    let ghost lines = out@;
    push_str_chars(out, "</row>\n");
    proof {
        let a = o.subrange(0, p as int);
        let b = o.subrange(p as int, q as int);
        let c = o.subrange(q as int, o.len() as int);
        assert(o =~= a + b + c);
        lemma_row_lines_append(cs, a + b, c, r, index@);
        lemma_row_lines_append(cs, a, b, r, index@);
        assert forall|j: int| 0 <= j < a.len() implies cs[#[trigger] a[j] as int].row != r by {
            assert(a[j] == o[j]);
        }
        lemma_row_lines_none(cs, a, r, index@);
        if q < o.len() {
            assert(cs[o[q as int] as int].row != r);
            assert(cs[o[q as int] as int].row > r);
        }
        assert forall|j: int| q <= j < o.len() implies cs[#[trigger] o[j] as int].row > r by {
            if j > q {
                assert(cs[o[q as int] as int].row <= cs[o[j] as int].row);
            }
        }
        assert forall|j: int| 0 <= j < c.len() implies cs[#[trigger] c[j] as int].row != r by {
            assert(c[j] == o[q + j]);
        }
        lemma_row_lines_none(cs, c, r, index@);
        assert(Seq::<char>::empty() + row_lines(cs, b, r, index@) + Seq::<char>::empty() =~= row_lines(cs, b, r, index@));
        assert(row_lines(cs, o, r, index@) == row_lines(cs, b, r, index@));
        assert forall|j: int| 0 <= j < q implies cs[#[trigger] o[j] as int].row <= r by {
            if j < p {
            } else {
                assert(cs[o[j] as int].row == r);
            }
        }
        let hid: Seq<char> = if row_hidden(hidden@, r as int) {
            " hidden=\"1\""@
        } else {
            Seq::empty()
        };
        assert(mid =~= before + "<row r=\""@ + decimal(r as nat) + "\""@ + hid + ">\n"@);
        assert(out@ =~= before + row_text(cs, hidden@, r, index@));
    }
    q
}

/// The number of rows a worksheet can address, plus one.
pub open spec fn row_limit() -> int {
    0x1_0000_0000
}

/// Appends the `<row>` elements of every written row, in increasing order.
#[verifier::spinoff_prover]
#[verifier::rlimit(30)]
fn push_rows(out: &mut Vec<char>, cells: &Vec<SheetXmlCell>, hidden: &[(u32, u32)], index: &Vec<(String, usize)>)
    requires
        cells_indexed(cells@, index@),
    ensures
        final(out)@ == old(out)@ + rows_range(cells@, hidden@, index@, 0, row_limit()),
{
    let order = placed_order(cells);
    let ghost cs = cells@;
    let ghost hv = hidden@;
    let ghost iv = index@;
    let ghost o = order@;
    let ghost head = out@;
    let mut p: usize = 0;
    let mut lo: u64 = 0;
    let n_cells = cells.len();
    loop
        invariant
            cs.len() == n_cells,
            o == order@,
            cs == cells@,
            hv == hidden@,
            iv == index@,
            o == cell_order(cs),
            cells_indexed(cs, iv),
            p <= o.len(),
            lo <= row_limit(),
            forall|j: int| 0 <= j < o.len() ==> #[trigger] o[j] < cs.len() && placed(cs[o[j] as int]),
            forall|i: int, j: int| 0 <= i < j < o.len() ==> cs[#[trigger] o[i] as int].row <= cs[#[trigger] o[j] as int].row,
            forall|x: int| 0 <= x < cs.len() && placed(#[trigger] cs[x]) ==> o.contains(x as usize),
            forall|j: int| 0 <= j < p ==> cs[#[trigger] o[j] as int].row < lo,
            forall|j: int| p <= j < o.len() ==> cs[#[trigger] o[j] as int].row >= lo,
            out@ == head + rows_range(cs, hv, iv, 0, lo as int),
        ensures
            out@ == head + rows_range(cs, hv, iv, 0, row_limit()),
        decreases row_limit() - lo,
    {
        let cell_next: Option<u32> = if p < order.len() {
            Some(cells[order[p]].row)
        } else {
            None
        };
        let hid_next = next_hidden_row(hidden, lo);
        let r: u32 = match cell_next {
            Some(a) => match hid_next {
                Some(b) => if a <= b {
                    a
                } else {
                    b
                },
                None => a,
            },
            None => match hid_next {
                Some(b) => b,
                None => {
                    proof {
                        assert(p >= o.len());
                        assert forall|rr: int| lo <= rr < row_limit() implies !row_written(cs, hv, rr) by {
                            assert(!row_hidden(hv, rr));
                            if exists|i: int| 0 <= i < cs.len() && placed(#[trigger] cs[i]) && cs[i].row == rr {
                                let x = choose|i: int| 0 <= i < cs.len() && placed(#[trigger] cs[i]) && cs[i].row == rr;
                                assert(placed(cs[x]));
                                assert(o.contains(x as usize));
                                let q = choose|q: int| 0 <= q < o.len() && o[q] == x as usize;
                                assert(cs[o[q] as int].row < lo);
                                assert(o[q] as int == x);
                                assert(false);
                            }
                        }
                        lemma_rows_range_empty(cs, hv, iv, lo as int, row_limit());
                        lemma_rows_range_split(cs, hv, iv, 0, lo as int, row_limit());
                        assert(rows_range(cs, hv, iv, 0, lo as int) + Seq::<char>::empty() =~= rows_range(
                            cs,
                            hv,
                            iv,
                            0,
                            lo as int,
                        ));
                    }
                    break;
                },
            },
        };
        proof {
            assert(lo <= r);
            assert forall|rr: int| lo <= rr < r implies !row_written(cs, hv, rr) by {
                match hid_next {
                    Some(h) => {
                        assert(rr < h);
                        assert(!row_hidden(hv, rr));
                    },
                    None => {
                        assert(!row_hidden(hv, rr));
                    },
                }
                if exists|i: int| 0 <= i < cs.len() && placed(#[trigger] cs[i]) && cs[i].row == rr {
                    let x = choose|i: int| 0 <= i < cs.len() && placed(#[trigger] cs[i]) && cs[i].row == rr;
                    assert(placed(cs[x]));
                    assert(o.contains(x as usize));
                    let q = choose|q: int| 0 <= q < o.len() && o[q] == x as usize;
                    assert(o[q] as int == x);
                    if q < p {
                        assert(cs[o[q] as int].row < lo);
                    } else {
                        assert(p < o.len());
                        assert(cell_next == Some(cs[o[p as int] as int].row));
                        if q > p {
                            assert(cs[o[p as int] as int].row <= cs[o[q] as int].row);
                        }
                    }
                    assert(false);
                }
            }
            lemma_rows_range_empty(cs, hv, iv, lo as int, r as int);
            lemma_rows_range_split(cs, hv, iv, 0, lo as int, r as int);
            assert(rows_range(cs, hv, iv, 0, lo as int) + Seq::<char>::empty() =~= rows_range(cs, hv, iv, 0, lo as int));
            if cell_next == Some(r) {
                let x = o[p as int] as int;
                assert(placed(cs[x]) && cs[x].row == r);
            }
            assert(row_written(cs, hv, r as int));
        }
        let q = push_row(out, cells, &order, p, r, hidden, index);
        proof {
            assert(rows_range(cs, hv, iv, 0, r + 1) == rows_range(cs, hv, iv, 0, r as int) + row_text(cs, hv, r, iv));
        }
        p = q;
        lo = r as u64 + 1;
    }
}

// ── The worksheet part ───────────────────────────────────────────────────

/// The elements of the source worksheet carried over verbatim, each where
/// the source had it: the root element's attributes, `sheetPr`,
/// `sheetViews`, `sheetFormatPr`, `phoneticPr`, `dataValidations`, the
/// `hyperlink` elements kept, `pageMargins`, `pageSetup`, `tableParts`,
/// `drawing` and `legacyDrawing`.
pub struct OpaqueWorksheetFragments {
    pub root_attrs: Option<String>,
    pub sheet_pr: Option<String>,
    pub sheet_views: Option<String>,
    pub sheet_format_pr: Option<String>,
    pub phonetic_pr: Option<String>,
    pub data_validations: Option<String>,
    pub hyperlinks: Vec<String>,
    pub page_margins: Option<String>,
    pub page_setup: Option<String>,
    pub table_parts: Option<String>,
    pub drawing: Option<String>,
    pub legacy_drawing: Option<String>,
}

/// What a worksheet part writes of the sheet itself: its cells, its hidden
/// row and column intervals and its merges.
pub struct WorksheetContent {
    pub cells: Vec<SheetXmlCell>,
    pub hidden_rows: Vec<(u32, u32)>,
    pub hidden_columns: Vec<(u32, u32)>,
    pub merges: Vec<((u32, u32), (u32, u32))>,
}

/// The items one after another.
pub open spec fn concat_all(items: Seq<Seq<char>>) -> Seq<char>
    decreases items.len(),
{
    if items.len() == 0 {
        Seq::empty()
    } else {
        concat_all(items.drop_last()) + items.last()
    }
}

/// A fragment and a newline; nothing without one.
pub open spec fn frag_line(f: Option<String>) -> Seq<char> {
    match f {
        Some(t) => t@ + "\n"@,
        None => Seq::empty(),
    }
}

pub open spec fn col_line(iv: (u32, u32)) -> Seq<char> {
    "<col min=\""@ + decimal(iv.0 as nat) + "\" max=\""@ + decimal(iv.1 as nat) + "\" hidden=\"1\"/>\n"@
}

/// `<cols>` with one hidden `<col>` per interval; nothing without any.
pub open spec fn cols_xml(ivs: Seq<(u32, u32)>) -> Seq<char> {
    if ivs.len() == 0 {
        Seq::empty()
    } else {
        "<cols>\n"@ + concat_all(ivs.map_values(|iv: (u32, u32)| col_line(iv))) + "</cols>\n"@
    }
}

pub open spec fn merge_line(m: ((u32, u32), (u32, u32))) -> Seq<char> {
    "<mergeCell ref=\""@ + merge_rect_text(m) + "\"/>\n"@
}

/// `<mergeCells>` with its count and one `<mergeCell>` per merge; nothing
/// without any.
pub open spec fn merges_xml(ms: Seq<((u32, u32), (u32, u32))>) -> Seq<char> {
    if ms.len() == 0 {
        Seq::empty()
    } else {
        "<mergeCells count=\""@ + decimal(ms.len()) + "\">\n"@ + concat_all(
            ms.map_values(|m: ((u32, u32), (u32, u32))| merge_line(m)),
        ) + "</mergeCells>\n"@
    }
}

/// `<hyperlinks>` around the kept hyperlinks; nothing without any (the
/// element may not be empty).
pub open spec fn hyperlinks_xml(hs: Seq<String>) -> Seq<char> {
    if hs.len() == 0 {
        Seq::empty()
    } else {
        "<hyperlinks>\n"@ + concat_all(hs.map_values(|h: String| h@ + "\n"@)) + "</hyperlinks>\n"@
    }
}

pub open spec fn root_line(attrs: Option<String>) -> Seq<char> {
    match attrs {
        Some(a) => "<worksheet "@ + a@ + ">\n"@,
        None => "<worksheet xmlns=\"http://schemas.openxmlformats.org/spreadsheetml/2006/main\">\n"@,
    }
}

/// The declaration, the root element and the fragments before the columns.
pub open spec fn sheet_head_xml(fr: OpaqueWorksheetFragments) -> Seq<char> {
    "<?xml version=\"1.0\" encoding=\"UTF-8\" standalone=\"yes\"?>\n"@ + root_line(fr.root_attrs) + frag_line(fr.sheet_pr)
        + frag_line(fr.sheet_views) + frag_line(fr.sheet_format_pr)
}

/// The fragments after the merges, in schema order, and the closing tag.
pub open spec fn sheet_tail_xml(fr: OpaqueWorksheetFragments) -> Seq<char> {
    frag_line(fr.phonetic_pr) + frag_line(fr.data_validations) + hyperlinks_xml(fr.hyperlinks@) + frag_line(fr.page_margins)
        + frag_line(fr.page_setup) + frag_line(fr.drawing) + frag_line(fr.legacy_drawing) + frag_line(fr.table_parts)
        + "</worksheet>\n"@
}

/// A worksheet part.
pub open spec fn sheet_xml(c: WorksheetContent, index: Seq<(String, usize)>, fr: OpaqueWorksheetFragments) -> Seq<char> {
    sheet_head_xml(fr) + cols_xml(c.hidden_columns@) + "<sheetData>\n"@ + rows_range(
        c.cells@,
        c.hidden_rows@,
        index,
        0,
        row_limit(),
    ) + "</sheetData>\n"@ + merges_xml(c.merges@) + sheet_tail_xml(fr)
}

proof fn lemma_concat_step(items: Seq<Seq<char>>, k: int)
    requires
        0 <= k < items.len(),
    ensures
        concat_all(items.subrange(0, k + 1)) == concat_all(items.subrange(0, k)) + items[k],
{
    let pre = items.subrange(0, k + 1);
    assert(pre.drop_last() =~= items.subrange(0, k));
}

fn push_frag_line(out: &mut Vec<char>, f: &Option<String>)
    ensures
        final(out)@ == old(out)@ + frag_line(*f),
{
    let ghost before = out@;
    match f {
        Some(t) => {
            push_all(out, &string_chars(t));
            push_str_chars(out, "\n");
        },
        None => {},
    }
    proof {
        assert(out@ =~= before + frag_line(*f));
    }
}

fn push_cols(out: &mut Vec<char>, ivs: &Vec<(u32, u32)>)
    ensures
        final(out)@ == old(out)@ + cols_xml(ivs@),
{
    let ghost before = out@;
    if ivs.len() == 0 {
        proof {
            assert(out@ =~= before + cols_xml(ivs@));
        }
        return;
    }
    let ghost items = ivs@.map_values(|iv: (u32, u32)| col_line(iv));
    push_str_chars(out, "<cols>\n");
    let ghost head = out@;
    let mut k: usize = 0;
    proof {
        assert(items.subrange(0, 0) =~= Seq::<Seq<char>>::empty());
        assert(out@ =~= head + concat_all(items.subrange(0, 0)));
    }
    while k < ivs.len()
        invariant
            0 <= k <= ivs@.len(),
            items == ivs@.map_values(|iv: (u32, u32)| col_line(iv)),
            out@ == head + concat_all(items.subrange(0, k as int)),
        decreases ivs@.len() - k,
    {
        proof {
            lemma_concat_step(items, k as int);
        }
        let ghost mid = out@;
        let (s, e) = ivs[k];
        push_str_chars(out, "<col min=\"");
        push_all(out, &fmt_u64(s as u64));
        push_str_chars(out, "\" max=\"");
        push_all(out, &fmt_u64(e as u64));
        push_str_chars(out, "\" hidden=\"1\"/>\n");
        proof {
            assert(out@ =~= mid + items[k as int]);
        }
        k = k + 1;
    }
    push_str_chars(out, "</cols>\n");
    proof {
        assert(items.subrange(0, items.len() as int) =~= items);
        assert(out@ =~= before + cols_xml(ivs@));
    }
}

fn push_merges(out: &mut Vec<char>, ms: &Vec<((u32, u32), (u32, u32))>)
    ensures
        final(out)@ == old(out)@ + merges_xml(ms@),
{
    let ghost before = out@;
    if ms.len() == 0 {
        proof {
            assert(out@ =~= before + merges_xml(ms@));
        }
        return;
    }
    let ghost items = ms@.map_values(|m: ((u32, u32), (u32, u32))| merge_line(m));
    push_str_chars(out, "<mergeCells count=\"");
    push_all(out, &fmt_u64(ms.len() as u64));
    push_str_chars(out, "\">\n");
    let ghost head = out@;
    let mut k: usize = 0;
    proof {
        assert(items.subrange(0, 0) =~= Seq::<Seq<char>>::empty());
        assert(out@ =~= head + concat_all(items.subrange(0, 0)));
    }
    while k < ms.len()
        invariant
            0 <= k <= ms@.len(),
            items == ms@.map_values(|m: ((u32, u32), (u32, u32))| merge_line(m)),
            out@ == head + concat_all(items.subrange(0, k as int)),
        decreases ms@.len() - k,
    {
        proof {
            lemma_concat_step(items, k as int);
        }
        let ghost mid = out@;
        push_str_chars(out, "<mergeCell ref=\"");
        push_all(out, &string_chars(&merge_rect_to_a1(&ms[k])));
        push_str_chars(out, "\"/>\n");
        proof {
            assert(out@ =~= mid + items[k as int]);
        }
        k = k + 1;
    }
    push_str_chars(out, "</mergeCells>\n");
    proof {
        assert(items.subrange(0, items.len() as int) =~= items);
        assert(out@ =~= before + merges_xml(ms@));
    }
}

fn push_hyperlinks(out: &mut Vec<char>, hs: &Vec<String>)
    ensures
        final(out)@ == old(out)@ + hyperlinks_xml(hs@),
{
    let ghost before = out@;
    if hs.len() == 0 {
        proof {
            assert(out@ =~= before + hyperlinks_xml(hs@));
        }
        return;
    }
    let ghost items = hs@.map_values(|h: String| h@ + "\n"@);
    push_str_chars(out, "<hyperlinks>\n");
    let ghost head = out@;
    let mut k: usize = 0;
    proof {
        assert(items.subrange(0, 0) =~= Seq::<Seq<char>>::empty());
        assert(out@ =~= head + concat_all(items.subrange(0, 0)));
    }
    while k < hs.len()
        invariant
            0 <= k <= hs@.len(),
            items == hs@.map_values(|h: String| h@ + "\n"@),
            out@ == head + concat_all(items.subrange(0, k as int)),
        decreases hs@.len() - k,
    {
        proof {
            lemma_concat_step(items, k as int);
        }
        let ghost mid = out@;
        push_all(out, &string_chars(&hs[k]));
        push_str_chars(out, "\n");
        proof {
            assert(out@ =~= mid + items[k as int]);
        }
        k = k + 1;
    }
    push_str_chars(out, "</hyperlinks>\n");
    proof {
        assert(items.subrange(0, items.len() as int) =~= items);
        assert(out@ =~= before + hyperlinks_xml(hs@));
    }
}

fn push_sheet_head(out: &mut Vec<char>, fr: &OpaqueWorksheetFragments)
    ensures
        final(out)@ == old(out)@ + sheet_head_xml(*fr),
{
    let ghost before = out@;
    push_str_chars(out, "<?xml version=\"1.0\" encoding=\"UTF-8\" standalone=\"yes\"?>\n");
    match &fr.root_attrs {
        Some(a) => {
            push_str_chars(out, "<worksheet ");
            push_all(out, &string_chars(a));
            push_str_chars(out, ">\n");
        },
        None => {
            push_str_chars(out, "<worksheet xmlns=\"http://schemas.openxmlformats.org/spreadsheetml/2006/main\">\n");
        },
    }
    let ghost a = out@;
    proof {
        assert(a =~= before + "<?xml version=\"1.0\" encoding=\"UTF-8\" standalone=\"yes\"?>\n"@ + root_line(fr.root_attrs));
    }
    push_frag_line(out, &fr.sheet_pr);
    push_frag_line(out, &fr.sheet_views);
    push_frag_line(out, &fr.sheet_format_pr);
    proof {
        assert(out@ =~= before + sheet_head_xml(*fr));
    }
}

fn push_sheet_tail(out: &mut Vec<char>, fr: &OpaqueWorksheetFragments)
    ensures
        final(out)@ == old(out)@ + sheet_tail_xml(*fr),
{
    let ghost before = out@;
    push_frag_line(out, &fr.phonetic_pr);
    push_frag_line(out, &fr.data_validations);
    push_hyperlinks(out, &fr.hyperlinks);
    push_frag_line(out, &fr.page_margins);
    push_frag_line(out, &fr.page_setup);
    push_frag_line(out, &fr.drawing);
    push_frag_line(out, &fr.legacy_drawing);
    push_frag_line(out, &fr.table_parts);
    push_str_chars(out, "</worksheet>\n");
    proof {
        assert(out@ =~= before + sheet_tail_xml(*fr));
    }
}

/// A worksheet part of a save: the declaration; the root element (with the
/// source's attributes where carried over); `sheetPr`, `sheetViews`,
/// `sheetFormatPr`; the hidden columns; `sheetData` with one `<row>` per
/// row that holds a cell or is hidden, in increasing order, each with its
/// cells in column order (a cell at row or column 0 is not written);
/// `mergeCells`; then `phoneticPr`, `dataValidations`, the hyperlinks,
/// `pageMargins`, `pageSetup`, `drawing`, `legacyDrawing` and `tableParts`.
/// Every string value must have its shared-string index.
pub fn build_xlsx_sheet(
    content: &WorksheetContent,
    str_index: &Vec<(String, usize)>,
    fragments: &OpaqueWorksheetFragments,
) -> (r: String)
    requires
        cells_indexed(content.cells@, str_index@),
    ensures
        r@ == sheet_xml(*content, str_index@, *fragments),
{
    let mut out: Vec<char> = Vec::new();
    push_sheet_head(&mut out, fragments);
    push_cols(&mut out, &content.hidden_columns);
    push_str_chars(&mut out, "<sheetData>\n");
    push_rows(&mut out, &content.cells, content.hidden_rows.as_slice(), str_index);
    push_str_chars(&mut out, "</sheetData>\n");
    push_merges(&mut out, &content.merges);
    push_sheet_tail(&mut out, fragments);
    proof {
        assert(out@ =~= sheet_xml(*content, str_index@, *fragments));
    }
    string_from_chars(&out)
}

} // verus!
