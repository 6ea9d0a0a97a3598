//! Excel table structured references (`Sales[Amount]`, `Sales[#All]`,
//! `Sales[@Amount]`, ...) rewritten in every formula of a workbook to the
//! plain A1 ranges they name.

use vstd::prelude::*;
use crate::types::char_index;
use super::cycle::{cells_view, sheets_view, CellsV};
use crate::text::{
    ascii_alpha, ascii_digit, is_ascii_alpha, is_ascii_digit, parse_u32, parse_u32_text, utf8_len,
    ascii_alnum, chars_ascii_lower, chars_eq, col_letters, decimal, find_from, fmt_u64,
    is_ascii_alnum, letter, push_all, seq_ascii_lower, slice_chars, find_sub,
};

verus! {

// ── Column labels ────────────────────────────────────────────────────────

/// The letters of the 0-based column `c` (`0` -> `A`, `26` -> `AA`).
fn column_label(c: u32) -> (r: Vec<char>)
    ensures
        r@ == col_letters(c as nat + 1),
    decreases c,
{
    let d: u32 = c % 26;
    let code: u8 = (d as u8) + 65;
    let ch = code as char;
    proof {
        assert(ch == letter(d as nat));
        assert((c as nat + 1 - 1) / 26 == c / 26);
        assert((c as nat + 1 - 1) % 26 == d);
    }
    if c < 26 {
        let mut v: Vec<char> = Vec::new();
        v.push(ch);
        proof {
            assert(col_letters(0) =~= Seq::<char>::empty());
            assert(v@ =~= Seq::<char>::empty().push(ch));
        }
        v
    } else {
        let mut v = column_label(c / 26 - 1);
        v.push(ch);
        v
    }
}

// ── Replacing one structured reference ───────────────────────────────────

/// Whether a position after reading `s[i..]` (starting `inside` or not) is
/// inside a string literal: `"` toggles, `""` is an escaped quote.
pub open spec fn in_string_from(s: Seq<char>, i: int, inside: bool) -> bool
    decreases s.len() - i,
{
    if !(0 <= i < s.len()) {
        inside
    } else if s[i] != '"' {
        in_string_from(s, i + 1, inside)
    } else if i + 1 < s.len() && s[i + 1] == '"' {
        in_string_from(s, i + 2, inside)
    } else {
        in_string_from(s, i + 1, !inside)
    }
}

pub open spec fn ident_char(c: char) -> bool {
    is_ascii_alnum(c) || c == '_'
}

/// A match `[start, end)` is left as written inside a string literal or as
/// part of a longer identifier.
pub open spec fn keep_table_match(src: Seq<char>, start: int, end: int) -> bool {
    in_string_from(src.subrange(0, start), 0, false) || (start > 0 && ident_char(src[start - 1])) || (
    end < src.len() && ident_char(src[end]))
}

/// From `cursor`, each match of `nl` in `lower` (the lowercased `src`), left
/// to right: the text before it, then the match kept or replaced by `repl`;
/// and the position after the last match.
pub open spec fn table_scan(src: Seq<char>, lower: Seq<char>, nl: Seq<char>, repl: Seq<char>, cursor: int) -> (Seq<char>, int)
    decreases src.len() + 1 - cursor,
{
    if nl.len() == 0 || cursor < 0 {
        (Seq::empty(), cursor)
    } else {
        match find_sub(lower, nl, cursor) {
            None => (Seq::empty(), cursor),
            Some(start) => {
                let end = start + nl.len();
                let piece = src.subrange(cursor, start) + if keep_table_match(src, start, end) {
                    src.subrange(start, end)
                } else {
                    repl
                };
                if end <= cursor || end > src.len() {
                    (piece, end)
                } else {
                    let (rest, c) = table_scan(src, lower, nl, repl, end);
                    (piece + rest, c)
                }
            },
        }
    }
}

/// `src` with every ASCII case-insensitive occurrence of `needle` that is
/// neither inside a string literal nor part of a longer identifier replaced
/// by `repl`.
pub open spec fn replace_table_ref(src: Seq<char>, needle: Seq<char>, repl: Seq<char>) -> Seq<char> {
    let (rebuilt, cursor) = table_scan(src, seq_ascii_lower(src), seq_ascii_lower(needle), repl, 0);
    rebuilt + src.subrange(cursor, src.len() as int)
}

fn in_string_exec(s: &Vec<char>, n: usize) -> (r: bool)
    requires
        n <= s@.len(),
    ensures
        r == in_string_from(s@.subrange(0, n as int), 0, false),
{
    let ghost p = s@.subrange(0, n as int);
    let mut inside = false;
    let mut i: usize = 0;
    while i < n
        invariant
            0 <= i <= n + 1,
            n <= s@.len(),
            p == s@.subrange(0, n as int),
            i <= n ==> in_string_from(p, i as int, inside) == in_string_from(p, 0, false),
            i > n ==> false,
        decreases n + 1 - i,
    {
        let ch = s[i];
        proof {
            assert(p[i as int] == ch);
        }
        if ch != '"' {
            i = i + 1;
        } else if i + 1 < n && s[i + 1] == '"' {
            proof {
                assert(p[i + 1] == s@[i + 1]);
            }
            i = i + 2;
        } else {
            inside = !inside;
            i = i + 1;
        }
    }
    inside
}

fn keep_table_match_exec(src: &Vec<char>, start: usize, end: usize) -> (r: bool)
    requires
        start <= end <= src@.len(),
    ensures
        r == keep_table_match(src@, start as int, end as int),
{
    let inside = in_string_exec(src, start);
    let preceded = start > 0 && (ascii_alnum(src[start - 1]) || src[start - 1] == '_');
    let followed = end < src.len() && (ascii_alnum(src[end]) || src[end] == '_');
    inside || preceded || followed
}

/// Replaces every ASCII case-insensitive occurrence of `needle` in `source`
/// that is neither inside a string literal nor part of a longer identifier.
fn replace_table_ref_chars(source: &Vec<char>, needle: &Vec<char>, replacement: &Vec<char>) -> (r: Vec<char>)
    requires
        needle@.len() > 0,
    ensures
        r@ == replace_table_ref(source@, needle@, replacement@),
{
    let lower = chars_ascii_lower(source);
    let nl = chars_ascii_lower(needle);
    let ghost total = table_scan(source@, lower@, nl@, replacement@, 0);
    let mut out: Vec<char> = Vec::new();
    let mut cursor: usize = 0;
    proof {
        assert(out@ + table_scan(source@, lower@, nl@, replacement@, 0).0 =~= total.0);
    }
    loop
        invariant_except_break
            0 <= cursor <= source@.len(),
            lower@.len() == source@.len(),
            nl@.len() > 0,
            total == table_scan(source@, lower@, nl@, replacement@, 0),
            out@ + table_scan(source@, lower@, nl@, replacement@, cursor as int).0 == total.0,
            table_scan(source@, lower@, nl@, replacement@, cursor as int).1 == total.1,
        ensures
            0 <= cursor <= source@.len(),
            out@ == total.0,
            cursor == total.1,
        decreases source@.len() + 1 - cursor,
    {
        match find_from(&lower, &nl, cursor) {
            None => {
                proof {
                    assert(out@ + Seq::<char>::empty() =~= out@);
                }
                break;
            },
            Some(start) => {
                let end = start + nl.len();
                let ghost before = out@;
                let gap = slice_chars(source, cursor, start);
                push_all(&mut out, &gap);
                if keep_table_match_exec(source, start, end) {
                    let matched = slice_chars(source, start, end);
                    push_all(&mut out, &matched);
                } else {
                    push_all(&mut out, replacement);
                }
                proof {
                    let piece = source@.subrange(cursor as int, start as int) + if keep_table_match(
                        source@,
                        start as int,
                        end as int,
                    ) {
                        source@.subrange(start as int, end as int)
                    } else {
                        replacement@
                    };
                    assert(out@ =~= before + piece);
                    assert(out@ + table_scan(source@, lower@, nl@, replacement@, end as int).0 =~= before
                        + table_scan(source@, lower@, nl@, replacement@, cursor as int).0);
                }
                cursor = end;
            },
        }
    }
    let tail = slice_chars(source, cursor, source.len());
    push_all(&mut out, &tail);
    out
}

/// `source` with every ASCII case-insensitive occurrence of `needle` replaced
/// by `replacement`, except an occurrence inside a string literal (`""` is an
/// escaped quote) or one that continues a longer identifier on either side.
/// An empty `needle` would never advance, so it is not accepted.
pub fn replace_table_ref_case_insensitive(source: &str, needle: &str, replacement: &str) -> (r: String)
    requires
        needle@.len() > 0,
    ensures
        r@ == replace_table_ref(source@, needle@, replacement@),
{
    let src = crate::text::str_chars(source);
    let nd = crate::text::str_chars(needle);
    let rp = crate::text::str_chars(replacement);
    let out = replace_table_ref_chars(&src, &nd, &rp);
    crate::text::string_from_chars(&out)
}

// ── Patterns of a table ──────────────────────────────────────────────────

/// An Excel table as the rewrite reads it: its name and display name, its
/// range `((first row, first column), (last row, last column))` (1-based),
/// its header and totals row counts, and its column names.
pub struct TableSpec {
    pub name: String,
    pub display_name: String,
    pub ref_range: ((u32, u32), (u32, u32)),
    pub header_row_count: u32,
    pub totals_row_count: u32,
    pub columns: Vec<String>,
}

/// The tables of one sheet.
pub struct TableSheet {
    pub name: String,
    pub tables: Vec<TableSpec>,
}

/// A structured-reference pattern: its text, the sheet of its table, the
/// qualified A1 range it stands for, and whether it is a this-row reference.
pub type PatternV = (Seq<char>, Seq<char>, Seq<char>, bool);

pub open spec fn sat_sub(a: u32, b: u32) -> u32 {
    if a >= b {
        (a - b) as u32
    } else {
        0
    }
}

/// `SHEET!LEFTstart:RIGHTend`, the column letters of `left - 1` and
/// `right - 1` (0-based, saturating).
pub open spec fn table_address(sheet: Seq<char>, start: u32, end: u32, left: u32, right: u32) -> Seq<char> {
    sheet + seq!['!'] + col_letters(sat_sub(left, 1) as nat + 1) + decimal(start as nat) + seq![':']
        + col_letters(sat_sub(right, 1) as nat + 1) + decimal(end as nat)
}

/// First data row: the row after the headers.
pub open spec fn data_start(t: TableSpec) -> int {
    t.ref_range.0.0 + t.header_row_count
}

/// Last data row: the row before the totals (saturating).
pub open spec fn data_end(t: TableSpec) -> u32 {
    sat_sub(t.ref_range.1.0, t.totals_row_count)
}

/// Last header row.
pub open spec fn headers_end(t: TableSpec) -> int {
    t.ref_range.0.0 + t.header_row_count - 1
}

/// The whole-table patterns for one of the table's names.
pub open spec fn name_patterns(nm: Seq<char>, sheet: Seq<char>, t: TableSpec) -> Seq<PatternV> {
    let (start, left) = t.ref_range.0;
    let (end, right) = t.ref_range.1;
    seq![
        (nm + "[#Headers]"@, sheet, table_address(sheet, start, headers_end(t) as u32, left, right), false),
        (nm + "[#All]"@, sheet, table_address(sheet, start, end, left, right), false),
    ] + if data_start(t) <= data_end(t) {
        seq![
            (
                nm + "[#Data]"@,
                sheet,
                table_address(sheet, data_start(t) as u32, data_end(t), left, right),
                false,
            ),
        ]
    } else {
        Seq::empty()
    }
}

/// The column patterns for one of the table's names and one column `col`
/// whose data range is `qualified`.
pub open spec fn column_patterns(
    nm: Seq<char>,
    sheet: Seq<char>,
    cn: Seq<char>,
    qualified: Seq<char>,
    col: u32,
    t: TableSpec,
) -> Seq<PatternV> {
    let start = t.ref_range.0.0;
    let end = t.ref_range.1.0;
    seq![
        (nm + seq!['['] + cn + seq![']'], sheet, qualified, false),
        (nm + "[[#Data],["@ + cn + "]]"@, sheet, qualified, false),
        (nm + "[[#Headers],["@ + cn + "]]"@, sheet, table_address(sheet, start, headers_end(t) as u32, col, col), false),
        (nm + "[[#All],["@ + cn + "]]"@, sheet, table_address(sheet, start, end, col, col), false),
        (nm + seq!['[', '@'] + cn + seq![']'], sheet, qualified, true),
        (nm + "[[#This Row],["@ + cn + "]]"@, sheet, qualified, true),
    ]
}

/// The column of the `index`-th table column.
pub open spec fn column_at(t: TableSpec, index: int) -> u32 {
    (t.ref_range.0.1 + index) as u32
}

/// The patterns of the first `m` columns, both names for each column.
pub open spec fn columns_patterns(sheet: Seq<char>, t: TableSpec, m: int) -> Seq<PatternV>
    decreases m,
{
    if m <= 0 {
        Seq::empty()
    } else {
        let col = column_at(t, m - 1);
        let qualified = table_address(sheet, data_start(t) as u32, data_end(t), col, col);
        let cn = t.columns@[m - 1]@;
        columns_patterns(sheet, t, m - 1) + column_patterns(t.name@, sheet, cn, qualified, col, t)
            + column_patterns(t.display_name@, sheet, cn, qualified, col, t)
    }
}

/// Every pattern of a table, in the order they are made.
pub open spec fn table_patterns(sheet: Seq<char>, t: TableSpec) -> Seq<PatternV> {
    let names = name_patterns(t.name@, sheet, t) + name_patterns(t.display_name@, sheet, t);
    if data_start(t) > data_end(t) {
        names
    } else {
        names + columns_patterns(sheet, t, t.columns@.len() as int)
    }
}

/// A table's data rows never reach into its totals rows: every data row
/// lies at least `totals_row_count` rows above the table's last row, and
/// when the table is tall enough the data rows run right up to the first
/// totals row.
pub proof fn law_data_rows_stop_before_totals(t: TableSpec, row: int)
    ensures
        data_start(t) <= row <= data_end(t) && 1 <= data_start(t) ==> row + t.totals_row_count
            <= t.ref_range.1.0,
        t.totals_row_count <= t.ref_range.1.0 ==> data_end(t) + t.totals_row_count == t.ref_range.1.0,
{
}

/// The whole-table references of a table under its name: `[#Headers]`
/// spans the header rows from the table's first row, `[#All]` the whole
/// table, and `[#Data]`, when the table has data rows, the rows after the
/// headers down to the last row before the totals; each across every
/// column of the table.
pub proof fn law_whole_table_references(sheet: Seq<char>, t: TableSpec)
    ensures
        ({
            let (start, left) = t.ref_range.0;
            let (end, right) = t.ref_range.1;
            let ps = table_patterns(sheet, t);
            &&& ps.contains(
                (
                    t.name@ + "[#Headers]"@,
                    sheet,
                    table_address(sheet, start, (start + t.header_row_count - 1) as u32, left, right),
                    false,
                ),
            )
            &&& ps.contains((t.name@ + "[#All]"@, sheet, table_address(sheet, start, end, left, right), false))
            &&& t.totals_row_count <= end && start + t.header_row_count <= end - t.totals_row_count ==> ps.contains(
                (
                    t.name@ + "[#Data]"@,
                    sheet,
                    table_address(
                        sheet,
                        (start + t.header_row_count) as u32,
                        (end - t.totals_row_count) as u32,
                        left,
                        right,
                    ),
                    false,
                ),
            )
        }),
{
    let names = name_patterns(t.name@, sheet, t) + name_patterns(t.display_name@, sheet, t);
    let np = name_patterns(t.name@, sheet, t);
    let ps = table_patterns(sheet, t);
    assert forall|i: int| 0 <= i < np.len() implies ps[i] == #[trigger] np[i] by {
        assert(names[i] == np[i]);
        if data_start(t) <= data_end(t) {
            assert(ps == names + columns_patterns(sheet, t, t.columns@.len() as int));
        }
    }
    assert(ps.len() >= np.len()) by {
        if data_start(t) <= data_end(t) {
            assert(ps == names + columns_patterns(sheet, t, t.columns@.len() as int));
        }
    }
    assert(ps[0] == np[0]);
    assert(ps[1] == np[1]);
    if t.totals_row_count <= t.ref_range.1.0 && t.ref_range.0.0 + t.header_row_count <= t.ref_range.1.0
        - t.totals_row_count {
        assert(ps[2] == np[2]);
    }
}

proof fn lemma_columns_patterns_hold(sheet: Seq<char>, t: TableSpec, m: int, k: int)
    requires
        0 <= k < m <= t.columns@.len(),
    ensures
        columns_patterns(sheet, t, m).contains(
            (
                t.name@ + seq!['['] + t.columns@[k]@ + seq![']'],
                sheet,
                table_address(sheet, data_start(t) as u32, data_end(t), column_at(t, k), column_at(t, k)),
                false,
            ),
        ),
    decreases m,
{
    let prev = columns_patterns(sheet, t, m - 1);
    let col = column_at(t, m - 1);
    let qualified = table_address(sheet, data_start(t) as u32, data_end(t), col, col);
    let cn = t.columns@[m - 1]@;
    let a = column_patterns(t.name@, sheet, cn, qualified, col, t);
    let b = column_patterns(t.display_name@, sheet, cn, qualified, col, t);
    assert(columns_patterns(sheet, t, m) == prev + a + b);
    let target = (
        t.name@ + seq!['['] + t.columns@[k]@ + seq![']'],
        sheet,
        table_address(sheet, data_start(t) as u32, data_end(t), column_at(t, k), column_at(t, k)),
        false,
    );
    if k == m - 1 {
        assert(a[0] == target);
        assert((prev + a + b)[prev.len() as int] == target);
    } else {
        lemma_columns_patterns_hold(sheet, t, m - 1, k);
        let i = choose|i: int| 0 <= i < prev.len() && prev[i] == target;
        assert((prev + a + b)[i] == target);
    }
}

/// `Table[Column]` reads the column's data rows only: for a table whose
/// data rows exist, the pattern of each column stands for the range of that
/// column from the row after the headers down to the row before the totals
/// (the table's last row less `totals_row_count`), never a totals row.
pub proof fn law_column_reads_its_data_rows(sheet: Seq<char>, t: TableSpec, k: int)
    requires
        0 <= k < t.columns@.len(),
        data_start(t) <= data_end(t),
        t.totals_row_count <= t.ref_range.1.0,
    ensures
        table_patterns(sheet, t).contains(
            (
                t.name@ + seq!['['] + t.columns@[k]@ + seq![']'],
                sheet,
                table_address(
                    sheet,
                    (t.ref_range.0.0 + t.header_row_count) as u32,
                    (t.ref_range.1.0 - t.totals_row_count) as u32,
                    column_at(t, k),
                    column_at(t, k),
                ),
                false,
            ),
        ),
{
    lemma_columns_patterns_hold(sheet, t, t.columns@.len() as int, k);
    let names = name_patterns(t.name@, sheet, t) + name_patterns(t.display_name@, sheet, t);
    let cols = columns_patterns(sheet, t, t.columns@.len() as int);
    let target = (
        t.name@ + seq!['['] + t.columns@[k]@ + seq![']'],
        sheet,
        table_address(sheet, data_start(t) as u32, data_end(t), column_at(t, k), column_at(t, k)),
        false,
    );
    let i = choose|i: int| 0 <= i < cols.len() && cols[i] == target;
    assert((names + cols)[names.len() + i] == target);
    assert(data_end(t) == (t.ref_range.1.0 - t.totals_row_count) as u32);
}

/// The row arithmetic of a table stays within `u32`: the header rows end at
/// or after row 0 and the first data row fits; each column's position fits
/// when the table has data rows.
pub open spec fn table_fits(t: TableSpec) -> bool {
    &&& 1 <= data_start(t) <= u32::MAX
    &&& data_start(t) <= data_end(t) ==> t.ref_range.0.1 + t.columns@.len() <= u32::MAX + 1
}

pub open spec fn sheet_tables_patterns(sheet: Seq<char>, ts: Seq<TableSpec>) -> Seq<PatternV>
    decreases ts.len(),
{
    if ts.len() == 0 {
        Seq::empty()
    } else {
        sheet_tables_patterns(sheet, ts.drop_last()) + table_patterns(sheet, ts.last())
    }
}

/// The patterns of every table of every sheet, in order.
pub open spec fn all_patterns(sheets: Seq<TableSheet>) -> Seq<PatternV>
    decreases sheets.len(),
{
    if sheets.len() == 0 {
        Seq::empty()
    } else {
        all_patterns(sheets.drop_last()) + sheet_tables_patterns(sheets.last().name@, sheets.last().tables@)
    }
}

pub open spec fn tables_fit(sheets: Seq<TableSheet>) -> bool {
    forall|i: int, j: int|
        0 <= i < sheets.len() && 0 <= j < sheets[i].tables@.len() ==> #[trigger] table_fits(sheets[i].tables@[j])
}

type Pattern = (Vec<char>, Vec<char>, Vec<char>, bool);

spec fn pattern_view(p: Pattern) -> PatternV {
    (p.0@, p.1@, p.2@, p.3)
}

spec fn patterns_view(ps: Seq<Pattern>) -> Seq<PatternV> {
    ps.map_values(|p: Pattern| pattern_view(p))
}

fn push_pattern(out: &mut Vec<Pattern>, p: Pattern)
    ensures
        patterns_view(final(out)@) == patterns_view(old(out)@).push(pattern_view(p)),
{
    let ghost pv = pattern_view(p);
    out.push(p);
    proof {
        assert(patterns_view(out@) =~= patterns_view(old(out)@).push(pv));
    }
}

fn copy_chars(v: &Vec<char>) -> (r: Vec<char>)
    ensures
        r@ == v@,
{
    let r = slice_chars(v, 0, v.len());
    proof {
        assert(r@ =~= v@);
    }
    r
}

fn concat3(a: &Vec<char>, b: &str, c: &Vec<char>) -> (r: Vec<char>)
    ensures
        r@ == a@ + b@ + c@,
{
    let mut out = copy_chars(a);
    crate::text::push_str_chars(&mut out, b);
    push_all(&mut out, c);
    out
}

fn table_address_exec(sheet: &Vec<char>, start: u32, end: u32, left: u32, right: u32) -> (r: Vec<char>)
    ensures
        r@ == table_address(sheet@, start, end, left, right),
{
    let mut out = copy_chars(sheet);
    out.push('!');
    push_all(&mut out, &column_label(if left >= 1 { left - 1 } else { 0 }));
    push_all(&mut out, &fmt_u64(start as u64));
    out.push(':');
    push_all(&mut out, &column_label(if right >= 1 { right - 1 } else { 0 }));
    push_all(&mut out, &fmt_u64(end as u64));
    proof {
        assert(out@ =~= table_address(sheet@, start, end, left, right));
    }
    out
}

fn push_name_patterns(out: &mut Vec<Pattern>, nm: &Vec<char>, sheet: &Vec<char>, t: &TableSpec)
    requires
        table_fits(*t),
    ensures
        patterns_view(final(out)@) == patterns_view(old(out)@) + name_patterns(nm@, sheet@, *t),
{
    let ghost before = patterns_view(out@);
    let (start, left) = t.ref_range.0;
    let (end, right) = t.ref_range.1;
    let ds: u32 = start + t.header_row_count;
    let he: u32 = ds - 1;
    let de: u32 = if end >= t.totals_row_count { end - t.totals_row_count } else { 0 };
    let mut p = copy_chars(nm);
    crate::text::push_str_chars(&mut p, "[#Headers]");
    push_pattern(out, (p, copy_chars(sheet), table_address_exec(sheet, start, he, left, right), false));
    let mut p = copy_chars(nm);
    crate::text::push_str_chars(&mut p, "[#All]");
    push_pattern(out, (p, copy_chars(sheet), table_address_exec(sheet, start, end, left, right), false));
    if ds <= de {
        let mut p = copy_chars(nm);
        crate::text::push_str_chars(&mut p, "[#Data]");
        push_pattern(out, (p, copy_chars(sheet), table_address_exec(sheet, ds, de, left, right), false));
    }
    proof {
        assert(patterns_view(out@) =~= before + name_patterns(nm@, sheet@, *t));
    }
}

fn push_column_patterns(
    out: &mut Vec<Pattern>,
    nm: &Vec<char>,
    sheet: &Vec<char>,
    cn: &Vec<char>,
    qualified: &Vec<char>,
    col: u32,
    t: &TableSpec,
)
    requires
        table_fits(*t),
    ensures
        patterns_view(final(out)@) == patterns_view(old(out)@) + column_patterns(nm@, sheet@, cn@, qualified@, col, *t),
{
    let ghost before = patterns_view(out@);
    let start = t.ref_range.0.0;
    let end = t.ref_range.1.0;
    let he: u32 = start + t.header_row_count - 1;
    let mut p = copy_chars(nm);
    p.push('[');
    push_all(&mut p, cn);
    p.push(']');
    proof {
        assert(p@ =~= nm@ + seq!['['] + cn@ + seq![']']);
    }
    push_pattern(out, (p, copy_chars(sheet), copy_chars(qualified), false));
    let mut p = concat3(nm, "[[#Data],[", cn);
    crate::text::push_str_chars(&mut p, "]]");
    push_pattern(out, (p, copy_chars(sheet), copy_chars(qualified), false));
    let mut p = concat3(nm, "[[#Headers],[", cn);
    crate::text::push_str_chars(&mut p, "]]");
    push_pattern(out, (p, copy_chars(sheet), table_address_exec(sheet, start, he, col, col), false));
    let mut p = concat3(nm, "[[#All],[", cn);
    crate::text::push_str_chars(&mut p, "]]");
    push_pattern(out, (p, copy_chars(sheet), table_address_exec(sheet, start, end, col, col), false));
    let mut p = copy_chars(nm);
    p.push('[');
    p.push('@');
    push_all(&mut p, cn);
    p.push(']');
    proof {
        assert(p@ =~= nm@ + seq!['[', '@'] + cn@ + seq![']']);
    }
    push_pattern(out, (p, copy_chars(sheet), copy_chars(qualified), true));
    let mut p = concat3(nm, "[[#This Row],[", cn);
    crate::text::push_str_chars(&mut p, "]]");
    push_pattern(out, (p, copy_chars(sheet), copy_chars(qualified), true));
    proof {
        assert(patterns_view(out@) =~= before + column_patterns(nm@, sheet@, cn@, qualified@, col, *t));
    }
}

fn push_table_patterns(out: &mut Vec<Pattern>, sheet: &Vec<char>, t: &TableSpec)
    requires
        table_fits(*t),
    ensures
        patterns_view(final(out)@) == patterns_view(old(out)@) + table_patterns(sheet@, *t),
{
    let ghost before = patterns_view(out@);
    let name = crate::text::string_chars(&t.name);
    let display = crate::text::string_chars(&t.display_name);
    push_name_patterns(out, &name, sheet, t);
    push_name_patterns(out, &display, sheet, t);
    let ghost names = name_patterns(t.name@, sheet@, *t) + name_patterns(t.display_name@, sheet@, *t);
    proof {
        assert(patterns_view(out@) =~= before + names);
    }
    let ds: u32 = t.ref_range.0.0 + t.header_row_count;
    let de: u32 = if t.ref_range.1.0 >= t.totals_row_count { t.ref_range.1.0 - t.totals_row_count } else { 0 };
    if ds > de {
        return;
    }
    let mut index: usize = 0;
    proof {
        assert(patterns_view(out@) =~= before + names + columns_patterns(sheet@, *t, 0));
    }
    while index < t.columns.len()
        invariant
            0 <= index <= t.columns@.len(),
            table_fits(*t),
            data_start(*t) <= data_end(*t),
            ds == data_start(*t),
            de == data_end(*t),
            name@ == t.name@,
            display@ == t.display_name@,
            patterns_view(out@) == before + names + columns_patterns(sheet@, *t, index as int),
        decreases t.columns@.len() - index,
    {
        let col: u32 = t.ref_range.0.1 + index as u32;
        proof {
            assert(col == column_at(*t, index as int));
        }
        let qualified = table_address_exec(sheet, ds, de, col, col);
        let cn = crate::text::string_chars(&t.columns[index]);
        let ghost mid = patterns_view(out@);
        push_column_patterns(out, &name, sheet, &cn, &qualified, col, t);
        push_column_patterns(out, &display, sheet, &cn, &qualified, col, t);
        proof {
            assert(patterns_view(out@) =~= before + names + columns_patterns(sheet@, *t, index + 1));
        }
        index = index + 1;
    }
}

fn collect_patterns(sheets: &Vec<TableSheet>) -> (r: Vec<Pattern>)
    requires
        tables_fit(sheets@),
    ensures
        patterns_view(r@) == all_patterns(sheets@),
{
    let mut out: Vec<Pattern> = Vec::new();
    let mut s: usize = 0;
    proof {
        assert(sheets@.subrange(0, 0) =~= Seq::<TableSheet>::empty());
        assert(patterns_view(out@) =~= all_patterns(sheets@.subrange(0, 0)));
    }
    while s < sheets.len()
        invariant
            0 <= s <= sheets@.len(),
            tables_fit(sheets@),
            patterns_view(out@) == all_patterns(sheets@.subrange(0, s as int)),
        decreases sheets@.len() - s,
    {
        let sheet = crate::text::string_chars(&sheets[s].name);
        let tables = &sheets[s].tables;
        let ghost base = patterns_view(out@);
        let mut k: usize = 0;
        proof {
            assert(tables@.subrange(0, 0) =~= Seq::<TableSpec>::empty());
            assert(patterns_view(out@) =~= base + sheet_tables_patterns(sheet@, tables@.subrange(0, 0)));
        }
        while k < tables.len()
            invariant
                0 <= k <= tables@.len(),
                s < sheets@.len(),
                tables == sheets@[s as int].tables,
                tables_fit(sheets@),
                patterns_view(out@) == base + sheet_tables_patterns(sheet@, tables@.subrange(0, k as int)),
            decreases tables@.len() - k,
        {
            proof {
                assert(table_fits(sheets@[s as int].tables@[k as int]));
                let pre = tables@.subrange(0, k + 1);
                assert(pre.drop_last() =~= tables@.subrange(0, k as int));
                assert(pre.last() == tables@[k as int]);
            }
            push_table_patterns(&mut out, &sheet, &tables[k]);
            k = k + 1;
        }
        proof {
            let pre = sheets@.subrange(0, s + 1);
            assert(pre.drop_last() =~= sheets@.subrange(0, s as int));
            assert(pre.last() == sheets@[s as int]);
            assert(tables@.subrange(0, tables@.len() as int) =~= tables@);
            assert(patterns_view(out@) =~= all_patterns(pre));
        }
        s = s + 1;
    }
    proof {
        assert(sheets@.subrange(0, sheets@.len() as int) =~= sheets@);
    }
    out
}

// ── Longest pattern first ────────────────────────────────────────────────

/// The first index at or after `j` whose pattern is shorter (in UTF-8
/// bytes) than `n`, or the end.
pub open spec fn first_shorter_pattern(sorted: Seq<PatternV>, n: nat, j: int) -> int
    decreases sorted.len() - j,
{
    if !(0 <= j < sorted.len()) {
        sorted.len() as int
    } else if utf8_len(sorted[j].0) < n {
        j
    } else {
        first_shorter_pattern(sorted, n, j + 1)
    }
}

/// The patterns ordered by decreasing text length in UTF-8 bytes; patterns
/// of equal length keep their order.
pub open spec fn longest_pattern_first(ps: Seq<PatternV>) -> Seq<PatternV>
    decreases ps.len(),
{
    if ps.len() == 0 {
        Seq::empty()
    } else {
        let s = longest_pattern_first(ps.drop_last());
        s.insert(first_shorter_pattern(s, utf8_len(ps.last().0), 0), ps.last())
    }
}

fn copy_pattern(p: &Pattern) -> (r: Pattern)
    ensures
        pattern_view(r) == pattern_view(*p),
{
    (copy_chars(&p.0), copy_chars(&p.1), copy_chars(&p.2), p.3)
}

fn sort_patterns(ps: &Vec<Pattern>) -> (r: Vec<Pattern>)
    ensures
        patterns_view(r@) == longest_pattern_first(patterns_view(ps@)),
{
    let ghost pv = patterns_view(ps@);
    let mut sorted: Vec<Pattern> = Vec::new();
    let mut lens: Vec<u128> = Vec::new();
    let mut i: usize = 0;
    proof {
        assert(pv.subrange(0, 0) =~= Seq::<PatternV>::empty());
        assert(patterns_view(sorted@) =~= longest_pattern_first(pv.subrange(0, 0)));
    }
    while i < ps.len()
        invariant
            0 <= i <= ps@.len(),
            pv == patterns_view(ps@),
            pv.len() == ps@.len(),
            lens@.len() == sorted@.len(),
            forall|k: int| 0 <= k < sorted@.len() ==> #[trigger] lens@[k] as nat == utf8_len(patterns_view(sorted@)[k].0),
            patterns_view(sorted@) == longest_pattern_first(pv.subrange(0, i as int)),
        decreases ps@.len() - i,
    {
        let ghost pre = pv.subrange(0, i + 1);
        let ghost s = patterns_view(sorted@);
        proof {
            assert(pre.drop_last() =~= pv.subrange(0, i as int));
            assert(pre.last() == pv[i as int]);
        }
        let n = crate::text::utf8_byte_len(&ps[i].0);
        let mut j: usize = 0;
        while j < sorted.len() && lens[j] >= n
            invariant
                0 <= j <= sorted@.len(),
                lens@.len() == sorted@.len(),
                s == patterns_view(sorted@),
                i < ps@.len(),
                n as nat == utf8_len(pv[i as int].0),
                forall|k: int| 0 <= k < sorted@.len() ==> #[trigger] lens@[k] as nat == utf8_len(s[k].0),
                first_shorter_pattern(s, utf8_len(pv[i as int].0), 0) == first_shorter_pattern(
                    s,
                    utf8_len(pv[i as int].0),
                    j as int,
                ),
            decreases sorted@.len() - j,
        {
            j = j + 1;
        }
        let p = copy_pattern(&ps[i]);
        let ghost before_l = lens@;
        sorted.insert(j, p);
        lens.insert(j, n);
        proof {
            assert(patterns_view(sorted@) =~= s.insert(j as int, pv[i as int]));
            assert forall|k: int| 0 <= k < sorted@.len() implies #[trigger] lens@[k] as nat == utf8_len(patterns_view(sorted@)[k].0) by {
                if k < j {
                    assert(lens@[k] == before_l[k]);
                } else if k > j {
                    assert(lens@[k] == before_l[k - 1]);
                }
            }
        }
        i = i + 1;
    }
    proof {
        assert(pv.subrange(0, pv.len() as int) =~= pv);
    }
    sorted
}

// ── Rewriting every formula ──────────────────────────────────────────────

/// The chars of `s` without its trailing ASCII digits.
pub open spec fn trim_end_digits(s: Seq<char>) -> Seq<char>
    decreases s.len(),
{
    if s.len() > 0 && is_ascii_digit(s.last()) {
        trim_end_digits(s.drop_last())
    } else {
        s
    }
}

/// The chars of `s` without its leading ASCII letters.
pub open spec fn trim_start_letters(s: Seq<char>) -> Seq<char>
    decreases s.len(),
{
    if s.len() > 0 && is_ascii_alpha(s[0]) {
        trim_start_letters(s.drop_first())
    } else {
        s
    }
}

/// The text a pattern is replaced by in a formula on `host` at `row`, or
/// `None` when the pattern does not apply there: a this-row pattern applies
/// only on its table's sheet and becomes that column's cell on the formula's
/// row; another pattern becomes its range, unqualified on its own sheet.
pub open spec fn table_replacement(host: Seq<char>, row: u32, p: PatternV) -> Option<Seq<char>> {
    let (_, table_sheet, qualified, this_row) = p;
    let same_sheet = seq_ascii_lower(host) == seq_ascii_lower(table_sheet);
    if this_row && !same_sheet {
        None
    } else if this_row {
        match char_index(qualified, '!', 0) {
            None => None,
            Some(i) => {
                let range = qualified.subrange(i + 1, qualified.len() as int);
                match char_index(range, ':', 0) {
                    None => None,
                    Some(j) => {
                        let start = range.subrange(0, j);
                        let end = range.subrange(j + 1, range.len() as int);
                        let col = trim_end_digits(start);
                        if parse_u32_text(trim_start_letters(start)) is None || trim_end_digits(end) != col {
                            None
                        } else {
                            Some(col + decimal(row as nat))
                        }
                    },
                }
            },
        }
    } else if same_sheet {
        match char_index(qualified, '!', 0) {
            Some(i) => Some(qualified.subrange(i + 1, qualified.len() as int)),
            None => Some(qualified),
        }
    } else {
        Some(qualified)
    }
}

/// A formula on `host` at `row` with each pattern applied in turn.
pub open spec fn apply_table_patterns(f: Seq<char>, host: Seq<char>, row: u32, ps: Seq<PatternV>) -> Seq<char>
    decreases ps.len(),
{
    if ps.len() == 0 {
        f
    } else {
        let prev = apply_table_patterns(f, host, row, ps.drop_last());
        match table_replacement(host, row, ps.last()) {
            None => prev,
            Some(repl) => replace_table_ref(prev, ps.last().0, repl),
        }
    }
}

pub open spec fn rewrite_cells(host: Seq<char>, cells: CellsV, ps: Seq<PatternV>) -> CellsV {
    cells.map_values(
        |c: ((u32, u32), Option<Seq<char>>)|
            (
                c.0,
                match c.1 {
                    Some(f) => Some(apply_table_patterns(f, host, c.0.0, ps)),
                    None => None::<Seq<char>>,
                },
            ),
    )
}

/// Every formula of every sheet with the tables' patterns applied, longest
/// pattern first.
pub open spec fn spec_rewrite_tables(sheets: Seq<(Seq<char>, CellsV)>, tables: Seq<TableSheet>) -> Seq<(Seq<char>, CellsV)> {
    let ps = longest_pattern_first(all_patterns(tables));
    sheets.map_values(|s: (Seq<char>, CellsV)| (s.0, rewrite_cells(s.0, s.1, ps)))
}

fn index_of(s: &Vec<char>, c: char) -> (r: Option<usize>)
    ensures
        r matches Some(i) ==> i < s.len() && char_index(s@, c, 0) == Some(i as int),
        r is None ==> char_index(s@, c, 0) is None,
{
    let mut i: usize = 0;
    while i < s.len()
        invariant
            0 <= i <= s@.len(),
            char_index(s@, c, 0) == char_index(s@, c, i as int),
        decreases s@.len() - i,
    {
        if s[i] == c {
            return Some(i);
        }
        i = i + 1;
    }
    None
}

fn trim_end_digits_exec(s: &Vec<char>) -> (r: Vec<char>)
    ensures
        r@ == trim_end_digits(s@),
{
    let mut n: usize = s.len();
    proof {
        assert(s@.subrange(0, n as int) =~= s@);
    }
    while n > 0 && ascii_digit(s[n - 1])
        invariant
            0 <= n <= s@.len(),
            trim_end_digits(s@.subrange(0, n as int)) == trim_end_digits(s@),
        decreases n,
    {
        proof {
            let t = s@.subrange(0, n as int);
            assert(t.drop_last() =~= s@.subrange(0, n - 1));
            assert(t.last() == s@[n - 1]);
        }
        n = n - 1;
    }
    slice_chars(s, 0, n)
}

fn trim_start_letters_exec(s: &Vec<char>) -> (r: Vec<char>)
    ensures
        r@ == trim_start_letters(s@),
{
    let mut a: usize = 0;
    proof {
        assert(s@.subrange(0, s@.len() as int) =~= s@);
    }
    while a < s.len() && ascii_alpha(s[a])
        invariant
            0 <= a <= s@.len(),
            trim_start_letters(s@.subrange(a as int, s@.len() as int)) == trim_start_letters(s@),
        decreases s@.len() - a,
    {
        proof {
            let t = s@.subrange(a as int, s@.len() as int);
            assert(t.drop_first() =~= s@.subrange(a + 1, s@.len() as int));
            assert(t[0] == s@[a as int]);
        }
        a = a + 1;
    }
    slice_chars(s, a, s.len())
}

fn table_replacement_exec(host: &Vec<char>, row: u32, p: &Pattern) -> (r: Option<Vec<char>>)
    ensures
        match table_replacement(host@, row, pattern_view(*p)) {
            Some(t) => r matches Some(x) && x@ == t,
            None => r is None,
        },
{
    let same_sheet = chars_eq(&chars_ascii_lower(host), &chars_ascii_lower(&p.1));
    let qualified = &p.2;
    if p.3 && !same_sheet {
        return None;
    }
    if p.3 {
        let i = match index_of(qualified, '!') {
            None => {
                return None;
            },
            Some(i) => i,
        };
        let range = slice_chars(qualified, i + 1, qualified.len());
        let j = match index_of(&range, ':') {
            None => {
                return None;
            },
            Some(j) => j,
        };
        let start = slice_chars(&range, 0, j);
        let end = slice_chars(&range, j + 1, range.len());
        let col = trim_end_digits_exec(&start);
        if parse_u32(&trim_start_letters_exec(&start)).is_none() || !chars_eq(&trim_end_digits_exec(&end), &col) {
            return None;
        }
        let mut out = copy_chars(&col);
        push_all(&mut out, &fmt_u64(row as u64));
        return Some(out);
    }
    if same_sheet {
        match index_of(qualified, '!') {
            Some(i) => Some(slice_chars(qualified, i + 1, qualified.len())),
            None => Some(copy_chars(qualified)),
        }
    } else {
        Some(copy_chars(qualified))
    }
}

fn apply_patterns_to_formula(f: &String, host: &Vec<char>, row: u32, ps: &Vec<Pattern>) -> (r: String)
    requires
        forall|k: int| 0 <= k < ps@.len() ==> (#[trigger] ps@[k]).0@.len() > 0,
    ensures
        r@ == apply_table_patterns(f@, host@, row, patterns_view(ps@)),
{
    let ghost pv = patterns_view(ps@);
    let mut cur = crate::text::string_chars(f);
    let mut k: usize = 0;
    proof {
        assert(pv.subrange(0, 0) =~= Seq::<PatternV>::empty());
    }
    while k < ps.len()
        invariant
            0 <= k <= ps@.len(),
            pv == patterns_view(ps@),
            pv.len() == ps@.len(),
            forall|x: int| 0 <= x < ps@.len() ==> (#[trigger] ps@[x]).0@.len() > 0,
            cur@ == apply_table_patterns(f@, host@, row, pv.subrange(0, k as int)),
        decreases ps@.len() - k,
    {
        let ghost pre = pv.subrange(0, k + 1);
        proof {
            assert(pre.drop_last() =~= pv.subrange(0, k as int));
            assert(pre.last() == pv[k as int]);
            assert(ps@[k as int].0@.len() > 0);
        }
        match table_replacement_exec(host, row, &ps[k]) {
            None => {},
            Some(repl) => {
                cur = replace_table_ref_chars(&cur, &ps[k].0, &repl);
            },
        }
        k = k + 1;
    }
    proof {
        assert(pv.subrange(0, pv.len() as int) =~= pv);
    }
    crate::text::string_from_chars(&cur)
}

/// Every pattern text is non-empty.
pub open spec fn texts_nonempty(ps: Seq<PatternV>) -> bool {
    forall|k: int| 0 <= k < ps.len() ==> (#[trigger] ps[k]).0.len() > 0
}

proof fn lemma_texts_nonempty_concat(a: Seq<PatternV>, b: Seq<PatternV>)
    requires
        texts_nonempty(a),
        texts_nonempty(b),
    ensures
        texts_nonempty(a + b),
{
    assert forall|k: int| 0 <= k < (a + b).len() implies (#[trigger] (a + b)[k]).0.len() > 0 by {
        if k < a.len() {
            assert((a + b)[k] == a[k]);
        } else {
            assert((a + b)[k] == b[k - a.len()]);
        }
    }
}

proof fn lemma_name_patterns_nonempty(nm: Seq<char>, sheet: Seq<char>, t: TableSpec)
    ensures
        texts_nonempty(name_patterns(nm, sheet, t)),
{
    reveal_strlit("[#Headers]");
    reveal_strlit("[#All]");
    reveal_strlit("[#Data]");
    let ps = name_patterns(nm, sheet, t);
    assert forall|k: int| 0 <= k < ps.len() implies (#[trigger] ps[k]).0.len() > 0 by {
    }
}

proof fn lemma_column_patterns_nonempty(nm: Seq<char>, sheet: Seq<char>, cn: Seq<char>, q: Seq<char>, col: u32, t: TableSpec)
    ensures
        texts_nonempty(column_patterns(nm, sheet, cn, q, col, t)),
{
    reveal_strlit("[[#Data],[");
    reveal_strlit("[[#Headers],[");
    reveal_strlit("[[#All],[");
    reveal_strlit("[[#This Row],[");
    let ps = column_patterns(nm, sheet, cn, q, col, t);
    assert forall|k: int| 0 <= k < ps.len() implies (#[trigger] ps[k]).0.len() > 0 by {
    }
}

proof fn lemma_columns_patterns_nonempty(sheet: Seq<char>, t: TableSpec, m: int)
    ensures
        texts_nonempty(columns_patterns(sheet, t, m)),
    decreases m,
{
    if m > 0 {
        lemma_columns_patterns_nonempty(sheet, t, m - 1);
        let col = column_at(t, m - 1);
        let qualified = table_address(sheet, data_start(t) as u32, data_end(t), col, col);
        let cn = t.columns@[m - 1]@;
        lemma_column_patterns_nonempty(t.name@, sheet, cn, qualified, col, t);
        lemma_column_patterns_nonempty(t.display_name@, sheet, cn, qualified, col, t);
        lemma_texts_nonempty_concat(
            columns_patterns(sheet, t, m - 1),
            column_patterns(t.name@, sheet, cn, qualified, col, t),
        );
        lemma_texts_nonempty_concat(
            columns_patterns(sheet, t, m - 1) + column_patterns(t.name@, sheet, cn, qualified, col, t),
            column_patterns(t.display_name@, sheet, cn, qualified, col, t),
        );
    }
}

proof fn lemma_table_patterns_nonempty(sheet: Seq<char>, t: TableSpec)
    ensures
        texts_nonempty(table_patterns(sheet, t)),
{
    lemma_name_patterns_nonempty(t.name@, sheet, t);
    lemma_name_patterns_nonempty(t.display_name@, sheet, t);
    let names = name_patterns(t.name@, sheet, t) + name_patterns(t.display_name@, sheet, t);
    lemma_texts_nonempty_concat(name_patterns(t.name@, sheet, t), name_patterns(t.display_name@, sheet, t));
    lemma_columns_patterns_nonempty(sheet, t, t.columns@.len() as int);
    lemma_texts_nonempty_concat(names, columns_patterns(sheet, t, t.columns@.len() as int));
}

proof fn lemma_sheet_patterns_nonempty(sheet: Seq<char>, ts: Seq<TableSpec>)
    ensures
        texts_nonempty(sheet_tables_patterns(sheet, ts)),
    decreases ts.len(),
{
    if ts.len() > 0 {
        lemma_sheet_patterns_nonempty(sheet, ts.drop_last());
        lemma_table_patterns_nonempty(sheet, ts.last());
        lemma_texts_nonempty_concat(sheet_tables_patterns(sheet, ts.drop_last()), table_patterns(sheet, ts.last()));
    }
}

proof fn lemma_all_patterns_nonempty(sheets: Seq<TableSheet>)
    ensures
        texts_nonempty(all_patterns(sheets)),
    decreases sheets.len(),
{
    if sheets.len() > 0 {
        lemma_all_patterns_nonempty(sheets.drop_last());
        lemma_sheet_patterns_nonempty(sheets.last().name@, sheets.last().tables@);
        lemma_texts_nonempty_concat(
            all_patterns(sheets.drop_last()),
            sheet_tables_patterns(sheets.last().name@, sheets.last().tables@),
        );
    }
}

proof fn lemma_first_shorter_pattern_bounds(sorted: Seq<PatternV>, n: nat, j: int)
    requires
        0 <= j <= sorted.len(),
    ensures
        j <= first_shorter_pattern(sorted, n, j) <= sorted.len(),
    decreases sorted.len() - j,
{
    if j < sorted.len() && utf8_len(sorted[j].0) >= n {
        lemma_first_shorter_pattern_bounds(sorted, n, j + 1);
    }
}

proof fn lemma_longest_first_nonempty(ps: Seq<PatternV>)
    requires
        texts_nonempty(ps),
    ensures
        texts_nonempty(longest_pattern_first(ps)),
        longest_pattern_first(ps).len() == ps.len(),
    decreases ps.len(),
{
    if ps.len() > 0 {
        let init = ps.drop_last();
        assert forall|k: int| 0 <= k < init.len() implies (#[trigger] init[k]).0.len() > 0 by {
            assert(init[k] == ps[k]);
        }
        lemma_longest_first_nonempty(init);
        let s = longest_pattern_first(init);
        let at = first_shorter_pattern(s, utf8_len(ps.last().0), 0);
        lemma_first_shorter_pattern_bounds(s, utf8_len(ps.last().0), 0);
        let r = s.insert(at, ps.last());
        assert(ps.last() == ps[ps.len() - 1]);
        assert forall|k: int| 0 <= k < r.len() implies (#[trigger] r[k]).0.len() > 0 by {
            if k < at {
                assert(r[k] == s[k]);
            } else if k > at {
                assert(r[k] == s[k - 1]);
            }
        }
    }
}

/// Rewrites the structured table references in every formula of `sheets`
/// (each `(name, cells)`, each cell `((row, col), formula)`): for each
/// table of `tables`, its `Name[#Headers]`, `Name[#All]`, `Name[#Data]`,
/// `Name[Column]`, `Name[[#Data],[Column]]`, `Name[[#Headers],[Column]]`,
/// `Name[[#All],[Column]]` (under both its name and display name) become
/// the A1 range they name, unqualified on the table's own sheet, and
/// `Name[@Column]` / `Name[[#This Row],[Column]]` on the table's sheet
/// become that column's cell on the formula's row. Longer patterns apply
/// first; a match inside a string literal or a longer identifier is left
/// alone; matching is ASCII case-insensitive.
pub fn rewrite_table_structured_formulas(
    sheets: &mut Vec<(String, Vec<((u32, u32), Option<String>)>)>,
    tables: &Vec<TableSheet>,
)
    requires
        tables_fit(tables@),
    ensures
        sheets_view(final(sheets)@) == spec_rewrite_tables(sheets_view(old(sheets)@), tables@),
{
    let patterns = collect_patterns(tables);
    let sorted = sort_patterns(&patterns);
    let ghost ps = longest_pattern_first(all_patterns(tables@));
    proof {
        lemma_all_patterns_nonempty(tables@);
        lemma_longest_first_nonempty(all_patterns(tables@));
        assert forall|k: int| 0 <= k < sorted@.len() implies (#[trigger] sorted@[k]).0@.len() > 0 by {
            assert(patterns_view(sorted@)[k] == pattern_view(sorted@[k]));
        }
    }
    let ghost sv = sheets_view(sheets@);
    let ghost target = spec_rewrite_tables(sv, tables@);
    let mut out: Vec<(String, Vec<((u32, u32), Option<String>)>)> = Vec::new();
    let mut s: usize = 0;
    proof {
        assert(sheets_view(out@) =~= target.subrange(0, 0));
    }
    while s < sheets.len()
        invariant
            0 <= s <= sheets@.len(),
            sv == sheets_view(sheets@),
            sv.len() == sheets@.len(),
            target == spec_rewrite_tables(sv, tables@),
            target.len() == sv.len(),
            ps == longest_pattern_first(all_patterns(tables@)),
            patterns_view(sorted@) == ps,
            forall|k: int| 0 <= k < sorted@.len() ==> (#[trigger] sorted@[k]).0@.len() > 0,
            sheets_view(out@) == target.subrange(0, s as int),
        decreases sheets@.len() - s,
    {
        let host_name = sheets[s].0.clone();
        let host = crate::text::string_chars(&sheets[s].0);
        let cells = &sheets[s].1;
        let ghost cv = cells_view(cells@);
        let ghost tc = rewrite_cells(host@, cv, ps);
        proof {
            assert(sv[s as int] == (host@, cv));
            assert(target[s as int] == (host@, tc));
        }
        let mut new_cells: Vec<((u32, u32), Option<String>)> = Vec::new();
        let mut c: usize = 0;
        proof {
            assert(cells_view(new_cells@) =~= tc.subrange(0, 0));
        }
        while c < cells.len()
            invariant
                0 <= c <= cells@.len(),
                cv == cells_view(cells@),
                cv.len() == cells@.len(),
                tc == rewrite_cells(host@, cv, ps),
                tc.len() == cv.len(),
                patterns_view(sorted@) == ps,
                forall|k: int| 0 <= k < sorted@.len() ==> (#[trigger] sorted@[k]).0@.len() > 0,
                cells_view(new_cells@) == tc.subrange(0, c as int),
            decreases cells@.len() - c,
        {
            let pos = cells[c].0;
            let nf = match &cells[c].1 {
                Some(f) => Some(apply_patterns_to_formula(f, &host, pos.0, &sorted)),
                None => None,
            };
            let ghost before = cells_view(new_cells@);
            new_cells.push((pos, nf));
            proof {
                assert(cells_view(new_cells@) =~= before.push(tc[c as int]));
                assert(tc.subrange(0, c + 1) =~= tc.subrange(0, c as int).push(tc[c as int]));
            }
            c = c + 1;
        }
        let ghost before = sheets_view(out@);
        proof {
            assert(tc.subrange(0, tc.len() as int) =~= tc);
        }
        out.push((host_name, new_cells));
        proof {
            assert(sheets_view(out@) =~= before.push(target[s as int]));
            assert(target.subrange(0, s + 1) =~= target.subrange(0, s as int).push(target[s as int]));
        }
        s = s + 1;
    }
    proof {
        assert(target.subrange(0, target.len() as int) =~= target);
    }
    *sheets = out;
}

} // verus!
