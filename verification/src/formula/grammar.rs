//! The formula grammar as spec functions over the normalized input text
//! (`Seq<char>`). Each function takes the parse state -- the position and
//! the reference occurrences recorded so far -- and the parenthesis nesting
//! depth, and gives the parsed value with the state after it, or the error.
//! The executable parser in `super::parser` is proved to compute exactly
//! these functions.

use vstd::prelude::*;
use crate::text::{
    col_letters, is_ascii_upper, letter, ascii_upper, decimal, digits_value, formula_body, is_ascii_alpha, is_ascii_digit,
    unicode_alphabetic, unicode_alphanumeric, utf8_len,
};
use super::ast::{BinOpKind, ExprV, QualV};

verus! {

pub const MAX_FORMULA_BYTES: usize = 1 * 1024 * 1024;
pub const MAX_FORMULA_REFS: usize = 100_000;
pub const MAX_FORMULA_NODES: usize = 200_000;
pub const MAX_FORMULA_DEPTH: usize = 256;

/// The view of a `RefOccurrence`.
pub enum RefV {
    Cell {
        span: (usize, usize),
        col: u32,
        row: u32,
        abs_col: bool,
        abs_row: bool,
        sheet: Option<QualV>,
    },
    Range {
        span: (usize, usize),
        c1: u32,
        r1: u32,
        abs_c1: bool,
        abs_r1: bool,
        c1_span: (usize, usize),
        c2: u32,
        r2: u32,
        abs_c2: bool,
        abs_r2: bool,
        c2_span: (usize, usize),
        sheet: Option<QualV>,
    },
}

/// Why a formula is rejected.
pub enum ErrV {
    NestingTooDeep,
    ExpectedCloseParen,
    UnexpectedChar(char),
    UnexpectedEnd,
    UnterminatedString,
    ColumnLettersInRange,
    RowNumberInRange(Seq<char>),
    RowOverflow,
    TooManyRefs,
    UnterminatedSheetName,
    ColumnLettersAfterDollar,
    RowNumberAfter(Seq<char>),
    CloseAfterArguments(Seq<char>),
    TooLong(nat),
    TrailingInput(nat, Seq<char>),
    AstTooLarge,
    AstTooDeep,
}

/// Where a recorded reference's text begins: at its qualifier, if any.
pub open spec fn ref_begin(r: RefV) -> int {
    match r {
        RefV::Cell { span, sheet, .. } => match sheet {
            Some(q) => q.raw_span.0 as int,
            None => span.0 as int,
        },
        RefV::Range { span, sheet, .. } => match sheet {
            Some(q) => q.raw_span.0 as int,
            None => span.0 as int,
        },
    }
}

/// Where a recorded reference's text ends.
pub open spec fn ref_end(r: RefV) -> int {
    match r {
        RefV::Cell { span, .. } => span.1 as int,
        RefV::Range { span, .. } => span.1 as int,
    }
}

pub open spec fn qual_before(sheet: Option<QualV>, start: usize) -> bool {
    match sheet {
        Some(q) => q.raw_span.0 <= q.raw_span.1 < start,
        None => true,
    }
}

/// The spans of one recorded reference are in text order: qualifier, then
/// coordinates (first corner, then second).
pub open spec fn ref_spans_ordered(r: RefV) -> bool {
    match r {
        RefV::Cell { span, sheet, .. } => qual_before(sheet, span.0) && span.0 <= span.1,
        RefV::Range { span, c1_span, c2_span, sheet, .. } => {
            &&& qual_before(sheet, span.0)
            &&& span.0 == c1_span.0
            &&& c1_span.0 <= c1_span.1
            &&& c1_span.1 <= c2_span.0
            &&& c2_span.0 <= c2_span.1
            &&& c2_span.1 == span.1
        },
    }
}

/// Recorded references appear in text order, do not overlap, and end by
/// `bound`.
pub open spec fn refs_ordered(refs: Seq<RefV>, bound: int) -> bool {
    &&& forall|i: int| 0 <= i < refs.len() ==> #[trigger] ref_spans_ordered(refs[i])
    &&& forall|i: int| 0 <= i < refs.len() ==> ref_end(#[trigger] refs[i]) <= bound
    &&& forall|i: int, j: int| 0 <= i < j < refs.len() ==> ref_end(#[trigger] refs[i]) <= ref_begin(#[trigger] refs[j])
}

/// Parse state: the position in the input and the references recorded so far.
pub struct PSt {
    pub pos: int,
    pub refs: Seq<RefV>,
}

pub type PRes = Result<(ExprV, PSt), ErrV>;

/// A reference corner: column, row, `$` flags, and its char span.
pub type Corner = (u32, u32, bool, bool, usize, usize);

// ── Lexical helpers ──────────────────────────────────────────────────────

pub open spec fn is_char(s: Seq<char>, i: int, c: char) -> bool {
    0 <= i < s.len() && s[i] == c
}

pub open spec fn is_ws(c: char) -> bool {
    c == ' ' || c == '\t'
}

/// The position after the spaces and tabs starting at `i`.
pub open spec fn ws_end(s: Seq<char>, i: int) -> int
    decreases s.len() - i,
{
    if 0 <= i < s.len() && is_ws(s[i]) {
        ws_end(s, i + 1)
    } else {
        i
    }
}

/// The position after the ASCII digits starting at `i`.
pub open spec fn digits_end(s: Seq<char>, i: int) -> int
    decreases s.len() - i,
{
    if 0 <= i < s.len() && is_ascii_digit(s[i]) {
        digits_end(s, i + 1)
    } else {
        i
    }
}

/// The position after the ASCII letters starting at `i`.
pub open spec fn alpha_end(s: Seq<char>, i: int) -> int
    decreases s.len() - i,
{
    if 0 <= i < s.len() && is_ascii_alpha(s[i]) {
        alpha_end(s, i + 1)
    } else {
        i
    }
}

/// The position after the Unicode-alphanumeric-or-`_` chars starting at `i`.
pub open spec fn name_end(s: Seq<char>, i: int) -> int
    decreases s.len() - i,
{
    if 0 <= i < s.len() && (unicode_alphanumeric(s[i]) || s[i] == '_') {
        name_end(s, i + 1)
    } else {
        i
    }
}

pub proof fn lemma_ws_end(s: Seq<char>, i: int)
    requires
        0 <= i <= s.len(),
    ensures
        i <= ws_end(s, i) <= s.len(),
        forall|k: int| i <= k < ws_end(s, i) ==> #[trigger] is_ws(s[k]),
        ws_end(s, i) < s.len() ==> !is_ws(s[ws_end(s, i)]),
    decreases s.len() - i,
{
    if i < s.len() && is_ws(s[i]) {
        lemma_ws_end(s, i + 1);
    }
}

pub proof fn lemma_digits_end(s: Seq<char>, i: int)
    requires
        0 <= i <= s.len(),
    ensures
        i <= digits_end(s, i) <= s.len(),
        forall|k: int| i <= k < digits_end(s, i) ==> #[trigger] is_ascii_digit(s[k]),
        digits_end(s, i) < s.len() ==> !is_ascii_digit(s[digits_end(s, i)]),
    decreases s.len() - i,
{
    if i < s.len() && is_ascii_digit(s[i]) {
        lemma_digits_end(s, i + 1);
    }
}

pub proof fn lemma_alpha_end(s: Seq<char>, i: int)
    requires
        0 <= i <= s.len(),
    ensures
        i <= alpha_end(s, i) <= s.len(),
        forall|k: int| i <= k < alpha_end(s, i) ==> #[trigger] is_ascii_alpha(s[k]),
        alpha_end(s, i) < s.len() ==> !is_ascii_alpha(s[alpha_end(s, i)]),
    decreases s.len() - i,
{
    if i < s.len() && is_ascii_alpha(s[i]) {
        lemma_alpha_end(s, i + 1);
    }
}

pub proof fn lemma_name_end(s: Seq<char>, i: int)
    requires
        0 <= i <= s.len(),
    ensures
        i <= name_end(s, i) <= s.len(),
        forall|k: int|
            i <= k < name_end(s, i) ==> (#[trigger] unicode_alphanumeric(s[k]) || s[k] == '_'),
        name_end(s, i) < s.len() ==> !(unicode_alphanumeric(s[name_end(s, i)]) || s[name_end(
            s,
            i,
        )] == '_'),
    decreases s.len() - i,
{
    if i < s.len() && (unicode_alphanumeric(s[i]) || s[i] == '_') {
        lemma_name_end(s, i + 1);
    }
}

pub open spec fn upper_seq(t: Seq<char>) -> Seq<char> {
    Seq::new(t.len(), |k: int| ascii_upper(t[k]))
}

/// The value a column-letter char adds: `c - 'A' + 1`, or 1 for a char
/// below `'A'` (saturating subtraction).
pub open spec fn col_digit(c: char) -> nat {
    if (c as u32) >= 65 {
        ((c as u32) - 64) as nat
    } else {
        1
    }
}

pub open spec fn sat_u32(n: nat) -> nat {
    if n > u32::MAX {
        u32::MAX as nat
    } else {
        n
    }
}

/// Column letters read as a bijective base-26 number, with `u32`
/// saturating arithmetic at every step.
pub open spec fn col_num(t: Seq<char>) -> nat
    decreases t.len(),
{
    if t.len() == 0 {
        0
    } else {
        sat_u32(sat_u32(col_num(t.drop_last()) * 26) + col_digit(t.last()))
    }
}

// ── Pieces with no nested expression ─────────────────────────────────────

/// One corner of a reference: `[$]LETTERS[$]DIGITS` starting at `i`.
pub open spec fn sp_ref_corner(s: Seq<char>, i: int) -> Result<(Corner, int), ErrV> {
    let abs_col = is_char(s, i, '$');
    let p = if abs_col {
        i + 1
    } else {
        i
    };
    let q = alpha_end(s, p);
    let name = upper_seq(s.subrange(p, q));
    if q == p {
        Err(ErrV::ColumnLettersInRange)
    } else {
        let abs_row = is_char(s, q, '$');
        let r = if abs_row {
            q + 1
        } else {
            q
        };
        let t = digits_end(s, r);
        let row = digits_value(s.subrange(r, t));
        if t == r {
            Err(ErrV::RowNumberInRange(name))
        } else if row > u32::MAX {
            Err(ErrV::RowOverflow)
        } else {
            Ok(((col_num(name) as u32, row as u32, abs_col, abs_row, i as usize, t as usize), t))
        }
    }
}

/// After a first corner: an optional `:SECOND` corner, recording the
/// reference occurrence.
pub open spec fn sp_finish_ref(s: Seq<char>, c: Corner, sheet: Option<QualV>, st: PSt) -> PRes {
    let p1 = ws_end(s, st.pos);
    if is_char(s, p1, ':') {
        let p2 = ws_end(s, p1 + 1);
        match sp_ref_corner(s, p2) {
            Err(e) => Err(e),
            Ok((c2, t)) => if st.refs.len() >= MAX_FORMULA_REFS {
                Err(ErrV::TooManyRefs)
            } else {
                Ok(
                    (
                        ExprV::Range {
                            c1: c.0,
                            r1: c.1,
                            c2: c2.0,
                            r2: c2.1,
                            abs_c1: c.2,
                            abs_r1: c.3,
                            abs_c2: c2.2,
                            abs_r2: c2.3,
                            sheet,
                        },
                        PSt {
                            pos: t,
                            refs: st.refs.push(
                                RefV::Range {
                                    span: (c.4, c2.5),
                                    c1: c.0,
                                    r1: c.1,
                                    abs_c1: c.2,
                                    abs_r1: c.3,
                                    c1_span: (c.4, c.5),
                                    c2: c2.0,
                                    r2: c2.1,
                                    abs_c2: c2.2,
                                    abs_r2: c2.3,
                                    c2_span: (c2.4, c2.5),
                                    sheet,
                                },
                            ),
                        },
                    ),
                )
            },
        }
    } else if st.refs.len() >= MAX_FORMULA_REFS {
        Err(ErrV::TooManyRefs)
    } else {
        Ok(
            (
                ExprV::CellRef { col: c.0, row: c.1, abs_col: c.2, abs_row: c.3, sheet },
                PSt {
                    pos: p1,
                    refs: st.refs.push(
                        RefV::Cell {
                            span: (c.4, c.5),
                            col: c.0,
                            row: c.1,
                            abs_col: c.2,
                            abs_row: c.3,
                            sheet,
                        },
                    ),
                },
            ),
        )
    }
}

/// Scans a quoted text whose opening quote `q` is just before `j`: a doubled
/// `q` stands for one `q`, a single `q` closes. Gives the position after the
/// closing quote and the unescaped content, or `None` when no quote closes it.
pub open spec fn quoted_scan(s: Seq<char>, j: int, q: char) -> Option<(int, Seq<char>)>
    decreases s.len() - j,
{
    if !(0 <= j < s.len()) {
        None
    } else if s[j] == q {
        if is_char(s, j + 1, q) {
            match quoted_scan(s, j + 2, q) {
                Some((k, t)) => Some((k, seq![q] + t)),
                None => None,
            }
        } else {
            Some((j + 1, Seq::empty()))
        }
    } else {
        match quoted_scan(s, j + 1, q) {
            Some((k, t)) => Some((k, seq![s[j]] + t)),
            None => None,
        }
    }
}

/// An optional sheet qualifier (`Name!` or `'Quoted Name'!`) at `i`. When no
/// `!` follows a candidate name, there is no qualifier and the position
/// stays at `i`.
pub open spec fn sp_qualifier(s: Seq<char>, i: int) -> Result<(Option<QualV>, int), ErrV> {
    if is_char(s, i, '\'') {
        match quoted_scan(s, i + 1, '\'') {
            None => Err(ErrV::UnterminatedSheetName),
            Some((k, name)) => if is_char(s, k, '!') {
                Ok(
                    (
                        Some(
                            QualV {
                                raw_span: (i as usize, k as usize),
                                raw_text: s.subrange(i, k),
                                normalized_name: name,
                            },
                        ),
                        k + 1,
                    ),
                )
            } else {
                Ok((None, i))
            },
        }
    } else if 0 <= i < s.len() && (unicode_alphabetic(s[i]) || s[i] == '_') {
        let j = name_end(s, i);
        if is_char(s, j, '!') {
            Ok(
                (
                    Some(
                        QualV {
                            raw_span: (i as usize, j as usize),
                            raw_text: s.subrange(i, j),
                            normalized_name: s.subrange(i, j),
                        },
                    ),
                    j + 1,
                ),
            )
        } else {
            Ok((None, i))
        }
    } else {
        Ok((None, i))
    }
}

/// A string literal whose opening `"` is at `i`.
pub open spec fn sp_string(s: Seq<char>, st: PSt) -> PRes {
    match quoted_scan(s, st.pos + 1, '"') {
        None => Err(ErrV::UnterminatedString),
        Some((k, t)) => Ok((ExprV::Str(t), PSt { pos: k, refs: st.refs })),
    }
}

/// A number literal `DIGITS[.DIGITS]` at `i`, kept as its text.
pub open spec fn sp_number(s: Seq<char>, st: PSt) -> PRes {
    let a = digits_end(s, st.pos);
    let b = if is_char(s, a, '.') {
        digits_end(s, a + 1)
    } else {
        a
    };
    Ok((ExprV::Number(s.subrange(st.pos, b)), PSt { pos: b, refs: st.refs }))
}

/// Extends a function name with `.LETTERS` groups (`MODE.MULT`).
pub open spec fn dotted(s: Seq<char>, q: int, name: Seq<char>) -> (Seq<char>, int)
    decreases s.len() - q,
{
    if is_char(s, q, '.') && 0 <= q + 1 < s.len() && is_ascii_alpha(s[q + 1]) {
        let e = alpha_end(s, q + 1);
        proof {
            lemma_alpha_end(s, q + 1);
        }
        dotted(s, e, name.push('.') + upper_seq(s.subrange(q + 1, e)))
    } else {
        (name, q)
    }
}

pub open spec fn true_name() -> Seq<char> {
    seq!['T', 'R', 'U', 'E']
}

pub open spec fn false_name() -> Seq<char> {
    seq!['F', 'A', 'L', 'S', 'E']
}

/// The closing `)` of an argument list.
pub open spec fn sp_close_args(s: Seq<char>, name: Seq<char>, args: Seq<ExprV>, st: PSt) -> PRes {
    let p = ws_end(s, st.pos);
    if is_char(s, p, ')') {
        Ok((ExprV::FuncCall { name, args }, PSt { pos: p + 1, refs: st.refs }))
    } else {
        Err(ErrV::CloseAfterArguments(name))
    }
}

// ── The recursive grammar ────────────────────────────────────────────────

/// The termination measure from the nesting depth.
pub open spec fn dm(d: int) -> nat {
    if d < MAX_FORMULA_DEPTH {
        (MAX_FORMULA_DEPTH - d) as nat
    } else {
        0
    }
}

/// The termination measure from the position.
pub open spec fn pm(s: Seq<char>, i: int) -> nat {
    if 0 <= i <= s.len() {
        (s.len() - i) as nat
    } else {
        0
    }
}

/// A state reached after `st` that is still inside the input.
pub open spec fn advanced(s: Seq<char>, st: PSt, st2: PSt) -> bool {
    st.pos < st2.pos && st2.pos <= s.len()
}

pub open spec fn sp_expr(s: Seq<char>, st: PSt, d: int) -> PRes
    decreases dm(d), 16nat, pm(s, st.pos),
{
    sp_comparison(s, PSt { pos: ws_end(s, st.pos), refs: st.refs }, d)
}

pub open spec fn sp_comparison(s: Seq<char>, st: PSt, d: int) -> PRes
    decreases dm(d), 15nat, pm(s, st.pos),
{
    match sp_concat(s, st, d) {
        Err(e) => Err(e),
        Ok((lhs, st1)) => sp_comparison_rest(s, lhs, st1, d),
    }
}

/// The comparison operator at `p`, if any, and the position after it.
pub open spec fn comparison_op(s: Seq<char>, p: int) -> Option<(BinOpKind, int)> {
    if is_char(s, p, '<') {
        if is_char(s, p + 1, '>') {
            Some((BinOpKind::Ne, p + 2))
        } else if is_char(s, p + 1, '=') {
            Some((BinOpKind::Le, p + 2))
        } else {
            Some((BinOpKind::Lt, p + 1))
        }
    } else if is_char(s, p, '>') {
        if is_char(s, p + 1, '=') {
            Some((BinOpKind::Ge, p + 2))
        } else {
            Some((BinOpKind::Gt, p + 1))
        }
    } else if is_char(s, p, '=') {
        Some((BinOpKind::Eq, p + 1))
    } else {
        None
    }
}

pub open spec fn sp_comparison_rest(s: Seq<char>, lhs: ExprV, st: PSt, d: int) -> PRes
    decreases dm(d), 14nat, pm(s, st.pos),
{
    let p = ws_end(s, st.pos);
    match comparison_op(s, p) {
        None => Ok((lhs, PSt { pos: p, refs: st.refs })),
        Some((op, p1)) => match sp_concat(s, PSt { pos: ws_end(s, p1), refs: st.refs }, d) {
            Err(e) => Err(e),
            Ok((rhs, st2)) => if advanced(s, st, st2) {
                sp_comparison_rest(
                    s,
                    ExprV::BinOp { op, lhs: Box::new(lhs), rhs: Box::new(rhs) },
                    st2,
                    d,
                )
            } else {
                Err(ErrV::UnexpectedEnd)
            },
        },
    }
}

pub open spec fn sp_concat(s: Seq<char>, st: PSt, d: int) -> PRes
    decreases dm(d), 13nat, pm(s, st.pos),
{
    match sp_additive(s, st, d) {
        Err(e) => Err(e),
        Ok((lhs, st1)) => sp_concat_rest(s, lhs, st1, d),
    }
}

pub open spec fn sp_concat_rest(s: Seq<char>, lhs: ExprV, st: PSt, d: int) -> PRes
    decreases dm(d), 12nat, pm(s, st.pos),
{
    let p = ws_end(s, st.pos);
    if is_char(s, p, '&') {
        match sp_additive(s, PSt { pos: ws_end(s, p + 1), refs: st.refs }, d) {
            Err(e) => Err(e),
            Ok((rhs, st2)) => if advanced(s, st, st2) {
                sp_concat_rest(
                    s,
                    ExprV::BinOp { op: BinOpKind::Concat, lhs: Box::new(lhs), rhs: Box::new(rhs) },
                    st2,
                    d,
                )
            } else {
                Err(ErrV::UnexpectedEnd)
            },
        }
    } else {
        Ok((lhs, PSt { pos: p, refs: st.refs }))
    }
}

pub open spec fn sp_additive(s: Seq<char>, st: PSt, d: int) -> PRes
    decreases dm(d), 11nat, pm(s, st.pos),
{
    match sp_mul(s, st, d) {
        Err(e) => Err(e),
        Ok((lhs, st1)) => sp_additive_rest(s, lhs, st1, d),
    }
}

pub open spec fn additive_op(s: Seq<char>, p: int) -> Option<BinOpKind> {
    if is_char(s, p, '+') {
        Some(BinOpKind::Add)
    } else if is_char(s, p, '-') {
        Some(BinOpKind::Sub)
    } else {
        None
    }
}

pub open spec fn sp_additive_rest(s: Seq<char>, lhs: ExprV, st: PSt, d: int) -> PRes
    decreases dm(d), 10nat, pm(s, st.pos),
{
    let p = ws_end(s, st.pos);
    match additive_op(s, p) {
        None => Ok((lhs, PSt { pos: p, refs: st.refs })),
        Some(op) => match sp_mul(s, PSt { pos: ws_end(s, p + 1), refs: st.refs }, d) {
            Err(e) => Err(e),
            Ok((rhs, st2)) => if advanced(s, st, st2) {
                sp_additive_rest(
                    s,
                    ExprV::BinOp { op, lhs: Box::new(lhs), rhs: Box::new(rhs) },
                    st2,
                    d,
                )
            } else {
                Err(ErrV::UnexpectedEnd)
            },
        },
    }
}

pub open spec fn sp_mul(s: Seq<char>, st: PSt, d: int) -> PRes
    decreases dm(d), 9nat, pm(s, st.pos),
{
    match sp_unary(s, st, d) {
        Err(e) => Err(e),
        Ok((lhs, st1)) => sp_mul_rest(s, lhs, st1, d),
    }
}

pub open spec fn mul_op(s: Seq<char>, p: int) -> Option<BinOpKind> {
    if is_char(s, p, '*') {
        Some(BinOpKind::Mul)
    } else if is_char(s, p, '/') {
        Some(BinOpKind::Div)
    } else {
        None
    }
}

pub open spec fn sp_mul_rest(s: Seq<char>, lhs: ExprV, st: PSt, d: int) -> PRes
    decreases dm(d), 8nat, pm(s, st.pos),
{
    let p = ws_end(s, st.pos);
    match mul_op(s, p) {
        None => Ok((lhs, PSt { pos: p, refs: st.refs })),
        Some(op) => match sp_unary(s, PSt { pos: ws_end(s, p + 1), refs: st.refs }, d) {
            Err(e) => Err(e),
            Ok((rhs, st2)) => if advanced(s, st, st2) {
                sp_mul_rest(
                    s,
                    ExprV::BinOp { op, lhs: Box::new(lhs), rhs: Box::new(rhs) },
                    st2,
                    d,
                )
            } else {
                Err(ErrV::UnexpectedEnd)
            },
        },
    }
}

pub open spec fn sp_unary(s: Seq<char>, st: PSt, d: int) -> PRes
    decreases dm(d), 7nat, pm(s, st.pos),
{
    let p = ws_end(s, st.pos);
    if is_char(s, p, '-') {
        match sp_primary(s, PSt { pos: p + 1, refs: st.refs }, d) {
            Err(e) => Err(e),
            Ok((e, st2)) => Ok((ExprV::UnaryMinus(Box::new(e)), st2)),
        }
    } else if is_char(s, p, '+') {
        sp_primary(s, PSt { pos: p + 1, refs: st.refs }, d)
    } else {
        sp_primary(s, PSt { pos: p, refs: st.refs }, d)
    }
}

pub open spec fn sp_primary(s: Seq<char>, st: PSt, d: int) -> PRes
    decreases dm(d), 6nat, pm(s, st.pos),
{
    let p = ws_end(s, st.pos);
    match sp_qualifier(s, p) {
        Err(e) => Err(e),
        Ok((Some(q), p2)) => match sp_ref_corner(s, p2) {
            Err(e) => Err(e),
            Ok((c, t)) => sp_finish_ref(s, c, Some(q), PSt { pos: t, refs: st.refs }),
        },
        Ok((None, _)) => {
            let st1 = PSt { pos: p, refs: st.refs };
            if is_char(s, p, '(') {
                match sp_nested(s, PSt { pos: p + 1, refs: st.refs }, d) {
                    Err(e) => Err(e),
                    Ok((e, st2)) => {
                        let p3 = ws_end(s, st2.pos);
                        if is_char(s, p3, ')') {
                            Ok((e, PSt { pos: p3 + 1, refs: st2.refs }))
                        } else {
                            Err(ErrV::ExpectedCloseParen)
                        }
                    },
                }
            } else if is_char(s, p, '"') {
                sp_string(s, st1)
            } else if 0 <= p < s.len() && is_ascii_digit(s[p]) {
                sp_number(s, st1)
            } else if 0 <= p < s.len() && (is_ascii_alpha(s[p]) || s[p] == '$') {
                sp_ident(s, st1, d)
            } else if 0 <= p < s.len() {
                Err(ErrV::UnexpectedChar(s[p]))
            } else {
                Err(ErrV::UnexpectedEnd)
            }
        },
    }
}

/// An identifier or an unqualified reference starting at `st.pos`.
pub open spec fn sp_ident(s: Seq<char>, st: PSt, d: int) -> PRes
    decreases dm(d), 5nat, pm(s, st.pos),
{
    let i = st.pos;
    let abs_col = is_char(s, i, '$');
    let p = if abs_col {
        i + 1
    } else {
        i
    };
    let q = alpha_end(s, p);
    let base = upper_seq(s.subrange(p, q));
    if abs_col && q == p {
        Err(ErrV::ColumnLettersAfterDollar)
    } else {
        let (name, q1) = if abs_col {
            (base, q)
        } else {
            dotted(s, q, base)
        };
        let abs_row = is_char(s, q1, '$');
        let r = if abs_row {
            q1 + 1
        } else {
            q1
        };
        let t = digits_end(s, r);
        let digits = s.subrange(r, t);
        let row = digits_value(digits);
        if abs_col || abs_row {
            if t == r {
                Err(ErrV::RowNumberAfter(name))
            } else if row > u32::MAX {
                Err(ErrV::RowOverflow)
            } else {
                sp_finish_ref(
                    s,
                    (col_num(name) as u32, row as u32, abs_col, abs_row, i as usize, t as usize),
                    None,
                    PSt { pos: t, refs: st.refs },
                )
            }
        } else if t > r && !(name.contains('.') || is_char(s, ws_end(s, t), '(')) {
            if row > u32::MAX {
                Err(ErrV::RowOverflow)
            } else {
                sp_finish_ref(
                    s,
                    (col_num(name) as u32, row as u32, false, false, i as usize, t as usize),
                    None,
                    PSt { pos: t, refs: st.refs },
                )
            }
        } else {
            sp_call_or_name(s, name + digits, PSt { pos: t, refs: st.refs }, d)
        }
    }
}

/// A function call `NAME(args)`, a boolean literal, or a bare name.
pub open spec fn sp_call_or_name(s: Seq<char>, name: Seq<char>, st: PSt, d: int) -> PRes
    decreases dm(d), 4nat, pm(s, st.pos),
{
    let p = ws_end(s, st.pos);
    if is_char(s, p, '(') {
        sp_call_args(s, name, PSt { pos: p + 1, refs: st.refs }, d)
    } else {
        Ok((bare_name(name), PSt { pos: p, refs: st.refs }))
    }
}

/// A name not followed by `(`: a boolean literal, or a name reference.
pub open spec fn bare_name(name: Seq<char>) -> ExprV {
    if name == true_name() {
        ExprV::Bool(true)
    } else if name == false_name() {
        ExprV::Bool(false)
    } else {
        ExprV::FuncCall { name, args: Seq::empty() }
    }
}

/// The argument list of a call, after its `(`.
pub open spec fn sp_call_args(s: Seq<char>, name: Seq<char>, st: PSt, d: int) -> PRes
    decreases dm(d), 3nat, pm(s, st.pos),
{
    let p2 = ws_end(s, st.pos);
    if is_char(s, p2, ')') {
        sp_close_args(s, name, Seq::empty(), PSt { pos: p2, refs: st.refs })
    } else {
        match sp_nested(s, PSt { pos: p2, refs: st.refs }, d) {
            Err(e) => Err(e),
            Ok((a, st3)) => sp_args_rest(s, name, seq![a], st3, d),
        }
    }
}

/// The `, arg` continuations of an argument list, then its closing `)`.
pub open spec fn sp_args_rest(
    s: Seq<char>,
    name: Seq<char>,
    args: Seq<ExprV>,
    st: PSt,
    d: int,
) -> PRes
    decreases dm(d), 2nat, pm(s, st.pos),
{
    let p = ws_end(s, st.pos);
    if is_char(s, p, ',') {
        match sp_nested(s, PSt { pos: ws_end(s, p + 1), refs: st.refs }, d) {
            Err(e) => Err(e),
            Ok((a, st2)) => if advanced(s, st, st2) {
                sp_args_rest(s, name, args.push(a), st2, d)
            } else {
                Err(ErrV::UnexpectedEnd)
            },
        }
    } else {
        sp_close_args(s, name, args, PSt { pos: p, refs: st.refs })
    }
}

/// A parenthesized or argument expression, one nesting level deeper.
pub open spec fn sp_nested(s: Seq<char>, st: PSt, d: int) -> PRes
    decreases dm(d), 1nat, pm(s, st.pos),
{
    if d >= MAX_FORMULA_DEPTH {
        Err(ErrV::NestingTooDeep)
    } else {
        sp_expr(s, st, d + 1)
    }
}

// ── Whole formulas ───────────────────────────────────────────────────────

/// The AST shape limits: at most `MAX_FORMULA_NODES` nodes in pre-order and
/// depth at most `MAX_FORMULA_DEPTH`. Gives the node count after `e`.
pub open spec fn sp_validate(e: ExprV, depth: nat, nodes: nat) -> Result<nat, ErrV>
    decreases e,
{
    let n = nodes + 1;
    if n > MAX_FORMULA_NODES {
        Err(ErrV::AstTooLarge)
    } else if depth > MAX_FORMULA_DEPTH {
        Err(ErrV::AstTooDeep)
    } else {
        match e {
            ExprV::BinOp { lhs, rhs, .. } => match sp_validate(*lhs, depth + 1, n) {
                Err(x) => Err(x),
                Ok(n2) => sp_validate(*rhs, depth + 1, n2),
            },
            ExprV::UnaryMinus(inner) => sp_validate(*inner, depth + 1, n),
            ExprV::FuncCall { args, .. } => sp_validate_all(args, depth + 1, n),
            _ => Ok(n),
        }
    }
}

pub open spec fn sp_validate_all(args: Seq<ExprV>, depth: nat, nodes: nat) -> Result<nat, ErrV>
    decreases args,
{
    if args.len() == 0 {
        Ok(nodes)
    } else {
        match sp_validate(args[0], depth, nodes) {
            Err(x) => Err(x),
            Ok(n2) => sp_validate_all(args.subrange(1, args.len() as int), depth, n2),
        }
    }
}

/// Parsing a normalized formula body: one expression, nothing but spaces
/// and tabs after it, within the AST shape limits.
pub open spec fn sp_parse_body(s: Seq<char>) -> Result<(ExprV, Seq<RefV>), ErrV> {
    match sp_expr(s, PSt { pos: 0, refs: Seq::empty() }, 0) {
        Err(e) => Err(e),
        Ok((e, st)) => {
            let p = ws_end(s, st.pos);
            if p < s.len() {
                Err(ErrV::TrailingInput(p as nat, s.subrange(p, s.len() as int)))
            } else {
                match sp_validate(e, 0, 0) {
                    Err(x) => Err(x),
                    Ok(_) => Ok((e, st.refs)),
                }
            }
        },
    }
}

/// What `parse_with_refs` gives for a formula with these chars.
pub open spec fn spec_parse_with_refs(formula: Seq<char>) -> Result<(ExprV, Seq<RefV>), ErrV> {
    let s = formula_body(formula);
    if utf8_len(s) > MAX_FORMULA_BYTES {
        Err(ErrV::TooLong(utf8_len(s)))
    } else {
        sp_parse_body(s)
    }
}

// ── Error messages ───────────────────────────────────────────────────────

pub open spec fn err_message(e: ErrV) -> Seq<char> {
    match e {
        ErrV::NestingTooDeep => "Formula nesting exceeds the maximum depth of 256"@,
        ErrV::ExpectedCloseParen => "Expected ')'"@,
        ErrV::UnexpectedChar(c) => "Unexpected character: '"@ + seq![c] + "'"@,
        ErrV::UnexpectedEnd => "Unexpected end of formula"@,
        ErrV::UnterminatedString => "Unterminated string literal"@,
        ErrV::ColumnLettersInRange => "Expected column letters in range"@,
        ErrV::RowNumberInRange(name) => "Expected row number after '"@ + name + "' in range"@,
        ErrV::RowOverflow => "number too large to fit in target type"@,
        ErrV::TooManyRefs => "Formula has too many references (maximum is 100000)"@,
        ErrV::UnterminatedSheetName => "Unterminated sheet name (missing closing ')"@,
        ErrV::ColumnLettersAfterDollar => "Expected column letters after '$'"@,
        ErrV::RowNumberAfter(name) => "Expected row number after '"@ + name + "'"@,
        ErrV::CloseAfterArguments(name) => "Expected ')' after arguments of '"@ + name + "'"@,
        ErrV::TooLong(n) => "Formula is too long ("@ + decimal(n) + " bytes; maximum is 1048576)"@,
        ErrV::TrailingInput(p, rest) => "Unexpected input at position "@ + decimal(p) + ": '"@
            + rest + "'"@,
        ErrV::AstTooLarge => "Formula AST is too large (maximum is 200000 nodes)"@,
        ErrV::AstTooDeep => "Formula AST exceeds the maximum depth of 256"@,
    }
}

// ── Column letters: laws ─────────────────────────────────────────────────

/// Column letters read as a bijective base-26 number, without saturation.
pub open spec fn col_value(t: Seq<char>) -> nat
    decreases t.len(),
{
    if t.len() == 0 {
        0
    } else {
        col_value(t.drop_last()) * 26 + col_digit(t.last())
    }
}

/// Rendering a column number as letters and reading the letters back gives
/// the number.
pub proof fn law_column_letters_read_back(n: nat)
    requires
        n <= u32::MAX,
    ensures
        col_num(col_letters(n)) == n,
    decreases n,
{
    if n > 0 {
        let q = ((n - 1) / 26) as nat;
        let r = ((n - 1) % 26) as nat;
        assert(n - 1 == q * 26 + r);
        law_column_letters_read_back(q);
        let t = col_letters(n);
        assert(t.drop_last() == col_letters(q));
        assert(t.last() == letter(r));
        assert((letter(r) as u32) == r + 65);
    }
}

/// Reading uppercase column letters whose value fits in `u32` and rendering
/// the number gives the letters back.
pub proof fn law_column_number_renders_back(t: Seq<char>)
    requires
        t.len() > 0,
        forall|k: int| 0 <= k < t.len() ==> #[trigger] is_ascii_upper(t[k]),
        col_value(t) <= u32::MAX,
    ensures
        col_num(t) == col_value(t),
        col_letters(col_num(t)) == t,
    decreases t.len(),
{
    let init = t.drop_last();
    let c = t.last();
    assert(is_ascii_upper(t[t.len() - 1]));
    let d = col_digit(c);
    assert(1 <= d <= 26);
    if init.len() == 0 {
        assert(col_value(init) == 0);
        assert(col_num(init) == 0);
        assert(col_letters(0) =~= Seq::<char>::empty());
        let n = d;
        assert((n - 1) / 26 == 0);
        assert((n - 1) % 26 == d - 1);
        assert(letter((d - 1) as nat) == c);
        assert(col_letters(n) =~= Seq::<char>::empty().push(c));
        assert(t =~= seq![c]);
    } else {
        assert forall|k: int| 0 <= k < init.len() implies #[trigger] is_ascii_upper(init[k]) by {
            assert(init[k] == t[k]);
        }
        assert(col_value(init) * 26 <= col_value(t));
        law_column_number_renders_back(init);
        let v = col_value(init);
        let n = v * 26 + d;
        assert((n - 1) / 26 == v) by (nonlinear_arith)
            requires
                n == v * 26 + d,
                1 <= d <= 26,
        ;
        assert((n - 1) % 26 == d - 1) by (nonlinear_arith)
            requires
                n == v * 26 + d,
                1 <= d <= 26,
        ;
        assert(letter((d - 1) as nat) == c);
        assert(col_letters(n) == col_letters(v).push(c));
        assert(t =~= init.push(c));
    }
}

} // verus!
