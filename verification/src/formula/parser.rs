//! The formula parser: a recursive-descent parser over the chars of a
//! formula, proved to compute the grammar of `super::grammar`.

use vstd::prelude::*;
use crate::text::{
    all_ascii_digits, ascii_alpha, ascii_digit, ascii_upper, char_is_alphabetic,
    char_is_alphanumeric, contains_char, fmt_u128, formula_body,
    formula_body_chars,
    parse_u32_digits, push_all, push_str_chars, slice_chars,
    string_from_chars, to_ascii_upper, utf8_byte_len,
};
use super::ast::{
    duplicate_qual, lemma_view_exprs_index, lemma_view_exprs_len, lemma_view_exprs_push, view_expr, view_exprs, view_qual, BinOpKind,
    ExprV, FormulaExpr, QualV, SheetQualifier,
};
use super::grammar::{
    alpha_end, col_digit, col_num, digits_end, dm, dotted, err_message, false_name, is_char,
    lemma_alpha_end, lemma_digits_end, lemma_name_end, lemma_ws_end, name_end, pm, quoted_scan,
    sat_u32, sp_additive, sp_additive_rest, sp_args_rest, sp_call_or_name, sp_close_args,
    comparison_op, sp_comparison, sp_comparison_rest, sp_concat, sp_concat_rest, sp_expr, sp_finish_ref,
    bare_name, sp_call_args, sp_ident, sp_mul, sp_mul_rest, sp_nested, sp_number, sp_primary, sp_qualifier, sp_ref_corner,
    sp_string, sp_unary, sp_validate, sp_validate_all, spec_parse_with_refs, true_name,
    upper_seq, ws_end, qual_before, refs_ordered, Corner,
    ErrV, PRes, PSt, RefV, MAX_FORMULA_BYTES, MAX_FORMULA_DEPTH,
    MAX_FORMULA_NODES, MAX_FORMULA_REFS,
};

verus! {

/// One cell/range reference as it literally appears in formula text, with its
/// exact char-offset span (relative to the normalized input `parse_with_refs`
/// was called on). `span`/`c1_span`/`c2_span` cover the *coordinate* text only
/// (e.g. `A1` or `A1:B10`) -- never the `Sheet2!` qualifier, which is recorded
/// separately in `sheet`.
#[derive(Debug, PartialEq, Eq)]
pub enum RefOccurrence {
    Cell {
        span: (usize, usize),
        col: u32,
        row: u32,
        abs_col: bool,
        abs_row: bool,
        sheet: Option<SheetQualifier>,
    },
    Range {
        /// Span of the whole reference, e.g. all of `A1:B10` including the `:`.
        span: (usize, usize),
        c1: u32,
        r1: u32,
        abs_c1: bool,
        abs_r1: bool,
        c1_span: (usize, usize),
        c2: u32,
        r2: u32,
        abs_c2: bool,
        abs_r2: bool,
        c2_span: (usize, usize),
        sheet: Option<SheetQualifier>,
    },
}

impl RefOccurrence {
    pub open spec fn view(&self) -> RefV {
        match *self {
            RefOccurrence::Cell { span, col, row, abs_col, abs_row, sheet } => RefV::Cell {
                span,
                col,
                row,
                abs_col,
                abs_row,
                sheet: view_qual(sheet),
            },
            RefOccurrence::Range {
                span,
                c1,
                r1,
                abs_c1,
                abs_r1,
                c1_span,
                c2,
                r2,
                abs_c2,
                abs_r2,
                c2_span,
                sheet,
            } => RefV::Range {
                span,
                c1,
                r1,
                abs_c1,
                abs_r1,
                c1_span,
                c2,
                r2,
                abs_c2,
                abs_r2,
                c2_span,
                sheet: view_qual(sheet),
            },
        }
    }
}

impl RefOccurrence {
    /// A copy with the same view.
    pub fn duplicate(&self) -> (r: RefOccurrence)
        ensures
            r.view() == self.view(),
    {
        match self {
            RefOccurrence::Cell { span, col, row, abs_col, abs_row, sheet } => RefOccurrence::Cell {
                span: *span,
                col: *col,
                row: *row,
                abs_col: *abs_col,
                abs_row: *abs_row,
                sheet: duplicate_qual(sheet),
            },
            RefOccurrence::Range {
                span,
                c1,
                r1,
                abs_c1,
                abs_r1,
                c1_span,
                c2,
                r2,
                abs_c2,
                abs_r2,
                c2_span,
                sheet,
            } => RefOccurrence::Range {
                span: *span,
                c1: *c1,
                r1: *r1,
                abs_c1: *abs_c1,
                abs_r1: *abs_r1,
                c1_span: *c1_span,
                c2: *c2,
                r2: *r2,
                abs_c2: *abs_c2,
                abs_r2: *abs_r2,
                c2_span: *c2_span,
                sheet: duplicate_qual(sheet),
            },
        }
    }
}

impl Clone for RefOccurrence {
    fn clone(&self) -> (r: RefOccurrence)
        ensures
            r.view() == self.view(),
    {
        self.duplicate()
    }
}

pub open spec fn view_refs(s: Seq<RefOccurrence>) -> Seq<RefV> {
    s.map_values(|r: RefOccurrence| r.view())
}

proof fn lemma_view_refs_push(s: Seq<RefOccurrence>, r: RefOccurrence)
    ensures
        view_refs(s.push(r)) == view_refs(s).push(r.view()),
{
    assert(view_refs(s.push(r)) =~= view_refs(s).push(r.view()));
}

/// Why a formula was rejected; `message` renders it.
#[derive(Debug)]
pub enum FormulaError {
    NestingTooDeep,
    ExpectedCloseParen,
    UnexpectedChar(char),
    UnexpectedEnd,
    UnterminatedString,
    ColumnLettersInRange,
    RowNumberInRange(Vec<char>),
    RowOverflow,
    TooManyRefs,
    UnterminatedSheetName,
    ColumnLettersAfterDollar,
    RowNumberAfter(Vec<char>),
    CloseAfterArguments(Vec<char>),
    TooLong(u128),
    TrailingInput(usize, Vec<char>),
    AstTooLarge,
    AstTooDeep,
}

impl FormulaError {
    pub open spec fn view(&self) -> ErrV {
        match *self {
            FormulaError::NestingTooDeep => ErrV::NestingTooDeep,
            FormulaError::ExpectedCloseParen => ErrV::ExpectedCloseParen,
            FormulaError::UnexpectedChar(c) => ErrV::UnexpectedChar(c),
            FormulaError::UnexpectedEnd => ErrV::UnexpectedEnd,
            FormulaError::UnterminatedString => ErrV::UnterminatedString,
            FormulaError::ColumnLettersInRange => ErrV::ColumnLettersInRange,
            FormulaError::RowNumberInRange(n) => ErrV::RowNumberInRange(n@),
            FormulaError::RowOverflow => ErrV::RowOverflow,
            FormulaError::TooManyRefs => ErrV::TooManyRefs,
            FormulaError::UnterminatedSheetName => ErrV::UnterminatedSheetName,
            FormulaError::ColumnLettersAfterDollar => ErrV::ColumnLettersAfterDollar,
            FormulaError::RowNumberAfter(n) => ErrV::RowNumberAfter(n@),
            FormulaError::CloseAfterArguments(n) => ErrV::CloseAfterArguments(n@),
            FormulaError::TooLong(n) => ErrV::TooLong(n as nat),
            FormulaError::TrailingInput(p, rest) => ErrV::TrailingInput(p as nat, rest@),
            FormulaError::AstTooLarge => ErrV::AstTooLarge,
            FormulaError::AstTooDeep => ErrV::AstTooDeep,
        }
    }

    /// The error's message text.
    pub fn message(&self) -> (r: String)
        ensures
            r@ == err_message(self.view()),
    {
        let mut v: Vec<char> = Vec::new();
        match self {
            FormulaError::NestingTooDeep => {
                push_str_chars(&mut v, "Formula nesting exceeds the maximum depth of 256");
            },
            FormulaError::ExpectedCloseParen => {
                push_str_chars(&mut v, "Expected ')'");
            },
            FormulaError::UnexpectedChar(c) => {
                push_str_chars(&mut v, "Unexpected character: '");
                v.push(*c);
                push_str_chars(&mut v, "'");
            },
            FormulaError::UnexpectedEnd => {
                push_str_chars(&mut v, "Unexpected end of formula");
            },
            FormulaError::UnterminatedString => {
                push_str_chars(&mut v, "Unterminated string literal");
            },
            FormulaError::ColumnLettersInRange => {
                push_str_chars(&mut v, "Expected column letters in range");
            },
            FormulaError::RowNumberInRange(name) => {
                push_str_chars(&mut v, "Expected row number after '");
                push_all(&mut v, name);
                push_str_chars(&mut v, "' in range");
            },
            FormulaError::RowOverflow => {
                push_str_chars(&mut v, "number too large to fit in target type");
            },
            FormulaError::TooManyRefs => {
                push_str_chars(&mut v, "Formula has too many references (maximum is 100000)");
            },
            FormulaError::UnterminatedSheetName => {
                push_str_chars(&mut v, "Unterminated sheet name (missing closing ')");
            },
            FormulaError::ColumnLettersAfterDollar => {
                push_str_chars(&mut v, "Expected column letters after '$'");
            },
            FormulaError::RowNumberAfter(name) => {
                push_str_chars(&mut v, "Expected row number after '");
                push_all(&mut v, name);
                push_str_chars(&mut v, "'");
            },
            FormulaError::CloseAfterArguments(name) => {
                push_str_chars(&mut v, "Expected ')' after arguments of '");
                push_all(&mut v, name);
                push_str_chars(&mut v, "'");
            },
            FormulaError::TooLong(n) => {
                push_str_chars(&mut v, "Formula is too long (");
                let d = fmt_u128(*n);
                push_all(&mut v, &d);
                push_str_chars(&mut v, " bytes; maximum is 1048576)");
            },
            FormulaError::TrailingInput(p, rest) => {
                push_str_chars(&mut v, "Unexpected input at position ");
                let d = fmt_u128(*p as u128);
                push_all(&mut v, &d);
                push_str_chars(&mut v, ": '");
                push_all(&mut v, rest);
                push_str_chars(&mut v, "'");
            },
            FormulaError::AstTooLarge => {
                push_str_chars(&mut v, "Formula AST is too large (maximum is 200000 nodes)");
            },
            FormulaError::AstTooDeep => {
                push_str_chars(&mut v, "Formula AST exceeds the maximum depth of 256");
            },
        }
        string_from_chars(&v)
    }
}

/// Column letters read as a bijective base-26 number (`A` = 1, `AA` = 27),
/// with saturating `u32` arithmetic.
pub fn col_letters_to_num(s: &Vec<char>) -> (r: u32)
    ensures
        r as nat == col_num(s@),
{
    let mut acc: u32 = 0;
    let mut i: usize = 0;
    while i < s.len()
        invariant
            0 <= i <= s@.len(),
            acc as nat == col_num(s@.subrange(0, i as int)),
        decreases s@.len() - i,
    {
        let c = s[i];
        let digit: u64 = if (c as u32) >= 65 {
            ((c as u32) - 64) as u64
        } else {
            1
        };
        let m: u64 = (acc as u64) * 26;
        let m2: u64 = if m > 0xffff_ffff {
            0xffff_ffff
        } else {
            m
        };
        let a: u64 = m2 + digit;
        let a2: u64 = if a > 0xffff_ffff {
            0xffff_ffff
        } else {
            a
        };
        proof {
            let t = s@.subrange(0, i + 1);
            assert(t.drop_last() == s@.subrange(0, i as int));
            assert(t.last() == c);
            assert(digit == col_digit(c));
            assert(m2 == sat_u32(col_num(t.drop_last()) * 26));
        }
        acc = a2 as u32;
        i = i + 1;
    }
    proof {
        assert(s@.subrange(0, s@.len() as int) == s@);
    }
    acc
}

/// A parse result agrees with the grammar's result, ending in state `st`.
pub open spec fn agrees(r: Result<FormulaExpr, FormulaError>, spec: PRes, st: PSt) -> bool {
    match r {
        Ok(e) => spec == Ok::<_, ErrV>((view_expr(e), st)),
        Err(x) => spec == Result::<(ExprV, PSt), ErrV>::Err(x.view()),
    }
}

pub struct FormulaParser {
    chars: Vec<char>,
    pos: usize,
    refs: Vec<RefOccurrence>,
    depth: usize,
}

impl FormulaParser {
    /// The input being parsed.
    pub closed spec fn input(&self) -> Seq<char> {
        self.chars@
    }

    /// The parse state: position and references recorded so far.
    pub closed spec fn state(&self) -> PSt {
        PSt { pos: self.pos as int, refs: view_refs(self.refs@) }
    }

    /// The current parenthesis nesting depth.
    pub closed spec fn nesting(&self) -> int {
        self.depth as int
    }

    pub closed spec fn wf(&self) -> bool {
        &&& self.pos <= self.chars@.len()
        &&& self.depth <= MAX_FORMULA_DEPTH
        &&& refs_ordered(view_refs(self.refs@), self.pos as int)
    }

    /// `b` is `a` with at most the position changed.
    pub closed spec fn moved_from(b: FormulaParser, a: FormulaParser) -> bool {
        &&& b.chars@ == a.chars@
        &&& b.refs@ == a.refs@
        &&& b.depth == a.depth
        &&& b.wf()
    }

    /// `b` continues `a`: same input and depth, well-formed.
    pub closed spec fn continues(b: FormulaParser, a: FormulaParser) -> bool {
        &&& b.chars@ == a.chars@
        &&& b.depth == a.depth
        &&& b.wf()
    }

    fn new(input: Vec<char>) -> (r: FormulaParser)
        ensures
            r.wf(),
            r.input() == input@,
            r.state() == (PSt { pos: 0, refs: Seq::empty() }),
            r.nesting() == 0,
    {
        let r = FormulaParser { chars: input, pos: 0, refs: Vec::new(), depth: 0 };
        proof {
            assert(view_refs(r.refs@) =~= Seq::<RefV>::empty());
        }
        r
    }

    fn peek(&self) -> (r: Option<char>)
        ensures
            r == (if self.pos < self.chars@.len() {
                Some(self.chars@[self.pos as int])
            } else {
                None::<char>
            }),
    {
        if self.pos < self.chars.len() {
            Some(self.chars[self.pos])
        } else {
            None
        }
    }

    fn at(&self, c: char) -> (r: bool)
        ensures
            r == is_char(self.chars@, self.pos as int, c),
    {
        self.pos < self.chars.len() && self.chars[self.pos] == c
    }

    fn advance(&mut self) -> (r: Option<char>)
        requires
            old(self).wf(),
        ensures
            FormulaParser::moved_from(*final(self), *old(self)),
            r == (if old(self).pos < old(self).chars@.len() {
                Some(old(self).chars@[old(self).pos as int])
            } else {
                None::<char>
            }),
            final(self).pos == (if old(self).pos < old(self).chars@.len() {
                old(self).pos + 1
            } else {
                old(self).pos as int
            }),
    {
        if self.pos < self.chars.len() {
            let c = self.chars[self.pos];
            self.pos = self.pos + 1;
            Some(c)
        } else {
            None
        }
    }

    fn skip_ws(&mut self)
        requires
            old(self).wf(),
        ensures
            FormulaParser::moved_from(*final(self), *old(self)),
            final(self).pos == ws_end(old(self).chars@, old(self).pos as int),
            old(self).pos <= final(self).pos,
    {
        while self.pos < self.chars.len() && (self.chars[self.pos] == ' ' || self.chars[self.pos]
            == '\t')
            invariant
                FormulaParser::moved_from(*self, *old(self)),
                old(self).pos <= self.pos,
                ws_end(self.chars@, self.pos as int) == ws_end(
                    old(self).chars@,
                    old(self).pos as int,
                ),
            decreases self.chars@.len() - self.pos,
        {
            self.pos = self.pos + 1;
        }
    }

    fn consume(&mut self, c: char) -> (r: bool)
        requires
            old(self).wf(),
        ensures
            FormulaParser::moved_from(*final(self), *old(self)),
            r == is_char(old(self).chars@, old(self).pos as int, c),
            final(self).pos == (if r {
                old(self).pos + 1
            } else {
                old(self).pos as int
            }),
    {
        if self.pos < self.chars.len() && self.chars[self.pos] == c {
            self.pos = self.pos + 1;
            true
        } else {
            false
        }
    }

    /// Reads the ASCII letters at the position, uppercased.
    fn read_letters(&mut self, name: &mut Vec<char>)
        requires
            old(self).wf(),
        ensures
            FormulaParser::moved_from(*final(self), *old(self)),
            final(self).pos == alpha_end(old(self).chars@, old(self).pos as int),
            old(self).pos <= final(self).pos,
            final(name)@ == old(name)@ + upper_seq(
                old(self).chars@.subrange(old(self).pos as int, final(self).pos as int),
            ),
    {
        let ghost p = self.pos as int;
        proof {
            lemma_alpha_end(self.chars@, p);
        }
        while self.pos < self.chars.len() && ascii_alpha(self.chars[self.pos])
            invariant
                FormulaParser::moved_from(*self, *old(self)),
                p == old(self).pos,
                p <= self.pos,
                alpha_end(self.chars@, self.pos as int) == alpha_end(self.chars@, p),
                name@ == old(name)@ + upper_seq(self.chars@.subrange(p, self.pos as int)),
            decreases self.chars@.len() - self.pos,
        {
            let c = self.chars[self.pos];
            name.push(to_ascii_upper(c));
            proof {
                let s = self.chars@;
                assert(upper_seq(s.subrange(p, self.pos + 1)) =~= upper_seq(
                    s.subrange(p, self.pos as int),
                ).push(ascii_upper(c)));
            }
            self.pos = self.pos + 1;
        }
    }

    /// Reads the ASCII digits at the position.
    fn read_digits(&mut self) -> (r: Vec<char>)
        requires
            old(self).wf(),
        ensures
            FormulaParser::moved_from(*final(self), *old(self)),
            final(self).pos == digits_end(old(self).chars@, old(self).pos as int),
            old(self).pos <= final(self).pos,
            r@ == old(self).chars@.subrange(old(self).pos as int, final(self).pos as int),
            all_ascii_digits(r@),
    {
        let ghost p = self.pos as int;
        let mut r: Vec<char> = Vec::new();
        while self.pos < self.chars.len() && ascii_digit(self.chars[self.pos])
            invariant
                FormulaParser::moved_from(*self, *old(self)),
                p == old(self).pos,
                p <= self.pos,
                digits_end(self.chars@, self.pos as int) == digits_end(self.chars@, p),
                r@ == self.chars@.subrange(p, self.pos as int),
                all_ascii_digits(r@),
            decreases self.chars@.len() - self.pos,
        {
            let c = self.chars[self.pos];
            r.push(c);
            proof {
                assert(self.chars@.subrange(p, self.pos + 1) =~= self.chars@.subrange(
                    p,
                    self.pos as int,
                ).push(c));
            }
            self.pos = self.pos + 1;
        }
        r
    }

    /// Parse one side of a range (`[$]COL[$]ROW`). Returns the corner's own
    /// span alongside its coordinates.
    fn parse_ref_corner(&mut self) -> (r: Result<Corner, FormulaError>)
        requires
            old(self).wf(),
        ensures
            FormulaParser::moved_from(*final(self), *old(self)),
            match r {
                Ok(c) => sp_ref_corner(old(self).chars@, old(self).pos as int) == Ok::<_, ErrV>(
                    (c, final(self).pos as int),
                ),
                Err(x) => sp_ref_corner(old(self).chars@, old(self).pos as int) == Result::<(Corner, int), ErrV>::Err(x.view()),
            },
            r is Ok ==> old(self).pos <= final(self).pos,
    {
        let start = self.pos;
        let abs_col = self.consume('$');
        let mut name: Vec<char> = Vec::new();
        self.read_letters(&mut name);
        if name.len() == 0 {
            return Err(FormulaError::ColumnLettersInRange);
        }
        let abs_row = self.consume('$');
        let row_s = self.read_digits();
        if row_s.len() == 0 {
            return Err(FormulaError::RowNumberInRange(name));
        }
        let end = self.pos;
        let col = col_letters_to_num(&name);
        match parse_u32_digits(&row_s) {
            None => Err(FormulaError::RowOverflow),
            Some(row) => Ok((col, row, abs_col, abs_row, start, end)),
        }
    }

    /// Shared tail of every reference path: an optional `:SECOND` corner,
    /// recording the `RefOccurrence` alongside building the expression.
    fn finish_ref(&mut self, corner1: Corner, sheet: Option<SheetQualifier>) -> (r: Result<
        FormulaExpr,
        FormulaError,
    >)
        requires
            old(self).wf(),
            corner1.4 <= corner1.5 <= old(self).pos,
            qual_before(view_qual(sheet), corner1.4),
            refs_ordered(
                view_refs(old(self).refs@),
                match sheet {
                    Some(q) => q.raw_span.0 as int,
                    None => corner1.4 as int,
                },
            ),
        ensures
            FormulaParser::continues(*final(self), *old(self)),
            agrees(
                r,
                sp_finish_ref(old(self).chars@, corner1, view_qual(sheet), old(self).state()),
                final(self).state(),
            ),
            r is Ok ==> old(self).pos <= final(self).pos,
    {
        let (col, row, abs_col, abs_row, corner1_start, corner1_end) = corner1;
        self.skip_ws();
        if self.at(':') {
            self.advance();
            self.skip_ws();
            let (c2, r2, abs_c2, abs_r2, c2_start, c2_end) = self.parse_ref_corner()?;
            if self.refs.len() >= MAX_FORMULA_REFS {
                return Err(FormulaError::TooManyRefs);
            }
            let occ = RefOccurrence::Range {
                span: (corner1_start, c2_end),
                c1: col,
                r1: row,
                abs_c1: abs_col,
                abs_r1: abs_row,
                c1_span: (corner1_start, corner1_end),
                c2,
                r2,
                abs_c2,
                abs_r2,
                c2_span: (c2_start, c2_end),
                sheet: duplicate_qual(&sheet),
            };
            proof {
                lemma_view_refs_push(self.refs@, occ);
            }
            self.refs.push(occ);
            return Ok(
                FormulaExpr::Range {
                    c1: col,
                    r1: row,
                    c2,
                    r2,
                    abs_c1: abs_col,
                    abs_r1: abs_row,
                    abs_c2,
                    abs_r2,
                    sheet,
                },
            );
        }
        if self.refs.len() >= MAX_FORMULA_REFS {
            return Err(FormulaError::TooManyRefs);
        }
        let occ = RefOccurrence::Cell {
            span: (corner1_start, corner1_end),
            col,
            row,
            abs_col,
            abs_row,
            sheet: duplicate_qual(&sheet),
        };
        proof {
            lemma_view_refs_push(self.refs@, occ);
        }
        self.refs.push(occ);
        Ok(FormulaExpr::CellRef { col, row, abs_col, abs_row, sheet })
    }

    /// Scans a quoted text whose opening quote `q` was just consumed, up to and
    /// including its closing quote; `None` when it never closes.
    fn scan_quoted(&mut self, q: char) -> (r: Option<Vec<char>>)
        requires
            old(self).wf(),
        ensures
            FormulaParser::moved_from(*final(self), *old(self)),
            match r {
                Some(t) => quoted_scan(old(self).chars@, old(self).pos as int, q) == Some(
                    (final(self).pos as int, t@),
                ),
                None => quoted_scan(old(self).chars@, old(self).pos as int, q) is None,
            },
            old(self).pos <= final(self).pos,
    {
        let ghost s = self.chars@;
        let ghost j0 = self.pos as int;
        let mut content: Vec<char> = Vec::new();
        loop
            invariant_except_break
                FormulaParser::moved_from(*self, *old(self)),
                s == self.chars@,
                j0 == old(self).pos,
                j0 <= self.pos,
                quoted_scan(s, j0, q) == match quoted_scan(s, self.pos as int, q) {
                    Some((k, t)) => Some((k, content@ + t)),
                    None => None,
                },
            ensures
                FormulaParser::moved_from(*self, *old(self)),
                j0 <= self.pos,
                quoted_scan(s, j0, q) == Some((self.pos as int, content@)),
            decreases self.chars@.len() - self.pos,
        {
            match self.peek() {
                Some(c) => {
                    if c == q {
                        self.advance();
                        if self.at(q) {
                            self.advance();
                            content.push(q);
                            proof {
                                assert(content@ =~= content@.drop_last() + seq![q]);
                                assert forall|t: Seq<char>|
                                    #![auto]
                                    content@.drop_last() + (seq![q] + t) == content@ + t by {
                                    assert(content@.drop_last() + (seq![q] + t) =~= content@ + t);
                                }
                            }
                        } else {
                            proof {
                                assert(content@ + Seq::<char>::empty() =~= content@);
                            }
                            break ;
                        }
                    } else {
                        self.advance();
                        content.push(c);
                        proof {
                            assert forall|t: Seq<char>|
                                #![auto]
                                content@.drop_last() + (seq![c] + t) == content@ + t by {
                                assert(content@.drop_last() + (seq![c] + t) =~= content@ + t);
                            }
                        }
                    }
                },
                None => {
                    return None;
                },
            }
        }
        Some(content)
    }

    /// Tentatively parses a `Sheet2!`/`'Sales 2026'!`/`'Bob''s Data'!` prefix.
    /// If no `!` follows, the position is restored.
    fn try_parse_sheet_qualifier(&mut self) -> (r: Result<Option<SheetQualifier>, FormulaError>)
        requires
            old(self).wf(),
        ensures
            FormulaParser::moved_from(*final(self), *old(self)),
            match r {
                Ok(q) => sp_qualifier(old(self).chars@, old(self).pos as int) == Ok::<_, ErrV>(
                    (view_qual(q), final(self).pos as int),
                ),
                Err(x) => sp_qualifier(old(self).chars@, old(self).pos as int) == Result::<(Option<QualV>, int), ErrV>::Err(x.view()),
            },
            r matches Ok(Some(q)) ==> q.raw_span.0 == old(self).pos && q.raw_span.0
                <= q.raw_span.1 < final(self).pos,
            r is Ok ==> old(self).pos <= final(self).pos,
    {
        let start = self.pos;
        if self.at('\'') {
            self.advance();
            let name = match self.scan_quoted('\'') {
                Some(t) => t,
                None => {
                    return Err(FormulaError::UnterminatedSheetName);
                },
            };
            if self.at('!') {
                let qualifier_end = self.pos;
                self.advance();
                let raw = slice_chars(&self.chars, start, qualifier_end);
                return Ok(
                    Some(
                        SheetQualifier {
                            raw_span: (start, qualifier_end),
                            raw_text: string_from_chars(&raw),
                            normalized_name: string_from_chars(&name),
                        },
                    ),
                );
            }
            self.pos = start;
            return Ok(None);
        }
        if self.pos < self.chars.len() && (char_is_alphabetic(self.chars[self.pos])
            || self.chars[self.pos] == '_') {
            proof {
                lemma_name_end(self.chars@, start as int);
            }
            while self.pos < self.chars.len() && (char_is_alphanumeric(self.chars[self.pos])
                || self.chars[self.pos] == '_')
                invariant
                    FormulaParser::moved_from(*self, *old(self)),
                    start == old(self).pos,
                    start <= self.pos,
                    name_end(self.chars@, self.pos as int) == name_end(
                        self.chars@,
                        start as int,
                    ),
                decreases self.chars@.len() - self.pos,
            {
                self.pos = self.pos + 1;
            }
            if self.at('!') {
                let qualifier_end = self.pos;
                self.advance();
                let raw = slice_chars(&self.chars, start, qualifier_end);
                return Ok(
                    Some(
                        SheetQualifier {
                            raw_span: (start, qualifier_end),
                            raw_text: string_from_chars(&raw),
                            normalized_name: string_from_chars(&raw),
                        },
                    ),
                );
            }
            self.pos = start;
            return Ok(None);
        }
        Ok(None)
    }

    fn parse_string(&mut self) -> (r: Result<FormulaExpr, FormulaError>)
        requires
            old(self).wf(),
            is_char(old(self).chars@, old(self).pos as int, '"'),
        ensures
            FormulaParser::moved_from(*final(self), *old(self)),
            agrees(r, sp_string(old(self).chars@, old(self).state()), final(self).state()),
            r is Ok ==> old(self).pos <= final(self).pos,
    {
        self.advance();
        match self.scan_quoted('"') {
            Some(t) => Ok(FormulaExpr::Str(string_from_chars(&t))),
            None => Err(FormulaError::UnterminatedString),
        }
    }

    fn parse_number(&mut self) -> (r: Result<FormulaExpr, FormulaError>)
        requires
            old(self).wf(),
        ensures
            FormulaParser::moved_from(*final(self), *old(self)),
            agrees(r, sp_number(old(self).chars@, old(self).state()), final(self).state()),
            r is Ok ==> old(self).pos <= final(self).pos,
    {
        let start = self.pos;
        proof {
            lemma_digits_end(self.chars@, start as int);
        }
        let _int_part = self.read_digits();
        if self.at('.') {
            self.advance();
            let ghost a = self.pos as int;
            proof {
                lemma_digits_end(self.chars@, a);
            }
            let _frac_part = self.read_digits();
        }
        let text = slice_chars(&self.chars, start, self.pos);
        Ok(FormulaExpr::Number(string_from_chars(&text)))
    }

    /// Parses the reference that must follow a consumed sheet qualifier.
    fn parse_qualified_ref(&mut self, qualifier: SheetQualifier) -> (r: Result<
        FormulaExpr,
        FormulaError,
    >)
        requires
            old(self).wf(),
            qualifier.raw_span.0 <= qualifier.raw_span.1 < old(self).pos,
            refs_ordered(view_refs(old(self).refs@), qualifier.raw_span.0 as int),
        ensures
            FormulaParser::continues(*final(self), *old(self)),
            agrees(
                r,
                match sp_ref_corner(old(self).chars@, old(self).pos as int) {
                    Err(e) => Err(e),
                    Ok((c, t)) => sp_finish_ref(
                        old(self).chars@,
                        c,
                        Some(qualifier.view()),
                        PSt { pos: t, refs: old(self).state().refs },
                    ),
                },
                final(self).state(),
            ),
            r is Ok ==> old(self).pos <= final(self).pos,
    {
        let corner1 = self.parse_ref_corner()?;
        self.finish_ref(corner1, Some(qualifier))
    }

    /// Parses an expression one nesting level deeper (parentheses, function
    /// arguments), refusing to go past `MAX_FORMULA_DEPTH`.
    fn parse_nested_expr(&mut self) -> (r: Result<FormulaExpr, FormulaError>)
        requires
            old(self).wf(),
        ensures
            FormulaParser::continues(*final(self), *old(self)),
            agrees(
                r,
                sp_nested(old(self).chars@, old(self).state(), old(self).depth as int),
                final(self).state(),
            ),
            r is Ok ==> old(self).pos <= final(self).pos,
        decreases dm(old(self).depth as int), 1nat, pm(old(self).chars@, old(self).pos as int),
    {
        if self.depth >= MAX_FORMULA_DEPTH {
            return Err(FormulaError::NestingTooDeep);
        }
        self.depth = self.depth + 1;
        let result = self.expr();
        self.depth = self.depth - 1;
        result
    }

    /// Parses one expression at the current position.
    pub fn parse_expr(&mut self) -> (r: Result<FormulaExpr, String>)
        requires
            old(self).wf(),
        ensures
            final(self).wf(),
            final(self).input() == old(self).input(),
            final(self).nesting() == old(self).nesting(),
            match sp_expr(old(self).input(), old(self).state(), old(self).nesting()) {
                Ok((e, st)) => r matches Ok(x) && view_expr(x) == e && final(self).state() == st,
                Err(x) => r matches Err(m) && m@ == err_message(x),
            },
    {
        match self.expr() {
            Ok(e) => Ok(e),
            Err(x) => Err(x.message()),
        }
    }

    fn expr(&mut self) -> (r: Result<FormulaExpr, FormulaError>)
        requires
            old(self).wf(),
        ensures
            FormulaParser::continues(*final(self), *old(self)),
            agrees(
                r,
                sp_expr(old(self).chars@, old(self).state(), old(self).depth as int),
                final(self).state(),
            ),
            r is Ok ==> old(self).pos <= final(self).pos,
        decreases dm(old(self).depth as int), 16nat, pm(old(self).chars@, old(self).pos as int),
    {
        self.skip_ws();
        self.parse_comparison()
    }

    #[verifier::rlimit(40)]
    fn parse_comparison(&mut self) -> (r: Result<FormulaExpr, FormulaError>)
        requires
            old(self).wf(),
        ensures
            FormulaParser::continues(*final(self), *old(self)),
            agrees(
                r,
                sp_comparison(old(self).chars@, old(self).state(), old(self).depth as int),
                final(self).state(),
            ),
            r is Ok ==> old(self).pos <= final(self).pos,
        decreases dm(old(self).depth as int), 15nat, pm(old(self).chars@, old(self).pos as int),
    {
        let ghost s = self.chars@;
        let ghost d = self.depth as int;
        let ghost target = sp_comparison(s, self.state(), d);
        let ghost p0 = self.pos;
        let mut lhs = self.parse_concat()?;
        loop
            invariant_except_break
                FormulaParser::continues(*self, *old(self)),
                s == self.chars@,
                d == self.depth,
                p0 == old(self).pos,
                p0 <= self.pos,
                target == sp_comparison_rest(s, view_expr(lhs), self.state(), d),
                target == sp_comparison(old(self).chars@, old(self).state(), old(self).depth as int),
            ensures
                FormulaParser::continues(*self, *old(self)),
                p0 <= self.pos,
                target == Ok::<_, ErrV>((view_expr(lhs), self.state())),
            decreases self.chars@.len() - self.pos,
        {
            let ghost st = self.state();
            self.skip_ws();
            let op = match self.read_comparison_op() {
                Some(op) => op,
                None => {
                    break ;
                },
            };
            self.skip_ws();
            let rhs = self.parse_concat()?;
            lhs = FormulaExpr::BinOp { op, lhs: Box::new(lhs), rhs: Box::new(rhs) };
        }
        Ok(lhs)
    }

    /// Consumes a comparison operator (`<>`, `<=`, `<`, `>=`, `>`, `=`), if one
    /// is at the position.
    fn read_comparison_op(&mut self) -> (r: Option<BinOpKind>)
        requires
            old(self).wf(),
        ensures
            FormulaParser::moved_from(*final(self), *old(self)),
            match comparison_op(old(self).chars@, old(self).pos as int) {
                Some((op, p1)) => r == Some(op) && final(self).pos == p1,
                None => r is None && final(self).pos == old(self).pos,
            },
    {
        if self.at('<') {
            self.advance();
            if self.consume('>') {
                Some(BinOpKind::Ne)
            } else if self.consume('=') {
                Some(BinOpKind::Le)
            } else {
                Some(BinOpKind::Lt)
            }
        } else if self.at('>') {
            self.advance();
            if self.consume('=') {
                Some(BinOpKind::Ge)
            } else {
                Some(BinOpKind::Gt)
            }
        } else if self.at('=') {
            self.advance();
            Some(BinOpKind::Eq)
        } else {
            None
        }
    }

    fn parse_concat(&mut self) -> (r: Result<FormulaExpr, FormulaError>)
        requires
            old(self).wf(),
        ensures
            FormulaParser::continues(*final(self), *old(self)),
            agrees(
                r,
                sp_concat(old(self).chars@, old(self).state(), old(self).depth as int),
                final(self).state(),
            ),
            r is Ok ==> old(self).pos <= final(self).pos,
        decreases dm(old(self).depth as int), 13nat, pm(old(self).chars@, old(self).pos as int),
    {
        let ghost s = self.chars@;
        let ghost d = self.depth as int;
        let ghost target = sp_concat(s, self.state(), d);
        let ghost p0 = self.pos;
        let mut lhs = self.parse_additive()?;
        loop
            invariant_except_break
                FormulaParser::continues(*self, *old(self)),
                s == self.chars@,
                d == self.depth,
                p0 == old(self).pos,
                p0 <= self.pos,
                target == sp_concat_rest(s, view_expr(lhs), self.state(), d),
                target == sp_concat(old(self).chars@, old(self).state(), old(self).depth as int),
            ensures
                FormulaParser::continues(*self, *old(self)),
                p0 <= self.pos,
                target == Ok::<_, ErrV>((view_expr(lhs), self.state())),
            decreases self.chars@.len() - self.pos,
        {
            let ghost st = self.state();
            self.skip_ws();
            if self.at('&') {
                self.advance();
                self.skip_ws();
                let rhs = self.parse_additive()?;
                lhs = FormulaExpr::BinOp {
                    op: BinOpKind::Concat,
                    lhs: Box::new(lhs),
                    rhs: Box::new(rhs),
                };
            } else {
                break ;
            }
        }
        Ok(lhs)
    }

    fn parse_additive(&mut self) -> (r: Result<FormulaExpr, FormulaError>)
        requires
            old(self).wf(),
        ensures
            FormulaParser::continues(*final(self), *old(self)),
            agrees(
                r,
                sp_additive(old(self).chars@, old(self).state(), old(self).depth as int),
                final(self).state(),
            ),
            r is Ok ==> old(self).pos <= final(self).pos,
        decreases dm(old(self).depth as int), 11nat, pm(old(self).chars@, old(self).pos as int),
    {
        let ghost s = self.chars@;
        let ghost d = self.depth as int;
        let ghost target = sp_additive(s, self.state(), d);
        let ghost p0 = self.pos;
        let mut lhs = self.parse_multiplicative()?;
        loop
            invariant_except_break
                FormulaParser::continues(*self, *old(self)),
                s == self.chars@,
                d == self.depth,
                p0 == old(self).pos,
                p0 <= self.pos,
                target == sp_additive_rest(s, view_expr(lhs), self.state(), d),
                target == sp_additive(old(self).chars@, old(self).state(), old(self).depth as int),
            ensures
                FormulaParser::continues(*self, *old(self)),
                p0 <= self.pos,
                target == Ok::<_, ErrV>((view_expr(lhs), self.state())),
            decreases self.chars@.len() - self.pos,
        {
            let ghost st = self.state();
            self.skip_ws();
            let op = if self.at('+') {
                self.advance();
                BinOpKind::Add
            } else if self.at('-') {
                self.advance();
                BinOpKind::Sub
            } else {
                break ;
            };
            self.skip_ws();
            let rhs = self.parse_multiplicative()?;
            lhs = FormulaExpr::BinOp { op, lhs: Box::new(lhs), rhs: Box::new(rhs) };
        }
        Ok(lhs)
    }

    fn parse_multiplicative(&mut self) -> (r: Result<FormulaExpr, FormulaError>)
        requires
            old(self).wf(),
        ensures
            FormulaParser::continues(*final(self), *old(self)),
            agrees(
                r,
                sp_mul(old(self).chars@, old(self).state(), old(self).depth as int),
                final(self).state(),
            ),
            r is Ok ==> old(self).pos <= final(self).pos,
        decreases dm(old(self).depth as int), 9nat, pm(old(self).chars@, old(self).pos as int),
    {
        let ghost s = self.chars@;
        let ghost d = self.depth as int;
        let ghost target = sp_mul(s, self.state(), d);
        let ghost p0 = self.pos;
        let mut lhs = self.parse_unary()?;
        loop
            invariant_except_break
                FormulaParser::continues(*self, *old(self)),
                s == self.chars@,
                d == self.depth,
                p0 == old(self).pos,
                p0 <= self.pos,
                target == sp_mul_rest(s, view_expr(lhs), self.state(), d),
                target == sp_mul(old(self).chars@, old(self).state(), old(self).depth as int),
            ensures
                FormulaParser::continues(*self, *old(self)),
                p0 <= self.pos,
                target == Ok::<_, ErrV>((view_expr(lhs), self.state())),
            decreases self.chars@.len() - self.pos,
        {
            let ghost st = self.state();
            self.skip_ws();
            let op = if self.at('*') {
                self.advance();
                BinOpKind::Mul
            } else if self.at('/') {
                self.advance();
                BinOpKind::Div
            } else {
                break ;
            };
            self.skip_ws();
            let rhs = self.parse_unary()?;
            lhs = FormulaExpr::BinOp { op, lhs: Box::new(lhs), rhs: Box::new(rhs) };
        }
        Ok(lhs)
    }

    fn parse_unary(&mut self) -> (r: Result<FormulaExpr, FormulaError>)
        requires
            old(self).wf(),
        ensures
            FormulaParser::continues(*final(self), *old(self)),
            agrees(
                r,
                sp_unary(old(self).chars@, old(self).state(), old(self).depth as int),
                final(self).state(),
            ),
            r is Ok ==> old(self).pos <= final(self).pos,
        decreases dm(old(self).depth as int), 7nat, pm(old(self).chars@, old(self).pos as int),
    {
        self.skip_ws();
        if self.at('-') {
            self.advance();
            let e = self.parse_primary()?;
            Ok(FormulaExpr::UnaryMinus(Box::new(e)))
        } else {
            if self.at('+') {
                self.advance();
            }
            self.parse_primary()
        }
    }

    fn parse_primary(&mut self) -> (r: Result<FormulaExpr, FormulaError>)
        requires
            old(self).wf(),
        ensures
            FormulaParser::continues(*final(self), *old(self)),
            agrees(
                r,
                sp_primary(old(self).chars@, old(self).state(), old(self).depth as int),
                final(self).state(),
            ),
            r is Ok ==> old(self).pos <= final(self).pos,
        decreases dm(old(self).depth as int), 6nat, pm(old(self).chars@, old(self).pos as int),
    {
        self.skip_ws();
        let q = self.try_parse_sheet_qualifier()?;
        if let Some(qualifier) = q {
            return self.parse_qualified_ref(qualifier);
        }
        match self.peek() {
            Some(c) => {
                if c == '(' {
                    self.advance();
                    let expr = self.parse_nested_expr()?;
                    self.skip_ws();
                    if !self.consume(')') {
                        return Err(FormulaError::ExpectedCloseParen);
                    }
                    Ok(expr)
                } else if c == '"' {
                    self.parse_string()
                } else if ascii_digit(c) {
                    self.parse_number()
                } else if ascii_alpha(c) || c == '$' {
                    self.parse_ident_or_ref()
                } else {
                    Err(FormulaError::UnexpectedChar(c))
                }
            },
            None => Err(FormulaError::UnexpectedEnd),
        }
    }

    fn parse_ident_or_ref(&mut self) -> (r: Result<FormulaExpr, FormulaError>)
        requires
            old(self).wf(),
        ensures
            FormulaParser::continues(*final(self), *old(self)),
            agrees(
                r,
                sp_ident(old(self).chars@, old(self).state(), old(self).depth as int),
                final(self).state(),
            ),
            r is Ok ==> old(self).pos <= final(self).pos,
        decreases dm(old(self).depth as int), 5nat, pm(old(self).chars@, old(self).pos as int),
    {
        let ghost s = self.chars@;
        let tok_start = self.pos;
        let abs_col = self.consume('$');
        let ghost p = self.pos as int;
        let mut name: Vec<char> = Vec::new();
        self.read_letters(&mut name);
        let ghost q = self.pos as int;
        proof {
            assert(name@ =~= upper_seq(s.subrange(p, q)));
        }
        if abs_col && name.len() == 0 {
            return Err(FormulaError::ColumnLettersAfterDollar);
        }
        if !abs_col {
            proof {
                lemma_alpha_end(s, p);
            }
            while self.pos < self.chars.len() && self.chars[self.pos] == '.' && self.pos + 1
                < self.chars.len() && ascii_alpha(self.chars[self.pos + 1])
                invariant
                    FormulaParser::moved_from(*self, *old(self)),
                    s == self.chars@,
                    q <= self.pos,
                    dotted(s, self.pos as int, name@) == dotted(s, q, upper_seq(
                        s.subrange(p, q),
                    )),
                decreases self.chars@.len() - self.pos,
            {
                let ghost before = name@;
                let ghost q0 = self.pos as int;
                name.push('.');
                self.pos = self.pos + 1;
                proof {
                    lemma_alpha_end(s, q0 + 1);
                }
                self.read_letters(&mut name);
                proof {
                    assert(name@ =~= before.push('.') + upper_seq(
                        s.subrange(q0 + 1, self.pos as int),
                    ));
                }
            }
        }
        let abs_row = self.consume('$');
        let ghost r0 = self.pos as int;
        let trailing_digits = self.read_digits();
        if abs_col || abs_row {
            if trailing_digits.len() == 0 {
                return Err(FormulaError::RowNumberAfter(name));
            }
            let col = col_letters_to_num(&name);
            let row = match parse_u32_digits(&trailing_digits) {
                Some(v) => v,
                None => {
                    return Err(FormulaError::RowOverflow);
                },
            };
            let corner1_end = self.pos;
            return self.finish_ref((col, row, abs_col, abs_row, tok_start, corner1_end), None);
        }
        if trailing_digits.len() > 0 {
            let mut tmp: usize = self.pos;
            proof {
                lemma_ws_end(s, tmp as int);
            }
            while tmp < self.chars.len() && (self.chars[tmp] == ' ' || self.chars[tmp] == '\t')
                invariant
                    s == self.chars@,
                    self.pos <= tmp <= s.len(),
                    ws_end(s, tmp as int) == ws_end(s, self.pos as int),
                decreases self.chars@.len() - tmp,
            {
                tmp = tmp + 1;
            }
            let is_dotted = contains_char(&name, '.');
            if is_dotted || (tmp < self.chars.len() && self.chars[tmp] == '(') {
                push_all(&mut name, &trailing_digits);
            } else {
                let col = col_letters_to_num(&name);
                let row = match parse_u32_digits(&trailing_digits) {
                    Some(v) => v,
                    None => {
                        return Err(FormulaError::RowOverflow);
                    },
                };
                let corner1_end = self.pos;
                return self.finish_ref((col, row, false, false, tok_start, corner1_end), None);
            }
        } else {
            proof {
                assert(name@ + trailing_digits@ =~= name@);
            }
        }
        self.parse_call_or_name(name)
    }

    /// A function call `NAME(args)`, a boolean literal, or a bare name.
    fn parse_call_or_name(&mut self, name: Vec<char>) -> (r: Result<FormulaExpr, FormulaError>)
        requires
            old(self).wf(),
        ensures
            FormulaParser::continues(*final(self), *old(self)),
            agrees(
                r,
                sp_call_or_name(old(self).chars@, name@, old(self).state(), old(self).depth as int),
                final(self).state(),
            ),
            r is Ok ==> old(self).pos <= final(self).pos,
        decreases dm(old(self).depth as int), 4nat, pm(old(self).chars@, old(self).pos as int),
    {
        self.skip_ws();
        if self.at('(') {
            self.advance();
            return self.parse_call_args(name);
        }
        Ok(bare_name_expr(name))
    }

    /// The argument list of a call, after its `(`.
    fn parse_call_args(&mut self, name: Vec<char>) -> (r: Result<FormulaExpr, FormulaError>)
        requires
            old(self).wf(),
        ensures
            FormulaParser::continues(*final(self), *old(self)),
            agrees(
                r,
                sp_call_args(old(self).chars@, name@, old(self).state(), old(self).depth as int),
                final(self).state(),
            ),
            r is Ok ==> old(self).pos <= final(self).pos,
        decreases dm(old(self).depth as int), 3nat, pm(old(self).chars@, old(self).pos as int),
    {
        let ghost s = self.chars@;
        let ghost d = self.depth as int;
        let ghost target = sp_call_args(s, name@, self.state(), d);
        let ghost p0 = self.pos;
        let mut args: Vec<FormulaExpr> = Vec::new();
        self.skip_ws();
        if !self.at(')') {
            let first = self.parse_nested_expr()?;
            proof {
                lemma_view_exprs_push(args@, first);
                assert(view_exprs(args@) =~= Seq::<ExprV>::empty());
            }
            args.push(first);
            loop
                invariant_except_break
                    FormulaParser::continues(*self, *old(self)),
                    s == self.chars@,
                    d == self.depth,
                    p0 == old(self).pos,
                    p0 <= self.pos,
                    target == sp_args_rest(s, name@, view_exprs(args@), self.state(), d),
                    target == sp_call_args(
                        old(self).chars@,
                        name@,
                        old(self).state(),
                        old(self).depth as int,
                    ),
                ensures
                    FormulaParser::continues(*self, *old(self)),
                    p0 <= self.pos,
                    target == sp_close_args(s, name@, view_exprs(args@), self.state()),
                    target == sp_call_args(
                        old(self).chars@,
                        name@,
                        old(self).state(),
                        old(self).depth as int,
                    ),
                decreases self.chars@.len() - self.pos,
            {
                let ghost st = self.state();
                self.skip_ws();
                if self.consume(',') {
                    self.skip_ws();
                    let a = self.parse_nested_expr()?;
                    proof {
                        lemma_view_exprs_push(args@, a);
                    }
                    args.push(a);
                } else {
                    break ;
                }
            }
        } else {
            proof {
                assert(view_exprs(args@) =~= Seq::<ExprV>::empty());
            }
        }
        self.skip_ws();
        if !self.consume(')') {
            return Err(FormulaError::CloseAfterArguments(name));
        }
        Ok(FormulaExpr::FuncCall { name: string_from_chars(&name), args })
    }
}

/// A name not followed by `(`: `TRUE`/`FALSE`, or a name reference.
fn bare_name_expr(name: Vec<char>) -> (r: FormulaExpr)
    ensures
        view_expr(r) == bare_name(name@),
{
    if name.len() == 4 && name[0] == 'T' && name[1] == 'R' && name[2] == 'U' && name[3] == 'E' {
        proof {
            assert(name@ =~= true_name());
        }
        return FormulaExpr::Bool(true);
    }
    if name.len() == 5 && name[0] == 'F' && name[1] == 'A' && name[2] == 'L' && name[3] == 'S'
        && name[4] == 'E' {
        proof {
            assert(name@ =~= false_name());
        }
        return FormulaExpr::Bool(false);
    }
    proof {
        if name@ == true_name() {
            assert(name@[0] == 'T' && name@[1] == 'R' && name@[2] == 'U' && name@[3] == 'E');
        }
        if name@ == false_name() {
            assert(name@[0] == 'F' && name@[1] == 'A' && name@[2] == 'L' && name@[3] == 'S'
                && name@[4] == 'E');
        }
    }
    let empty: Vec<FormulaExpr> = Vec::new();
    proof {
        assert(view_exprs(empty@) =~= Seq::<ExprV>::empty());
    }
    FormulaExpr::FuncCall { name: string_from_chars(&name), args: empty }
}

/// Checks the AST shape limits (node count in pre-order, depth), counting
/// nodes into `nodes`.
fn validate_expr_shape(expr: &FormulaExpr, depth: usize, nodes: &mut usize) -> (r: Result<
    (),
    FormulaError,
>)
    requires
        *old(nodes) <= MAX_FORMULA_NODES,
        depth <= MAX_FORMULA_DEPTH + 1,
    ensures
        match r {
            Ok(()) => sp_validate(view_expr(*expr), depth as nat, *old(nodes) as nat) == Ok::<_, ErrV>(
                *final(nodes) as nat,
            ),
            Err(x) => sp_validate(view_expr(*expr), depth as nat, *old(nodes) as nat) == Result::<nat, ErrV>::Err(
                x.view(),
            ),
        },
        r is Ok ==> *final(nodes) <= MAX_FORMULA_NODES,
    decreases *expr,
{
    *nodes = *nodes + 1;
    if *nodes > MAX_FORMULA_NODES {
        return Err(FormulaError::AstTooLarge);
    }
    if depth > MAX_FORMULA_DEPTH {
        return Err(FormulaError::AstTooDeep);
    }
    match expr {
        FormulaExpr::BinOp { lhs, rhs, .. } => {
            validate_expr_shape(lhs, depth + 1, nodes)?;
            validate_expr_shape(rhs, depth + 1, nodes)?;
        },
        FormulaExpr::UnaryMinus(inner) => validate_expr_shape(inner, depth + 1, nodes)?,
        FormulaExpr::FuncCall { args, .. } => {
            let ghost target = sp_validate(view_expr(*expr), depth as nat, *old(nodes) as nat);
            let ghost va = view_exprs(args@);
            proof {
                lemma_view_exprs_len(args@);
                assert(va.subrange(0, va.len() as int) == va);
            }
            let mut i: usize = 0;
            #[verifier::loop_isolation(false)]
            while i < args.len()
                invariant
                    0 <= i <= args@.len(),
                    va == view_exprs(args@),
                    va.len() == args@.len(),
                    *nodes <= MAX_FORMULA_NODES,
                    depth <= MAX_FORMULA_DEPTH,
                    target == sp_validate(view_expr(*expr), depth as nat, *old(nodes) as nat),
                    target == sp_validate_all(
                        va.subrange(i as int, va.len() as int),
                        depth as nat + 1,
                        *nodes as nat,
                    ),
                decreases args@.len() - i,
            {
                proof {
                    lemma_view_exprs_index(args@, i as int);
                    let rest = va.subrange(i as int, va.len() as int);
                    assert(rest[0] == va[i as int]);
                    assert(rest.subrange(1, rest.len() as int) == va.subrange(
                        i + 1,
                        va.len() as int,
                    ));
                    assert(decreases_to!(*expr => *args));
                    assert(decreases_to!(*args => args@));
                    assert(decreases_to!(args@ => args@[i as int]));
                }
                validate_expr_shape(&args[i], depth + 1, nodes)?;
                i = i + 1;
            }
        },
        _ => {},
    }
    Ok(())
}

/// Parse an Excel formula string (with or without a leading `=`).
pub fn parse(formula: &str) -> (r: Result<FormulaExpr, String>)
    ensures
        match spec_parse_with_refs(formula@) {
            Ok((e, _)) => r matches Ok(x) && view_expr(x) == e,
            Err(x) => r matches Err(m) && m@ == err_message(x),
        },
{
    match parse_with_refs(formula) {
        Ok((expr, _)) => Ok(expr),
        Err(m) => Err(m),
    }
}

/// The sheet qualifier (`Name!` or `'Quoted Name'!`) that `chars` starts
/// with, by the same rule the formula parser applies, with the position just
/// past its `!`; `None` when `chars` starts with no complete qualifier.
pub fn leading_sheet_qualifier(chars: Vec<char>) -> (r: Option<(SheetQualifier, usize)>)
    ensures
        match sp_qualifier(chars@, 0) {
            Ok((Some(q), k)) => r matches Some((x, p)) && view_qual(Some(x)) == Some(q) && p == k,
            _ => r is None,
        },
        r matches Some((_, p)) ==> p <= chars@.len(),
{
    let mut p = FormulaParser::new(chars);
    match p.try_parse_sheet_qualifier() {
        Ok(Some(q)) => Some((q, p.pos)),
        _ => None,
    }
}

/// Parse an Excel formula string, also returning every cell/range reference
/// literally present in it (`RefOccurrence`), each with its exact char-offset
/// span. Spans are relative to `formula.trim().trim_start_matches('=')` -- the
/// same normalization `parse` applies -- not to `formula` as passed in.
pub fn parse_with_refs(formula: &str) -> (r: Result<(FormulaExpr, Vec<RefOccurrence>), String>)
    ensures
        match spec_parse_with_refs(formula@) {
            Ok((e, refs)) => r matches Ok((x, v)) && view_expr(x) == e && view_refs(v@) == refs,
            Err(x) => r matches Err(m) && m@ == err_message(x),
        },
        r matches Ok((_, v)) ==> refs_ordered(view_refs(v@), formula_body(formula@).len() as int),
{
    let input = formula_body_chars(formula);
    let n = utf8_byte_len(&input);
    if n > MAX_FORMULA_BYTES as u128 {
        return Err(FormulaError::TooLong(n).message());
    }
    let mut p = FormulaParser::new(input);
    let expr = match p.expr() {
        Ok(e) => e,
        Err(x) => {
            return Err(x.message());
        },
    };
    p.skip_ws();
    if p.pos < p.chars.len() {
        let rest = slice_chars(&p.chars, p.pos, p.chars.len());
        return Err(FormulaError::TrailingInput(p.pos, rest).message());
    }
    let mut nodes: usize = 0;
    match validate_expr_shape(&expr, 0, &mut nodes) {
        Ok(()) => Ok((expr, p.refs)),
        Err(x) => Err(x.message()),
    }
}

} // verus!
