//! The formula syntax tree produced by `super::parser`, and its mathematical
//! view (strings as `Seq<char>`, argument lists as `Seq`).

use vstd::prelude::*;

verus! {

#[derive(Debug, Clone, Copy, PartialEq, Eq)]
pub enum BinOpKind {
    Add,
    Sub,
    Mul,
    Div,
    Eq,
    Ne,
    Lt,
    Le,
    Gt,
    Ge,
    Concat,
}

/// A `Sheet2!`/`'Sales 2026'!` prefix as written in a formula: the char span
/// of the qualifier (without the `!`), its literal text, and the sheet name it
/// denotes (quotes removed, `''` unescaped).
#[derive(Debug, PartialEq, Eq)]
pub struct SheetQualifier {
    pub raw_span: (usize, usize),
    pub raw_text: String,
    pub normalized_name: String,
}

/// The view of a `SheetQualifier`.
pub struct QualV {
    pub raw_span: (usize, usize),
    pub raw_text: Seq<char>,
    pub normalized_name: Seq<char>,
}

impl SheetQualifier {
    pub open spec fn view(&self) -> QualV {
        QualV {
            raw_span: self.raw_span,
            raw_text: self.raw_text@,
            normalized_name: self.normalized_name@,
        }
    }

    /// A copy with the same view.
    pub fn duplicate(&self) -> (r: SheetQualifier)
        ensures
            r.view() == self.view(),
    {
        SheetQualifier {
            raw_span: self.raw_span,
            raw_text: self.raw_text.clone(),
            normalized_name: self.normalized_name.clone(),
        }
    }
}

impl Clone for SheetQualifier {
    fn clone(&self) -> (r: SheetQualifier)
        ensures
            r.view() == self.view(),
    {
        self.duplicate()
    }
}

pub open spec fn view_qual(q: Option<SheetQualifier>) -> Option<QualV> {
    match q {
        Some(q) => Some(q.view()),
        None => None,
    }
}

pub fn duplicate_qual(q: &Option<SheetQualifier>) -> (r: Option<SheetQualifier>)
    ensures
        view_qual(r) == view_qual(*q),
{
    match q {
        Some(q) => Some(q.duplicate()),
        None => None,
    }
}

/// A parsed formula. A number literal keeps its literal text (digits with an
/// optional `.` fraction) rather than a floating-point value.
#[derive(Debug, PartialEq)]
pub enum FormulaExpr {
    Number(String),
    Str(String),
    Bool(bool),
    CellRef {
        col: u32,
        row: u32,
        /// Whether the column/row carried a `$` (e.g. `$A1`, `A$1`, `$A$1`).
        abs_col: bool,
        abs_row: bool,
        sheet: Option<SheetQualifier>,
    },
    Range {
        c1: u32,
        r1: u32,
        c2: u32,
        r2: u32,
        /// Per-corner `$` flags -- Excel allows mixed anchoring, e.g. `$A1:B$10`.
        abs_c1: bool,
        abs_r1: bool,
        abs_c2: bool,
        abs_r2: bool,
        sheet: Option<SheetQualifier>,
    },
    BinOp { op: BinOpKind, lhs: Box<FormulaExpr>, rhs: Box<FormulaExpr> },
    UnaryMinus(Box<FormulaExpr>),
    FuncCall { name: String, args: Vec<FormulaExpr> },
}

/// The view of a `FormulaExpr`.
pub enum ExprV {
    Number(Seq<char>),
    Str(Seq<char>),
    Bool(bool),
    CellRef { col: u32, row: u32, abs_col: bool, abs_row: bool, sheet: Option<QualV> },
    Range {
        c1: u32,
        r1: u32,
        c2: u32,
        r2: u32,
        abs_c1: bool,
        abs_r1: bool,
        abs_c2: bool,
        abs_r2: bool,
        sheet: Option<QualV>,
    },
    BinOp { op: BinOpKind, lhs: Box<ExprV>, rhs: Box<ExprV> },
    UnaryMinus(Box<ExprV>),
    FuncCall { name: Seq<char>, args: Seq<ExprV> },
}

pub open spec fn view_expr(e: FormulaExpr) -> ExprV
    decreases e,
{
    match e {
        FormulaExpr::Number(t) => ExprV::Number(t@),
        FormulaExpr::Str(t) => ExprV::Str(t@),
        FormulaExpr::Bool(b) => ExprV::Bool(b),
        FormulaExpr::CellRef { col, row, abs_col, abs_row, sheet } => ExprV::CellRef {
            col,
            row,
            abs_col,
            abs_row,
            sheet: view_qual(sheet),
        },
        FormulaExpr::Range { c1, r1, c2, r2, abs_c1, abs_r1, abs_c2, abs_r2, sheet } =>
            ExprV::Range { c1, r1, c2, r2, abs_c1, abs_r1, abs_c2, abs_r2, sheet: view_qual(sheet) },
        FormulaExpr::BinOp { op, lhs, rhs } => ExprV::BinOp {
            op,
            lhs: Box::new(view_expr(*lhs)),
            rhs: Box::new(view_expr(*rhs)),
        },
        FormulaExpr::UnaryMinus(inner) => ExprV::UnaryMinus(Box::new(view_expr(*inner))),
        FormulaExpr::FuncCall { name, args } => ExprV::FuncCall {
            name: name@,
            args: view_exprs(args@),
        },
    }
}

pub open spec fn view_exprs(s: Seq<FormulaExpr>) -> Seq<ExprV>
    decreases s,
{
    if s.len() == 0 {
        Seq::empty()
    } else {
        view_exprs(s.subrange(0, s.len() - 1)).push(view_expr(s[s.len() - 1]))
    }
}

impl FormulaExpr {
    /// A copy with the same view.
    pub fn duplicate(&self) -> (r: FormulaExpr)
        ensures
            view_expr(r) == view_expr(*self),
        decreases *self,
    {
        match self {
            FormulaExpr::Number(t) => FormulaExpr::Number(t.clone()),
            FormulaExpr::Str(t) => FormulaExpr::Str(t.clone()),
            FormulaExpr::Bool(b) => FormulaExpr::Bool(*b),
            FormulaExpr::CellRef { col, row, abs_col, abs_row, sheet } => FormulaExpr::CellRef {
                col: *col,
                row: *row,
                abs_col: *abs_col,
                abs_row: *abs_row,
                sheet: duplicate_qual(sheet),
            },
            FormulaExpr::Range { c1, r1, c2, r2, abs_c1, abs_r1, abs_c2, abs_r2, sheet } =>
                FormulaExpr::Range {
                c1: *c1,
                r1: *r1,
                c2: *c2,
                r2: *r2,
                abs_c1: *abs_c1,
                abs_r1: *abs_r1,
                abs_c2: *abs_c2,
                abs_r2: *abs_r2,
                sheet: duplicate_qual(sheet),
            },
            FormulaExpr::BinOp { op, lhs, rhs } => {
                let l = lhs.duplicate();
                let r = rhs.duplicate();
                FormulaExpr::BinOp { op: *op, lhs: Box::new(l), rhs: Box::new(r) }
            },
            FormulaExpr::UnaryMinus(inner) => FormulaExpr::UnaryMinus(Box::new(inner.duplicate())),
            FormulaExpr::FuncCall { name, args } => {
                let mut out: Vec<FormulaExpr> = Vec::new();
                let mut i: usize = 0;
                proof {
                    assert(args@.subrange(0, 0) =~= Seq::<FormulaExpr>::empty());
                    assert(out@ =~= Seq::<FormulaExpr>::empty());
                }
                #[verifier::loop_isolation(false)]
                while i < args.len()
                    invariant
                        0 <= i <= args@.len(),
                        view_exprs(out@) == view_exprs(args@.subrange(0, i as int)),
                    decreases args@.len() - i,
                {
                    proof {
                        assert(decreases_to!(*self => *args));
                        assert(decreases_to!(*args => args@));
                        assert(decreases_to!(args@ => args@[i as int]));
                    }
                    let e = args[i].duplicate();
                    proof {
                        lemma_view_exprs_push(out@, e);
                        lemma_view_exprs_push(args@.subrange(0, i as int), args@[i as int]);
                        assert(args@.subrange(0, i as int).push(args@[i as int]) =~= args@.subrange(0, i + 1));
                    }
                    out.push(e);
                    i = i + 1;
                }
                proof {
                    assert(args@.subrange(0, args@.len() as int) =~= args@);
                }
                FormulaExpr::FuncCall { name: name.clone(), args: out }
            },
        }
    }
}

impl Clone for FormulaExpr {
    fn clone(&self) -> (r: FormulaExpr)
        ensures
            view_expr(r) == view_expr(*self),
    {
        self.duplicate()
    }
}

pub proof fn lemma_view_exprs_len(s: Seq<FormulaExpr>)
    ensures
        view_exprs(s).len() == s.len(),
    decreases s.len(),
{
    if s.len() > 0 {
        lemma_view_exprs_len(s.subrange(0, s.len() - 1));
    }
}

pub proof fn lemma_view_exprs_index(s: Seq<FormulaExpr>, i: int)
    requires
        0 <= i < s.len(),
    ensures
        view_exprs(s).len() == s.len(),
        view_exprs(s)[i] == view_expr(s[i]),
    decreases s.len(),
{
    lemma_view_exprs_len(s);
    if i < s.len() - 1 {
        lemma_view_exprs_index(s.subrange(0, s.len() - 1), i);
    }
}

pub proof fn lemma_view_exprs_push(s: Seq<FormulaExpr>, e: FormulaExpr)
    ensures
        view_exprs(s.push(e)) == view_exprs(s).push(view_expr(e)),
{
    assert(s.push(e).subrange(0, s.len() as int) == s);
}

} // verus!
