//! Formula trees prepared for a recalculation over all sheets at once:
//! whether a formula names a defined range, and its references moved onto
//! one combined grid in which each sheet's rows start at its own offset.

use vstd::prelude::*;
use crate::text::{chars_ascii_lower, push_all, push_str_chars, seq_ascii_lower, str_chars, string_chars, string_from_chars};
use super::ast::{lemma_view_exprs_index, lemma_view_exprs_len, lemma_view_exprs_push, view_expr, view_exprs, ExprV, FormulaExpr, QualV};
use super::cycle::{target_key, target_key_exec};

verus! {

// ── Defined names ────────────────────────────────────────────────────────

/// Whether `names` has an entry keyed `key`.
pub open spec fn has_key(names: Seq<(String, String)>, key: Seq<char>) -> bool {
    exists|i: int| 0 <= i < names.len() && #[trigger] names[i].0@ == key
}

/// Whether `name`, ASCII-lowercased, is a sheet-scoped defined name (where
/// the sheet has any) or a workbook-level one.
pub open spec fn names_a_range(
    name: Seq<char>,
    named: Seq<(String, String)>,
    scoped: Option<Seq<(String, String)>>,
) -> bool {
    let key = seq_ascii_lower(name);
    (match scoped {
        Some(local) => has_key(local, key),
        None => false,
    }) || has_key(named, key)
}

/// Whether the expression holds a call without arguments whose name is a
/// defined name: the form a bare defined name parses to.
pub open spec fn expr_names_range(
    e: ExprV,
    named: Seq<(String, String)>,
    scoped: Option<Seq<(String, String)>>,
) -> bool
    decreases e,
{
    match e {
        ExprV::FuncCall { name, args } => (args.len() == 0 && names_a_range(name, named, scoped))
            || args_name_range(args, named, scoped),
        ExprV::BinOp { lhs, rhs, .. } => expr_names_range(*lhs, named, scoped) || expr_names_range(
            *rhs,
            named,
            scoped,
        ),
        ExprV::UnaryMinus(inner) => expr_names_range(*inner, named, scoped),
        _ => false,
    }
}

pub open spec fn args_name_range(
    args: Seq<ExprV>,
    named: Seq<(String, String)>,
    scoped: Option<Seq<(String, String)>>,
) -> bool
    decreases args,
{
    if args.len() == 0 {
        false
    } else {
        args_name_range(args.subrange(0, args.len() - 1), named, scoped) || expr_names_range(
            args[args.len() - 1],
            named,
            scoped,
        )
    }
}

pub open spec fn opt_names(o: Option<&Vec<(String, String)>>) -> Option<Seq<(String, String)>> {
    match o {
        Some(v) => Some(v@),
        None => None,
    }
}

/// Whether `names` has an entry keyed `key`.
fn has_key_exec(names: &Vec<(String, String)>, key: &Vec<char>) -> (r: bool)
    ensures
        r == has_key(names@, key@),
{
    let mut i: usize = 0;
    while i < names.len()
        invariant
            0 <= i <= names@.len(),
            forall|j: int| 0 <= j < i ==> names@[j].0@ != key@,
        decreases names@.len() - i,
    {
        if crate::text::chars_eq(&string_chars(&names[i].0), key) {
            return true;
        }
        i = i + 1;
    }
    false
}

/// Whether the formula refers to a defined name, sheet-scoped (in
/// `scoped_named_ranges`) or workbook-level (in `named_ranges`); the keys
/// of both are lowercase names. A defined name parses as a call without
/// arguments, so only such calls are looked up, in any case of letters.
pub fn contains_named_range(
    expr: &FormulaExpr,
    named_ranges: &Vec<(String, String)>,
    scoped_named_ranges: Option<&Vec<(String, String)>>,
) -> (r: bool)
    ensures
        r == expr_names_range(view_expr(*expr), named_ranges@, opt_names(scoped_named_ranges)),
    decreases *expr,
{
    let ghost named = named_ranges@;
    let ghost scoped = opt_names(scoped_named_ranges);
    match expr {
        FormulaExpr::FuncCall { name, args } => {
            let ghost va = view_exprs(args@);
            proof {
                lemma_view_exprs_len(args@);
            }
            if args.len() == 0 {
                let key = chars_ascii_lower(&string_chars(name));
                let local = match scoped_named_ranges {
                    Some(l) => has_key_exec(l, &key),
                    None => false,
                };
                if local || has_key_exec(named_ranges, &key) {
                    return true;
                }
            }
            let mut i: usize = 0;
            proof {
                assert(va.subrange(0, 0) =~= Seq::<ExprV>::empty());
            }
            #[verifier::loop_isolation(false)]
            while i < args.len()
                invariant
                    0 <= i <= args@.len(),
                    va == view_exprs(args@),
                    va.len() == args@.len(),
                    !args_name_range(va.subrange(0, i as int), named, scoped),
                decreases args@.len() - i,
            {
                proof {
                    lemma_view_exprs_index(args@, i as int);
                    let pre = va.subrange(0, i + 1);
                    assert(pre.subrange(0, pre.len() - 1) =~= va.subrange(0, i as int));
                    assert(pre[pre.len() - 1] == view_expr(args@[i as int]));
                    assert(decreases_to!(*expr => *args));
                    assert(decreases_to!(*args => args@));
                    assert(decreases_to!(args@ => args@[i as int]));
                }
                if contains_named_range(&args[i], named_ranges, scoped_named_ranges) {
                    proof {
                        assert(args_name_range(va.subrange(0, i + 1), named, scoped));
                        lemma_args_name_range_prefix(va, i + 1, named, scoped);
                    }
                    return true;
                }
                i = i + 1;
            }
            proof {
                assert(va.subrange(0, va.len() as int) =~= va);
            }
            false
        },
        FormulaExpr::BinOp { lhs, rhs, .. } => {
            contains_named_range(lhs, named_ranges, scoped_named_ranges) || contains_named_range(
                rhs,
                named_ranges,
                scoped_named_ranges,
            )
        },
        FormulaExpr::UnaryMinus(inner) => contains_named_range(inner, named_ranges, scoped_named_ranges),
        _ => false,
    }
}

/// A prefix of the arguments that names a range makes all of them do so.
proof fn lemma_args_name_range_prefix(
    args: Seq<ExprV>,
    n: int,
    named: Seq<(String, String)>,
    scoped: Option<Seq<(String, String)>>,
)
    requires
        0 <= n <= args.len(),
        args_name_range(args.subrange(0, n), named, scoped),
    ensures
        args_name_range(args, named, scoped),
    decreases args.len() - n,
{
    if n < args.len() {
        let pre = args.subrange(0, n + 1);
        assert(pre.subrange(0, pre.len() - 1) =~= args.subrange(0, n));
        lemma_args_name_range_prefix(args, n + 1, named, scoped);
    } else {
        assert(args.subrange(0, n) =~= args);
    }
}

// ── References moved onto one grid ───────────────────────────────────────

/// The row offset of the sheet keyed `key`: the first entry's.
pub open spec fn offset_of(offsets: Seq<(String, u32)>, key: Seq<char>) -> Option<u32>
    decreases offsets.len(),
{
    if offsets.len() == 0 {
        None
    } else if offsets[0].0@ == key {
        Some(offsets[0].1)
    } else {
        offset_of(offsets.drop_first(), key)
    }
}

/// A reference's row moved by the offset of the sheet it reads from (its
/// qualifier's, else the host's, lowercased): an error names a sheet
/// without offset, or says that the row leaves `u32`.
pub open spec fn mapped_row(
    host: Seq<char>,
    sheet: Option<QualV>,
    row: u32,
    offsets: Seq<(String, u32)>,
) -> Result<u32, Seq<char>> {
    let key = target_key(host, sheet);
    match offset_of(offsets, key) {
        None => Err("unknown worksheet in formula reference: "@ + key),
        Some(o) => if row + o <= u32::MAX {
            Ok((row + o) as u32)
        } else {
            Err("worksheet row overflows formula coordinate remapping"@)
        },
    }
}

/// The expression with every reference's rows moved onto the combined
/// grid and its sheet qualifier dropped; the first error met, left to
/// right (a range's first corner before its second), where one arises.
pub open spec fn remapped(e: ExprV, host: Seq<char>, offsets: Seq<(String, u32)>) -> Result<ExprV, Seq<char>>
    decreases e,
{
    match e {
        ExprV::CellRef { col, row, abs_col, abs_row, sheet } => match mapped_row(host, sheet, row, offsets) {
            Ok(r) => Ok(ExprV::CellRef { col, row: r, abs_col, abs_row, sheet: None }),
            Err(m) => Err(m),
        },
        ExprV::Range { c1, r1, c2, r2, abs_c1, abs_r1, abs_c2, abs_r2, sheet } => match mapped_row(
            host,
            sheet,
            r1,
            offsets,
        ) {
            Err(m) => Err(m),
            Ok(a) => match mapped_row(host, sheet, r2, offsets) {
                Err(m) => Err(m),
                Ok(b) => Ok(ExprV::Range { c1, r1: a, c2, r2: b, abs_c1, abs_r1, abs_c2, abs_r2, sheet: None }),
            },
        },
        ExprV::BinOp { op, lhs, rhs } => match remapped(*lhs, host, offsets) {
            Err(m) => Err(m),
            Ok(l) => match remapped(*rhs, host, offsets) {
                Err(m) => Err(m),
                Ok(r) => Ok(ExprV::BinOp { op, lhs: Box::new(l), rhs: Box::new(r) }),
            },
        },
        ExprV::UnaryMinus(inner) => match remapped(*inner, host, offsets) {
            Err(m) => Err(m),
            Ok(x) => Ok(ExprV::UnaryMinus(Box::new(x))),
        },
        ExprV::FuncCall { name, args } => match remapped_args(args, host, offsets) {
            Err(m) => Err(m),
            Ok(a) => Ok(ExprV::FuncCall { name, args: a }),
        },
        other => Ok(other),
    }
}

pub open spec fn remapped_args(args: Seq<ExprV>, host: Seq<char>, offsets: Seq<(String, u32)>) -> Result<Seq<ExprV>, Seq<char>>
    decreases args,
{
    if args.len() == 0 {
        Ok(Seq::empty())
    } else {
        match remapped_args(args.subrange(0, args.len() - 1), host, offsets) {
            Err(m) => Err(m),
            Ok(p) => match remapped(args[args.len() - 1], host, offsets) {
                Err(m) => Err(m),
                Ok(x) => Ok(p.push(x)),
            },
        }
    }
}

/// `x` is `e` moved onto the combined grid: the same tree, with every cell
/// and range reference unqualified and each of its rows moved down by the
/// offset of the sheet it read (its qualifier's, else the host's).
pub open spec fn moved_onto_grid(e: ExprV, x: ExprV, host: Seq<char>, offsets: Seq<(String, u32)>) -> bool
    decreases e,
{
    match e {
        ExprV::CellRef { col, row, abs_col, abs_row, sheet } => match x {
            ExprV::CellRef { col: c, row: r, abs_col: ac, abs_row: ar, sheet: s } => {
                &&& c == col && ac == abs_col && ar == abs_row && s is None
                &&& offset_of(offsets, super::cycle::sheet_read(host, sheet)) matches Some(o) && r == row + o
            },
            _ => false,
        },
        ExprV::Range { c1, r1, c2, r2, abs_c1, abs_r1, abs_c2, abs_r2, sheet } => match x {
            ExprV::Range { c1: xc1, r1: xr1, c2: xc2, r2: xr2, abs_c1: a1, abs_r1: b1, abs_c2: a2, abs_r2: b2, sheet: s } => {
                &&& xc1 == c1 && xc2 == c2 && a1 == abs_c1 && b1 == abs_r1 && a2 == abs_c2 && b2 == abs_r2
                &&& s is None
                &&& offset_of(offsets, super::cycle::sheet_read(host, sheet)) matches Some(o) && xr1 == r1 + o && xr2 == r2 + o
            },
            _ => false,
        },
        ExprV::BinOp { op, lhs, rhs } => match x {
            ExprV::BinOp { op: o, lhs: l, rhs: r } => o == op && moved_onto_grid(*lhs, *l, host, offsets)
                && moved_onto_grid(*rhs, *r, host, offsets),
            _ => false,
        },
        ExprV::UnaryMinus(inner) => match x {
            ExprV::UnaryMinus(i) => moved_onto_grid(*inner, *i, host, offsets),
            _ => false,
        },
        ExprV::FuncCall { name, args } => match x {
            ExprV::FuncCall { name: n, args: a } => n == name && a.len() == args.len() && forall|k: int|
                0 <= k < args.len() ==> moved_onto_grid(#[trigger] args[k], a[k], host, offsets),
            _ => false,
        },
        _ => x == e,
    }
}

proof fn lemma_remapped_args_each(args: Seq<ExprV>, host: Seq<char>, offsets: Seq<(String, u32)>, p: Seq<ExprV>)
    requires
        remapped_args(args, host, offsets) == Ok::<Seq<ExprV>, Seq<char>>(p),
    ensures
        p.len() == args.len(),
        forall|k: int| 0 <= k < args.len() ==> remapped(#[trigger] args[k], host, offsets) == Ok::<ExprV, Seq<char>>(p[k]),
    decreases args.len(),
{
    if args.len() > 0 {
        let init = args.subrange(0, args.len() - 1);
        let q = remapped_args(init, host, offsets).get_Ok_0();
        lemma_remapped_args_each(init, host, offsets, q);
        assert forall|k: int| 0 <= k < args.len() implies remapped(#[trigger] args[k], host, offsets) == Ok::<ExprV, Seq<char>>(p[k]) by {
            if k < args.len() - 1 {
                assert(init[k] == args[k]);
            }
        }
    }
}

/// A remapped expression is the expression moved onto the combined grid:
/// no reference anywhere in it keeps a sheet qualifier, each reference's
/// row is its row plus the offset of the sheet it reads, and the rest of
/// the tree is unchanged.
pub proof fn law_remapped_is_moved_onto_grid(e: ExprV, host: Seq<char>, offsets: Seq<(String, u32)>)
    requires
        remapped(e, host, offsets) is Ok,
    ensures
        moved_onto_grid(e, remapped(e, host, offsets).get_Ok_0(), host, offsets),
    decreases e,
{
    match e {
        ExprV::BinOp { lhs, rhs, .. } => {
            law_remapped_is_moved_onto_grid(*lhs, host, offsets);
            law_remapped_is_moved_onto_grid(*rhs, host, offsets);
        },
        ExprV::UnaryMinus(inner) => {
            law_remapped_is_moved_onto_grid(*inner, host, offsets);
        },
        ExprV::FuncCall { args, .. } => {
            let p = remapped_args(args, host, offsets).get_Ok_0();
            lemma_remapped_args_each(args, host, offsets, p);
            assert forall|k: int| 0 <= k < args.len() implies moved_onto_grid(#[trigger] args[k], p[k], host, offsets) by {
                law_remapped_is_moved_onto_grid(args[k], host, offsets);
            }
        },
        _ => {},
    }
}

/// Remapping commutes with negation: the negation of an expression remaps
/// to the negation of the remapped expression, and fails exactly when the
/// expression does.
pub proof fn law_remap_commutes_with_negation(e: ExprV, host: Seq<char>, offsets: Seq<(String, u32)>)
    ensures
        remapped(ExprV::UnaryMinus(Box::new(e)), host, offsets) == match remapped(e, host, offsets) {
            Ok(x) => Ok::<ExprV, Seq<char>>(ExprV::UnaryMinus(Box::new(x))),
            Err(m) => Err(m),
        },
{
}

pub open spec fn remap_result_view(r: Result<FormulaExpr, String>) -> Result<ExprV, Seq<char>> {
    match r {
        Ok(e) => Ok(view_expr(e)),
        Err(m) => Err(m@),
    }
}

fn offset_of_exec(offsets: &Vec<(String, u32)>, key: &Vec<char>) -> (r: Option<u32>)
    ensures
        r == offset_of(offsets@, key@),
{
    let mut i: usize = 0;
    proof {
        assert(offsets@.subrange(0, offsets@.len() as int) =~= offsets@);
    }
    while i < offsets.len()
        invariant
            0 <= i <= offsets@.len(),
            offset_of(offsets@, key@) == offset_of(offsets@.subrange(i as int, offsets@.len() as int), key@),
        decreases offsets@.len() - i,
    {
        proof {
            let rest = offsets@.subrange(i as int, offsets@.len() as int);
            assert(rest[0] == offsets@[i as int]);
            assert(rest.drop_first() =~= offsets@.subrange(i + 1, offsets@.len() as int));
        }
        if crate::text::chars_eq(&string_chars(&offsets[i].0), key) {
            return Some(offsets[i].1);
        }
        i = i + 1;
    }
    None
}

fn map_row(host: &Vec<char>, sheet: &Option<super::ast::SheetQualifier>, row: u32, offsets: &Vec<(String, u32)>) -> (r: Result<u32, String>)
    ensures
        match r {
            Ok(v) => mapped_row(host@, super::ast::view_qual(*sheet), row, offsets@) == Ok::<u32, Seq<char>>(v),
            Err(m) => mapped_row(host@, super::ast::view_qual(*sheet), row, offsets@) == Err::<u32, Seq<char>>(m@),
        },
{
    let key = target_key_exec(host, sheet);
    match offset_of_exec(offsets, &key) {
        None => {
            let mut msg: Vec<char> = Vec::new();
            push_str_chars(&mut msg, "unknown worksheet in formula reference: ");
            push_all(&mut msg, &key);
            Err(string_from_chars(&msg))
        },
        Some(o) => match row.checked_add(o) {
            Some(v) => Ok(v),
            None => Err(string_from_chars(&str_chars("worksheet row overflows formula coordinate remapping"))),
        },
    }
}

/// The formula with each reference's rows moved by the row offset of the
/// sheet it reads from (`offsets` is keyed by lowercased sheet name; a
/// reference without qualifier reads from `host`) and its qualifier
/// dropped, so that formulas of every sheet live on one grid. Fails on the
/// first reference, left to right, to a sheet without offset, or whose row
/// would leave `u32`.
pub fn remap_expr(expr: &FormulaExpr, host: &str, offsets: &Vec<(String, u32)>) -> (r: Result<FormulaExpr, String>)
    ensures
        remap_result_view(r) == remapped(view_expr(*expr), host@, offsets@),
    decreases *expr,
{
    let hv = str_chars(host);
    match expr {
        FormulaExpr::CellRef { col, row, abs_col, abs_row, sheet } => match map_row(&hv, sheet, *row, offsets) {
            Ok(r) => Ok(FormulaExpr::CellRef { col: *col, row: r, abs_col: *abs_col, abs_row: *abs_row, sheet: None }),
            Err(m) => Err(m),
        },
        FormulaExpr::Range { c1, r1, c2, r2, abs_c1, abs_r1, abs_c2, abs_r2, sheet } => {
            let a = match map_row(&hv, sheet, *r1, offsets) {
                Ok(a) => a,
                Err(m) => {
                    return Err(m);
                },
            };
            let b = match map_row(&hv, sheet, *r2, offsets) {
                Ok(b) => b,
                Err(m) => {
                    return Err(m);
                },
            };
            Ok(
                FormulaExpr::Range {
                    c1: *c1,
                    r1: a,
                    c2: *c2,
                    r2: b,
                    abs_c1: *abs_c1,
                    abs_r1: *abs_r1,
                    abs_c2: *abs_c2,
                    abs_r2: *abs_r2,
                    sheet: None,
                },
            )
        },
        FormulaExpr::BinOp { op, lhs, rhs } => {
            let l = match remap_expr(lhs, host, offsets) {
                Ok(l) => l,
                Err(m) => {
                    return Err(m);
                },
            };
            let r = match remap_expr(rhs, host, offsets) {
                Ok(r) => r,
                Err(m) => {
                    return Err(m);
                },
            };
            Ok(FormulaExpr::BinOp { op: *op, lhs: Box::new(l), rhs: Box::new(r) })
        },
        FormulaExpr::UnaryMinus(inner) => match remap_expr(inner, host, offsets) {
            Ok(x) => Ok(FormulaExpr::UnaryMinus(Box::new(x))),
            Err(m) => Err(m),
        },
        FormulaExpr::FuncCall { name, args } => {
            let ghost va = view_exprs(args@);
            proof {
                lemma_view_exprs_len(args@);
                assert(va.subrange(0, 0) =~= Seq::<ExprV>::empty());
                assert(view_exprs(Seq::<FormulaExpr>::empty()) =~= Seq::<ExprV>::empty());
            }
            let mut out: Vec<FormulaExpr> = Vec::new();
            let mut i: usize = 0;
            #[verifier::loop_isolation(false)]
            while i < args.len()
                invariant
                    0 <= i <= args@.len(),
                    va == view_exprs(args@),
                    va.len() == args@.len(),
                    remapped_args(va.subrange(0, i as int), host@, offsets@) == Ok::<Seq<ExprV>, Seq<char>>(
                        view_exprs(out@),
                    ),
                decreases args@.len() - i,
            {
                proof {
                    lemma_view_exprs_index(args@, i as int);
                    let pre = va.subrange(0, i + 1);
                    assert(pre.subrange(0, pre.len() - 1) =~= va.subrange(0, i as int));
                    assert(pre[pre.len() - 1] == view_expr(args@[i as int]));
                    assert(decreases_to!(*expr => *args));
                    assert(decreases_to!(*args => args@));
                    assert(decreases_to!(args@ => args@[i as int]));
                }
                match remap_expr(&args[i], host, offsets) {
                    Ok(x) => {
                        proof {
                            lemma_view_exprs_push(out@, x);
                        }
                        out.push(x);
                    },
                    Err(m) => {
                        proof {
                            lemma_remapped_args_prefix_err(va, i + 1, host@, offsets@, m@);
                        }
                        return Err(m);
                    },
                }
                i = i + 1;
            }
            proof {
                assert(va.subrange(0, va.len() as int) =~= va);
            }
            Ok(FormulaExpr::FuncCall { name: name.clone(), args: out })
        },
        FormulaExpr::Number(t) => Ok(FormulaExpr::Number(t.clone())),
        FormulaExpr::Str(t) => Ok(FormulaExpr::Str(t.clone())),
        FormulaExpr::Bool(b) => Ok(FormulaExpr::Bool(*b)),
    }
}

/// An error in a prefix of the arguments is the error of all of them.
proof fn lemma_remapped_args_prefix_err(
    args: Seq<ExprV>,
    n: int,
    host: Seq<char>,
    offsets: Seq<(String, u32)>,
    m: Seq<char>,
)
    requires
        0 <= n <= args.len(),
        remapped_args(args.subrange(0, n), host, offsets) == Err::<Seq<ExprV>, Seq<char>>(m),
    ensures
        remapped_args(args, host, offsets) == Err::<Seq<ExprV>, Seq<char>>(m),
    decreases args.len() - n,
{
    if n < args.len() {
        let pre = args.subrange(0, n + 1);
        assert(pre.subrange(0, pre.len() - 1) =~= args.subrange(0, n));
        lemma_remapped_args_prefix_err(args, n + 1, host, offsets, m);
    } else {
        assert(args.subrange(0, n) =~= args);
    }
}

} // verus!
