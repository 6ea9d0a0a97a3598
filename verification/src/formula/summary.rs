//! A small diagnostic summary of a workbook's formulas: how many there are,
//! how many read another sheet, how many fail to parse, and whether they
//! form a dependency cycle, as one JSON object.

use vstd::prelude::*;
use crate::diagnostics::json_string;
use crate::text::{chars_ascii_lower, decimal, fmt_u64, push_all, push_str_chars, seq_ascii_lower, string_chars, string_from_chars};
use super::ast::{lemma_view_exprs_index, lemma_view_exprs_len, view_expr, view_exprs, ExprV, FormulaExpr};
use super::cycle::{all_nodes, has_cycle, node_graph, sheets_view, workbook_has_formula_cycle, CellsV};
use super::grammar::spec_parse_with_refs;
use super::parser::parse;

verus! {

// ── Qualified references ─────────────────────────────────────────────────

/// Whether an expression holds a reference qualified by a sheet name.
pub open spec fn expr_has_qualified(e: ExprV) -> bool
    decreases e,
{
    match e {
        ExprV::CellRef { sheet, .. } => sheet is Some,
        ExprV::Range { sheet, .. } => sheet is Some,
        ExprV::BinOp { lhs, rhs, .. } => expr_has_qualified(*lhs) || expr_has_qualified(*rhs),
        ExprV::UnaryMinus(inner) => expr_has_qualified(*inner),
        ExprV::FuncCall { args, .. } => args_have_qualified(args),
        _ => false,
    }
}

pub open spec fn args_have_qualified(args: Seq<ExprV>) -> bool
    decreases args,
{
    if args.len() == 0 {
        false
    } else {
        args_have_qualified(args.subrange(0, args.len() - 1)) || expr_has_qualified(args[args.len() - 1])
    }
}

/// Whether `expr` holds a cell or range reference qualified by a sheet name.
pub fn contains_qualified_reference(expr: &FormulaExpr) -> (r: bool)
    ensures
        r == expr_has_qualified(view_expr(*expr)),
    decreases *expr,
{
    match expr {
        FormulaExpr::CellRef { sheet, .. } => sheet.is_some(),
        FormulaExpr::Range { sheet, .. } => sheet.is_some(),
        FormulaExpr::BinOp { lhs, rhs, .. } => {
            let l = contains_qualified_reference(lhs);
            let r = contains_qualified_reference(rhs);
            l || r
        },
        FormulaExpr::UnaryMinus(inner) => contains_qualified_reference(inner),
        FormulaExpr::FuncCall { args, .. } => {
            let ghost va = view_exprs(args@);
            proof {
                lemma_view_exprs_len(args@);
                assert(va.subrange(0, 0) =~= Seq::<ExprV>::empty());
            }
            let mut found = false;
            let mut i: usize = 0;
            #[verifier::loop_isolation(false)]
            while i < args.len()
                invariant
                    0 <= i <= args@.len(),
                    va == view_exprs(args@),
                    va.len() == args@.len(),
                    found == args_have_qualified(va.subrange(0, i as int)),
                decreases args@.len() - i,
            {
                proof {
                    lemma_view_exprs_index(args@, i as int);
                    let pre = va.subrange(0, i + 1);
                    assert(pre.subrange(0, pre.len() - 1) =~= va.subrange(0, i as int));
                    assert(pre[pre.len() - 1] == view_expr(args@[i as int]));
                    assert(decreases_to!(*expr => *args));
                    assert(decreases_to!(*args => args@));
                    assert(decreases_to!(args@ => args@[i as int]));
                }
                let q = contains_qualified_reference(&args[i]);
                found = found || q;
                i = i + 1;
            }
            proof {
                assert(va.subrange(0, va.len() as int) =~= va);
            }
            found
        },
        _ => false,
    }
}

// ── Counting formulas ────────────────────────────────────────────────────

/// Sheets as `(name, formulas)`, each formula `((row, col), text)` with no
/// leading `=`.
pub type FormulaSheetsV = Seq<(Seq<char>, Seq<((u32, u32), Seq<char>)>)>;

pub open spec fn formula_cells_view(cells: Seq<((u32, u32), String)>) -> Seq<((u32, u32), Seq<char>)> {
    cells.map_values(|c: ((u32, u32), String)| (c.0, c.1@))
}

pub open spec fn formula_sheets_view(sheets: Seq<(String, Vec<((u32, u32), String)>)>) -> FormulaSheetsV {
    sheets.map_values(|s: (String, Vec<((u32, u32), String)>)| (s.0@, formula_cells_view(s.1@)))
}

/// How many formulas of `fs` satisfy `p`.
pub open spec fn count_cells(fs: Seq<((u32, u32), Seq<char>)>, p: spec_fn(Seq<char>) -> bool) -> nat
    decreases fs.len(),
{
    if fs.len() == 0 {
        0
    } else {
        count_cells(fs.drop_last(), p) + if p(fs.last().1) {
            1nat
        } else {
            0nat
        }
    }
}

/// How many formulas of all sheets satisfy `p`.
pub open spec fn count_sheets(s: FormulaSheetsV, p: spec_fn(Seq<char>) -> bool) -> nat
    decreases s.len(),
{
    if s.len() == 0 {
        0
    } else {
        count_sheets(s.drop_last(), p) + count_cells(s.last().1, p)
    }
}

pub open spec fn any_formula() -> spec_fn(Seq<char>) -> bool {
    |f: Seq<char>| true
}

/// The formula parses and reads another sheet by name.
pub open spec fn qualified_formula() -> spec_fn(Seq<char>) -> bool {
    |f: Seq<char>|
        match spec_parse_with_refs(f) {
            Ok((e, _)) => expr_has_qualified(e),
            Err(_) => false,
        }
}

/// The formula does not parse.
pub open spec fn unparsable_formula() -> spec_fn(Seq<char>) -> bool {
    |f: Seq<char>| spec_parse_with_refs(f) is Err
}

/// The sheets as the calculation sees them: names lowercased, each formula
/// prefixed with `=`.
pub open spec fn calculation_sheets(s: FormulaSheetsV) -> Seq<(Seq<char>, CellsV)> {
    s.map_values(
        |x: (Seq<char>, Seq<((u32, u32), Seq<char>)>)|
            (
                seq_ascii_lower(x.0),
                x.1.map_values(|c: ((u32, u32), Seq<char>)| (c.0, Some(seq!['='] + c.1))),
            ),
    )
}

/// Whether the formulas of the sheets form a dependency cycle.
pub open spec fn formulas_cyclic(s: FormulaSheetsV) -> bool {
    let nodes = all_nodes(calculation_sheets(s));
    has_cycle(node_graph(nodes), nodes.len() as int)
}

/// The summary object: sheet count, formula count, qualified-formula count,
/// parse-error count and the cycle flag.
pub open spec fn summary_text(sheets: nat, formulas: nat, qualified: nat, errors: nat, cyclic: bool) -> Seq<char> {
    "{\"ok\":true,\"sheetCount\":"@ + decimal(sheets) + ",\"formulaCount\":"@ + decimal(formulas)
        + ",\"qualifiedFormulaCount\":"@ + decimal(qualified) + ",\"formulaParseErrors\":"@
        + decimal(errors) + ",\"hasFormulaCycle\":"@ + (if cyclic {
        "true"@
    } else {
        "false"@
    }) + "}"@
}

/// The summary object of a workbook whose sheets were read.
pub open spec fn diagnosis_json(s: FormulaSheetsV) -> Seq<char> {
    summary_text(
        s.len(),
        count_sheets(s, any_formula()),
        count_sheets(s, qualified_formula()),
        count_sheets(s, unparsable_formula()),
        formulas_cyclic(s),
    )
}

proof fn lemma_count_cells_le(fs: Seq<((u32, u32), Seq<char>)>, p: spec_fn(Seq<char>) -> bool)
    ensures
        count_cells(fs, p) <= count_cells(fs, any_formula()),
        count_cells(fs, any_formula()) == fs.len(),
    decreases fs.len(),
{
    if fs.len() > 0 {
        lemma_count_cells_le(fs.drop_last(), p);
    }
}

proof fn lemma_count_sheets_prefix(s: FormulaSheetsV, k: int)
    requires
        0 <= k <= s.len(),
    ensures
        count_sheets(s.subrange(0, k), any_formula()) <= count_sheets(s, any_formula()),
    decreases s.len() - k,
{
    if k < s.len() {
        lemma_count_sheets_prefix(s, k + 1);
        let pre = s.subrange(0, k + 1);
        assert(pre.drop_last() =~= s.subrange(0, k));
    } else {
        assert(s.subrange(0, k) =~= s);
    }
}

fn cells_for_calculation(fs: &Vec<((u32, u32), String)>) -> (r: Vec<((u32, u32), Option<String>)>)
    ensures
        crate::formula::cycle::cells_view(r@) == formula_cells_view(fs@).map_values(
            |c: ((u32, u32), Seq<char>)| (c.0, Some(seq!['='] + c.1)),
        ),
{
    let ghost target = formula_cells_view(fs@).map_values(
        |c: ((u32, u32), Seq<char>)| (c.0, Some(seq!['='] + c.1)),
    );
    let mut out: Vec<((u32, u32), Option<String>)> = Vec::new();
    let mut i: usize = 0;
    while i < fs.len()
        invariant
            0 <= i <= fs@.len(),
            target == formula_cells_view(fs@).map_values(
                |c: ((u32, u32), Seq<char>)| (c.0, Some(seq!['='] + c.1)),
            ),
            crate::formula::cycle::cells_view(out@) == target.subrange(0, i as int),
        decreases fs@.len() - i,
    {
        let mut f: Vec<char> = Vec::new();
        f.push('=');
        let body = string_chars(&fs[i].1);
        push_all(&mut f, &body);
        let ghost before = crate::formula::cycle::cells_view(out@);
        out.push((fs[i].0, Some(string_from_chars(&f))));
        proof {
            assert(f@ =~= seq!['='] + fs@[i as int].1@);
            assert(crate::formula::cycle::cells_view(out@) =~= before.push(target[i as int]));
            assert(target.subrange(0, i + 1) =~= target.subrange(0, i as int).push(target[i as int]));
        }
        i = i + 1;
    }
    proof {
        assert(target.subrange(0, target.len() as int) =~= target);
    }
    out
}

/// The qualified and unparsable formula counts of one sheet.
fn count_sheet_formulas(cells: &Vec<((u32, u32), String)>) -> (r: (u64, u64))
    ensures
        r.0 == count_cells(formula_cells_view(cells@), qualified_formula()),
        r.1 == count_cells(formula_cells_view(cells@), unparsable_formula()),
{
    let ghost cv = formula_cells_view(cells@);
    let mut qualified: u64 = 0;
    let mut errors: u64 = 0;
    let mut c: usize = 0;
    proof {
        assert(cv.subrange(0, 0) =~= Seq::<((u32, u32), Seq<char>)>::empty());
    }
    while c < cells.len()
        invariant
            0 <= c <= cells@.len(),
            cv == formula_cells_view(cells@),
            cv.len() == cells@.len(),
            qualified == count_cells(cv.subrange(0, c as int), qualified_formula()),
            errors == count_cells(cv.subrange(0, c as int), unparsable_formula()),
        decreases cells@.len() - c,
    {
        let ghost pre = cv.subrange(0, c + 1);
        proof {
            assert(pre.drop_last() =~= cv.subrange(0, c as int));
            assert(pre.last() == cv[c as int]);
            lemma_count_cells_le(cv.subrange(0, c as int), qualified_formula());
            lemma_count_cells_le(cv.subrange(0, c as int), unparsable_formula());
        }
        match parse(cells[c].1.as_str()) {
            Ok(expr) => {
                if contains_qualified_reference(&expr) {
                    qualified = qualified + 1;
                }
            },
            Err(_) => {
                errors = errors + 1;
            },
        }
        c = c + 1;
    }
    proof {
        assert(cv.subrange(0, cv.len() as int) =~= cv);
    }
    (qualified, errors)
}

fn summary_chars(sheets: u64, formulas: u64, qualified: u64, errors: u64, cyclic: bool) -> (r: Vec<char>)
    ensures
        r@ == summary_text(sheets as nat, formulas as nat, qualified as nat, errors as nat, cyclic),
{
    let mut out: Vec<char> = Vec::new();
    push_str_chars(&mut out, "{\"ok\":true,\"sheetCount\":");
    let n = fmt_u64(sheets);
    push_all(&mut out, &n);
    push_str_chars(&mut out, ",\"formulaCount\":");
    let n = fmt_u64(formulas);
    push_all(&mut out, &n);
    push_str_chars(&mut out, ",\"qualifiedFormulaCount\":");
    let n = fmt_u64(qualified);
    push_all(&mut out, &n);
    push_str_chars(&mut out, ",\"formulaParseErrors\":");
    let n = fmt_u64(errors);
    push_all(&mut out, &n);
    push_str_chars(&mut out, ",\"hasFormulaCycle\":");
    if cyclic {
        push_str_chars(&mut out, "true");
    } else {
        push_str_chars(&mut out, "false");
    }
    push_str_chars(&mut out, "}");
    out
}

/// The summary JSON of a workbook given each sheet's name and formulas
/// (`((row, col), text)` without the leading `=`): sheet and formula counts,
/// how many formulas parse and read another sheet by name, how many fail to
/// parse, and whether the formulas form a dependency cycle.
pub fn diagnose_formulas(sheets: &Vec<(String, Vec<((u32, u32), String)>)>) -> (r: String)
    requires
        count_sheets(formula_sheets_view(sheets@), any_formula()) <= u64::MAX,
    ensures
        r@ == diagnosis_json(formula_sheets_view(sheets@)),
{
    let ghost sv = formula_sheets_view(sheets@);
    let mut formula_count: u64 = 0;
    let mut qualified: u64 = 0;
    let mut errors: u64 = 0;
    let mut calc: Vec<(String, Vec<((u32, u32), Option<String>)>)> = Vec::new();
    let mut s: usize = 0;
    proof {
        assert(sheets_view(calc@) =~= calculation_sheets(sv).subrange(0, 0));
    }
    while s < sheets.len()
        invariant
            0 <= s <= sheets@.len(),
            sv == formula_sheets_view(sheets@),
            sv.len() == sheets@.len(),
            count_sheets(sv, any_formula()) <= u64::MAX,
            formula_count == count_sheets(sv.subrange(0, s as int), any_formula()),
            qualified == count_sheets(sv.subrange(0, s as int), qualified_formula()),
            errors == count_sheets(sv.subrange(0, s as int), unparsable_formula()),
            qualified <= formula_count,
            errors <= formula_count,
            sheets_view(calc@) == calculation_sheets(sv).subrange(0, s as int),
        decreases sheets@.len() - s,
    {
        let cells = &sheets[s].1;
        let ghost cv = formula_cells_view(cells@);
        proof {
            assert(sv[s as int] == (sheets@[s as int].0@, cv));
            lemma_count_sheets_prefix(sv, s + 1);
            let pre = sv.subrange(0, s + 1);
            assert(pre.drop_last() =~= sv.subrange(0, s as int));
            assert(pre.last() == sv[s as int]);
            lemma_count_cells_le(cv, qualified_formula());
            lemma_count_cells_le(cv, unparsable_formula());
        }
        let (q, e) = count_sheet_formulas(cells);
        formula_count = formula_count + cells.len() as u64;
        qualified = qualified + q;
        errors = errors + e;
        let name = string_chars(&sheets[s].0);
        let key = chars_ascii_lower(&name);
        let calc_cells = cells_for_calculation(cells);
        let ghost before = sheets_view(calc@);
        calc.push((string_from_chars(&key), calc_cells));
        proof {
            let target = calculation_sheets(sv);
            assert(target[s as int] == (seq_ascii_lower(sv[s as int].0), sv[s as int].1.map_values(
                |c: ((u32, u32), Seq<char>)| (c.0, Some(seq!['='] + c.1)),
            )));
            assert(sheets_view(calc@) =~= before.push(target[s as int]));
            assert(target.subrange(0, s + 1) =~= target.subrange(0, s as int).push(target[s as int]));
        }
        s = s + 1;
    }
    proof {
        assert(sv.subrange(0, sv.len() as int) =~= sv);
        assert(calculation_sheets(sv).subrange(0, sv.len() as int) =~= calculation_sheets(sv));
    }
    let cyclic = workbook_has_formula_cycle(&calc);
    let out = summary_chars(sheets.len() as u64, formula_count, qualified, errors, cyclic);
    string_from_chars(&out)
}

/// The summary JSON of a workbook that could not be read.
pub fn diagnosis_error_json(error: &str) -> (r: String)
    ensures
        r@ == "{\"ok\":false,\"error\":"@ + crate::diagnostics::json_quoted(error@) + "}"@,
{
    let mut out: Vec<char> = Vec::new();
    push_str_chars(&mut out, "{\"ok\":false,\"error\":");
    let quoted = json_string(error);
    let q = string_chars(&quoted);
    push_all(&mut out, &q);
    push_str_chars(&mut out, "}");
    string_from_chars(&out)
}

} // verus!
