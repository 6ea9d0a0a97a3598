//! Whether a workbook's formula dependency graph is cyclic: a diagnostic
//! signal computed by Kahn's algorithm over the formulas that parse.

use vstd::prelude::*;
use crate::text::{chars_ascii_lower, chars_eq, seq_ascii_lower, string_chars};
use super::ast::{lemma_view_exprs_index, lemma_view_exprs_len, view_expr, view_exprs, ExprV, FormulaExpr, QualV};
use super::grammar::spec_parse_with_refs;
use super::parser::parse;

verus! {

// ── Dependencies of one formula ──────────────────────────────────────────

/// What a formula reads: one cell, or a rectangle (corners normalized to
/// min/max), on a sheet named by its lowercased key.
pub enum DepV {
    Cell { sheet: Seq<char>, row: u32, col: u32 },
    Range { sheet: Seq<char>, r1: u32, c1: u32, r2: u32, c2: u32 },
}

/// The sheet key a reference reads from: its qualifier's name, else the
/// host sheet, ASCII-lowercased.
pub open spec fn target_key(host: Seq<char>, sheet: Option<QualV>) -> Seq<char> {
    match sheet {
        Some(q) => seq_ascii_lower(q.normalized_name),
        None => seq_ascii_lower(host),
    }
}

pub open spec fn min_u32(a: u32, b: u32) -> u32 {
    if a <= b {
        a
    } else {
        b
    }
}

pub open spec fn max_u32(a: u32, b: u32) -> u32 {
    if a >= b {
        a
    } else {
        b
    }
}

/// The references of an expression, left to right.
pub open spec fn expr_deps(e: ExprV, host: Seq<char>) -> Seq<DepV>
    decreases e,
{
    match e {
        ExprV::CellRef { col, row, sheet, .. } => seq![DepV::Cell { sheet: target_key(host, sheet), row, col }],
        ExprV::Range { c1, r1, c2, r2, sheet, .. } => seq![
            DepV::Range {
                sheet: target_key(host, sheet),
                r1: min_u32(r1, r2),
                c1: min_u32(c1, c2),
                r2: max_u32(r1, r2),
                c2: max_u32(c1, c2),
            },
        ],
        ExprV::BinOp { lhs, rhs, .. } => expr_deps(*lhs, host) + expr_deps(*rhs, host),
        ExprV::UnaryMinus(inner) => expr_deps(*inner, host),
        ExprV::FuncCall { args, .. } => args_deps(args, host),
        _ => Seq::empty(),
    }
}

pub open spec fn args_deps(args: Seq<ExprV>, host: Seq<char>) -> Seq<DepV>
    decreases args,
{
    if args.len() == 0 {
        Seq::empty()
    } else {
        args_deps(args.subrange(0, args.len() - 1), host) + expr_deps(args[args.len() - 1], host)
    }
}

/// `sub` occurs in the expression tree of `e` (`e` itself, or within an
/// operand or an argument).
pub open spec fn occurs_in(sub: ExprV, e: ExprV) -> bool
    decreases e,
{
    sub == e || match e {
        ExprV::BinOp { lhs, rhs, .. } => occurs_in(sub, *lhs) || occurs_in(sub, *rhs),
        ExprV::UnaryMinus(inner) => occurs_in(sub, *inner),
        ExprV::FuncCall { args, .. } => exists|k: int| 0 <= k < args.len() && occurs_in(sub, #[trigger] args[k]),
        _ => false,
    }
}

/// The sheet a reference reads: the sheet its qualifier names, else the
/// host sheet, ASCII-lowercased either way.
pub open spec fn sheet_read(host: Seq<char>, sheet: Option<QualV>) -> Seq<char> {
    seq_ascii_lower(
        match sheet {
            Some(q) => q.normalized_name,
            None => host,
        },
    )
}

/// What a single cell or range reference reads, on host sheet `host`: the
/// sheet it names (else the host), lowercased, and its cell, or its
/// rectangle with the corners put in order.
pub open spec fn reference_read(r: ExprV, host: Seq<char>) -> Option<DepV> {
    match r {
        ExprV::CellRef { col, row, sheet, .. } => Some(DepV::Cell { sheet: sheet_read(host, sheet), row, col }),
        ExprV::Range { c1, r1, c2, r2, sheet, .. } => Some(
            DepV::Range {
                sheet: sheet_read(host, sheet),
                r1: if r1 <= r2 { r1 } else { r2 },
                c1: if c1 <= c2 { c1 } else { c2 },
                r2: if r1 <= r2 { r2 } else { r1 },
                c2: if c1 <= c2 { c2 } else { c1 },
            },
        ),
        _ => None,
    }
}

proof fn lemma_args_deps_hold(args: Seq<ExprV>, host: Seq<char>, k: int, d: DepV)
    requires
        0 <= k < args.len(),
        expr_deps(args[k], host).contains(d),
    ensures
        args_deps(args, host).contains(d),
    decreases args.len(),
{
    let init = args.subrange(0, args.len() - 1);
    let a = args_deps(init, host);
    let b = expr_deps(args[args.len() - 1], host);
    if k == args.len() - 1 {
        let i = choose|i: int| 0 <= i < b.len() && b[i] == d;
        assert((a + b)[a.len() + i] == d);
    } else {
        assert(init[k] == args[k]);
        lemma_args_deps_hold(init, host, k, d);
        let i = choose|i: int| 0 <= i < a.len() && a[i] == d;
        assert((a + b)[i] == d);
    }
}

/// Every cell or range reference anywhere in a formula's expression tree
/// is among the formula's dependencies, whatever operators and function
/// calls surround it.
pub proof fn law_every_reference_is_a_dependency(e: ExprV, sub: ExprV, host: Seq<char>)
    requires
        occurs_in(sub, e),
        reference_read(sub, host) is Some,
    ensures
        expr_deps(e, host).contains(reference_read(sub, host).unwrap()),
    decreases e,
{
    let d = reference_read(sub, host).unwrap();
    if sub == e {
        assert(expr_deps(e, host)[0] == d);
    } else {
        match e {
            ExprV::BinOp { lhs, rhs, .. } => {
                let a = expr_deps(*lhs, host);
                let b = expr_deps(*rhs, host);
                if occurs_in(sub, *lhs) {
                    law_every_reference_is_a_dependency(*lhs, sub, host);
                    let i = choose|i: int| 0 <= i < a.len() && a[i] == d;
                    assert((a + b)[i] == d);
                } else {
                    law_every_reference_is_a_dependency(*rhs, sub, host);
                    let i = choose|i: int| 0 <= i < b.len() && b[i] == d;
                    assert((a + b)[a.len() + i] == d);
                }
            },
            ExprV::UnaryMinus(inner) => {
                law_every_reference_is_a_dependency(*inner, sub, host);
            },
            ExprV::FuncCall { args, .. } => {
                let k = choose|k: int| 0 <= k < args.len() && occurs_in(sub, #[trigger] args[k]);
                law_every_reference_is_a_dependency(args[k], sub, host);
                lemma_args_deps_hold(args, host, k, d);
            },
            _ => {},
        }
    }
}

/// Negating an expression reads exactly what the expression reads.
pub proof fn law_negation_reads_the_same(e: ExprV, host: Seq<char>)
    ensures
        expr_deps(ExprV::UnaryMinus(Box::new(e)), host) == expr_deps(e, host),
{
}

/// One reference read by a formula, as found while walking it.
pub enum Dep {
    Cell { sheet: Vec<char>, row: u32, col: u32 },
    Range { sheet: Vec<char>, r1: u32, c1: u32, r2: u32, c2: u32 },
}

impl Dep {
    pub open spec fn view(&self) -> DepV {
        match self {
            Dep::Cell { sheet, row, col } => DepV::Cell { sheet: sheet@, row: *row, col: *col },
            Dep::Range { sheet, r1, c1, r2, c2 } => DepV::Range {
                sheet: sheet@,
                r1: *r1,
                c1: *c1,
                r2: *r2,
                c2: *c2,
            },
        }
    }
}

pub open spec fn deps_view(ds: Seq<Dep>) -> Seq<DepV> {
    ds.map_values(|d: Dep| d.view())
}

pub(crate) fn target_key_exec(host: &Vec<char>, sheet: &Option<super::ast::SheetQualifier>) -> (r: Vec<char>)
    ensures
        r@ == target_key(host@, super::ast::view_qual(*sheet)),
{
    match sheet {
        Some(q) => chars_ascii_lower(&string_chars(&q.normalized_name)),
        None => chars_ascii_lower(host),
    }
}

fn push_dep(out: &mut Vec<Dep>, d: Dep)
    ensures
        deps_view(final(out)@) == deps_view(old(out)@).push(d.view()),
{
    let ghost dv = d.view();
    out.push(d);
    proof {
        assert(deps_view(out@) =~= deps_view(old(out)@).push(dv));
    }
}

/// Appends the references of `e`.
pub(crate) fn collect_deps(e: &FormulaExpr, host: &Vec<char>, out: &mut Vec<Dep>)
    ensures
        deps_view(final(out)@) == deps_view(old(out)@) + expr_deps(view_expr(*e), host@),
    decreases *e,
{
    let ghost before = deps_view(out@);
    match e {
        FormulaExpr::CellRef { col, row, sheet, .. } => {
            let key = target_key_exec(host, sheet);
            push_dep(out, Dep::Cell { sheet: key, row: *row, col: *col });
            proof {
                assert(deps_view(out@) =~= before + expr_deps(view_expr(*e), host@));
            }
        },
        FormulaExpr::Range { c1, r1, c2, r2, sheet, .. } => {
            let key = target_key_exec(host, sheet);
            let d = Dep::Range {
                sheet: key,
                r1: if *r1 <= *r2 {
                    *r1
                } else {
                    *r2
                },
                c1: if *c1 <= *c2 {
                    *c1
                } else {
                    *c2
                },
                r2: if *r1 >= *r2 {
                    *r1
                } else {
                    *r2
                },
                c2: if *c1 >= *c2 {
                    *c1
                } else {
                    *c2
                },
            };
            push_dep(out, d);
            proof {
                assert(deps_view(out@) =~= before + expr_deps(view_expr(*e), host@));
            }
        },
        FormulaExpr::BinOp { lhs, rhs, .. } => {
            collect_deps(lhs, host, out);
            collect_deps(rhs, host, out);
            proof {
                assert(deps_view(out@) =~= before + expr_deps(view_expr(*e), host@));
            }
        },
        FormulaExpr::UnaryMinus(inner) => {
            collect_deps(inner, host, out);
        },
        FormulaExpr::FuncCall { args, .. } => {
            let ghost va = view_exprs(args@);
            proof {
                lemma_view_exprs_len(args@);
                assert(va.subrange(0, 0) =~= Seq::<ExprV>::empty());
                assert(deps_view(out@) =~= before + args_deps(va.subrange(0, 0), host@));
            }
            let mut i: usize = 0;
            #[verifier::loop_isolation(false)]
            while i < args.len()
                invariant
                    0 <= i <= args@.len(),
                    va == view_exprs(args@),
                    va.len() == args@.len(),
                    deps_view(out@) == before + args_deps(va.subrange(0, i as int), host@),
                decreases args@.len() - i,
            {
                proof {
                    lemma_view_exprs_index(args@, i as int);
                    let pre = va.subrange(0, i + 1);
                    assert(pre.subrange(0, pre.len() - 1) =~= va.subrange(0, i as int));
                    assert(pre[pre.len() - 1] == view_expr(args@[i as int]));
                    assert(decreases_to!(*e => *args));
                    assert(decreases_to!(*args => args@));
                    assert(decreases_to!(args@ => args@[i as int]));
                }
                collect_deps(&args[i], host, out);
                proof {
                    let pre = va.subrange(0, i + 1);
                    assert(deps_view(out@) =~= before + args_deps(pre, host@));
                }
                i = i + 1;
            }
            proof {
                assert(va.subrange(0, va.len() as int) =~= va);
            }
        },
        _ => {
            proof {
                assert(deps_view(out@) =~= before + expr_deps(view_expr(*e), host@));
            }
        },
    }
}

// ── Formula nodes ────────────────────────────────────────────────────────

/// A formula cell that parses: its sheet key, position, and what it reads.
pub struct NodeV {
    pub key: Seq<char>,
    pub row: u32,
    pub col: u32,
    pub deps: Seq<DepV>,
}

/// The cells of a sheet: `((row, col), formula text if any)`.
pub type CellsV = Seq<((u32, u32), Option<Seq<char>>)>;

/// The nodes of one sheet, in cell order: each cell whose formula parses.
pub open spec fn sheet_nodes(name: Seq<char>, cells: CellsV) -> Seq<NodeV>
    decreases cells.len(),
{
    if cells.len() == 0 {
        Seq::empty()
    } else {
        let prev = sheet_nodes(name, cells.drop_last());
        let ((row, col), formula) = cells.last();
        match formula {
            Some(src) => match spec_parse_with_refs(src) {
                Ok((e, _)) => prev.push(
                    NodeV {
                        key: seq_ascii_lower(name),
                        row,
                        col,
                        deps: expr_deps(e, seq_ascii_lower(name)),
                    },
                ),
                Err(_) => prev,
            },
            None => prev,
        }
    }
}

/// The nodes of every sheet, in sheet order.
pub open spec fn all_nodes(sheets: Seq<(Seq<char>, CellsV)>) -> Seq<NodeV>
    decreases sheets.len(),
{
    if sheets.len() == 0 {
        Seq::empty()
    } else {
        all_nodes(sheets.drop_last()) + sheet_nodes(sheets.last().0, sheets.last().1)
    }
}

pub open spec fn cells_view(cells: Seq<((u32, u32), Option<String>)>) -> CellsV {
    cells.map_values(
        |c: ((u32, u32), Option<String>)|
            (
                c.0,
                match c.1 {
                    Some(s) => Some(s@),
                    None => None::<Seq<char>>,
                },
            ),
    )
}

pub open spec fn sheets_view(sheets: Seq<(String, Vec<((u32, u32), Option<String>)>)>) -> Seq<(Seq<char>, CellsV)> {
    sheets.map_values(|s: (String, Vec<((u32, u32), Option<String>)>)| (s.0@, cells_view(s.1@)))
}

/// A reference reads node `m`: the same sheet key and either the same cell
/// or a rectangle containing it.
pub open spec fn dep_hits(d: DepV, m: NodeV) -> bool {
    match d {
        DepV::Cell { sheet, row, col } => sheet == m.key && row == m.row && col == m.col,
        DepV::Range { sheet, r1, c1, r2, c2 } => sheet == m.key && r1 <= m.row && m.row <= r2 && c1
            <= m.col && m.col <= c2,
    }
}

/// Formula `a` reads formula `b`.
pub open spec fn depends_on(a: NodeV, b: NodeV) -> bool {
    exists|k: int| 0 <= k < a.deps.len() && #[trigger] dep_hits(a.deps[k], b)
}

pub open spec fn node_graph(nodes: Seq<NodeV>) -> spec_fn(int, int) -> bool {
    |i: int, j: int| depends_on(nodes[i], nodes[j])
}

// ── Cycles ───────────────────────────────────────────────────────────────

/// `s` is a set of nodes below `n` each of which depends on a node of `s`.
pub open spec fn closed_under_deps(dep: spec_fn(int, int) -> bool, n: int, s: Set<int>) -> bool {
    &&& forall|i: int| #[trigger] s.contains(i) ==> 0 <= i < n
    &&& forall|i: int| #[trigger] s.contains(i) ==> exists|j: int| s.contains(j) && dep(i, j)
}

/// The graph on nodes `0..n` has a cycle: some non-empty set of nodes each
/// depends on a node of the set (for a finite graph, the same as a cycle).
pub open spec fn has_cycle(dep: spec_fn(int, int) -> bool, n: int) -> bool {
    exists|s: Set<int>, i: int| s.contains(i) && closed_under_deps(dep, n, s)
}

/// The nodes `j < m` that `i` depends on and that are not yet `done`.
pub open spec fn pending(dep: spec_fn(int, int) -> bool, i: int, done: Seq<bool>, m: int) -> nat
    decreases m,
{
    if m <= 0 {
        0
    } else {
        pending(dep, i, done, m - 1) + if dep(i, m - 1) && !done[m - 1] {
            1nat
        } else {
            0nat
        }
    }
}

/// The nodes `i < m` that depend on `j`, ascending.
pub open spec fn dependents_of(dep: spec_fn(int, int) -> bool, j: int, m: int) -> Seq<int>
    decreases m,
{
    if m <= 0 {
        Seq::empty()
    } else {
        dependents_of(dep, j, m - 1) + if dep(m - 1, j) {
            seq![m - 1]
        } else {
            Seq::empty()
        }
    }
}

proof fn lemma_pending_zero(dep: spec_fn(int, int) -> bool, i: int, done: Seq<bool>, m: int)
    requires
        0 <= m <= done.len(),
    ensures
        pending(dep, i, done, m) == 0 <==> forall|j: int| 0 <= j < m && #[trigger] dep(i, j) ==> done[j],
    decreases m,
{
    if m > 0 {
        lemma_pending_zero(dep, i, done, m - 1);
    }
}

proof fn lemma_pending_done(dep: spec_fn(int, int) -> bool, i: int, done: Seq<bool>, k: int, m: int)
    requires
        0 <= k < done.len(),
        0 <= m <= done.len(),
        !done[k],
    ensures
        pending(dep, i, done.update(k, true), m) + (if dep(i, k) && k < m {
            1nat
        } else {
            0nat
        }) == pending(dep, i, done, m),
    decreases m,
{
    if m > 0 {
        lemma_pending_done(dep, i, done, k, m - 1);
    }
}

proof fn lemma_dependents_of(dep: spec_fn(int, int) -> bool, j: int, m: int)
    requires
        0 <= m,
    ensures
        forall|a: int| 0 <= a < dependents_of(dep, j, m).len() ==> 0 <= #[trigger] dependents_of(dep, j, m)[a] < m
            && dep(dependents_of(dep, j, m)[a], j),
        forall|a: int, b: int|
            0 <= a < b < dependents_of(dep, j, m).len() ==> #[trigger] dependents_of(dep, j, m)[a]
                < #[trigger] dependents_of(dep, j, m)[b],
        forall|i: int| 0 <= i < m && #[trigger] dep(i, j) ==> dependents_of(dep, j, m).contains(i),
    decreases m,
{
    if m > 0 {
        lemma_dependents_of(dep, j, m - 1);
        let prev = dependents_of(dep, j, m - 1);
        let cur = dependents_of(dep, j, m);
        assert forall|i: int| 0 <= i < m && #[trigger] dep(i, j) implies cur.contains(i) by {
            if i < m - 1 {
                assert(prev.contains(i));
                let a = choose|a: int| 0 <= a < prev.len() && prev[a] == i;
                assert(cur[a] == prev[a]);
            } else {
                assert(cur[cur.len() - 1] == m - 1);
            }
        }
        assert forall|a: int| 0 <= a < cur.len() implies 0 <= #[trigger] cur[a] < m && dep(cur[a], j) by {
            if a < prev.len() {
                assert(cur[a] == prev[a]);
            }
        }
        assert forall|a: int, b: int| 0 <= a < b < cur.len() implies #[trigger] cur[a] < #[trigger] cur[b] by {
            if b < prev.len() {
                assert(cur[a] == prev[a]);
                assert(cur[b] == prev[b]);
            } else {
                assert(cur[b] == m - 1);
                assert(cur[a] == prev[a]);
            }
        }
    }
}

/// `c` occurs among the first `t` entries of `s`.
pub open spec fn in_prefix(s: Seq<int>, t: int, c: int) -> bool {
    exists|a: int| 0 <= a < t && #[trigger] s[a] == c
}

spec fn ints(q: Seq<usize>) -> Seq<int> {
    q.map_values(|x: usize| x as int)
}

/// Distinct values below `n` number at most `n`.
proof fn lemma_distinct_bound(q: Seq<usize>, n: int)
    requires
        0 <= n,
        forall|a: int| 0 <= a < q.len() ==> #[trigger] q[a] < n,
        forall|a: int, b: int| 0 <= a < b < q.len() ==> #[trigger] q[a] != #[trigger] q[b],
    ensures
        q.len() <= n,
{
    let qi = ints(q);
    assert forall|a: int, b: int| 0 <= a < qi.len() && 0 <= b < qi.len() && a != b implies qi[a] != qi[b] by {
        if a < b {
            assert(q[a] != q[b]);
        } else {
            assert(q[b] != q[a]);
        }
    }
    assert(qi.no_duplicates());
    qi.unique_seq_to_set();
    assert forall|x: int| qi.to_set().contains(x) implies vstd::set_lib::set_int_range(0, n).contains(x) by {
        let a = choose|a: int| 0 <= a < qi.len() && qi[a] == x;
        assert(q[a] < n);
    }
    vstd::set_lib::lemma_int_range(0, n);
    vstd::set_lib::lemma_len_subset(qi.to_set(), vstd::set_lib::set_int_range(0, n));
}

/// Along a queue in which every dependency of an entry comes earlier, no
/// entry belongs to a set closed under dependencies.
proof fn lemma_queue_avoids_closed(
    dep: spec_fn(int, int) -> bool,
    n: int,
    q: Seq<usize>,
    s: Set<int>,
    a: int,
)
    requires
        0 <= a < q.len(),
        closed_under_deps(dep, n, s),
        forall|x: int, j: int|
            0 <= x < q.len() && 0 <= j < n && #[trigger] dep(q[x] as int, j) ==> exists|b: int| 0 <= b < x && q[b] == j,
    ensures
        !s.contains(q[a] as int),
    decreases a,
{
    if s.contains(q[a] as int) {
        let j = choose|j: int| s.contains(j) && dep(q[a] as int, j);
        assert(0 <= j < n);
        let b = choose|b: int| 0 <= b < a && q[b] == j;
        lemma_queue_avoids_closed(dep, n, q, s, b);
    }
}

/// Node `k` lies on a cycle or depends, directly or not, on one: some set
/// of nodes closed under dependencies holds it.
pub open spec fn behind_cycle(dep: spec_fn(int, int) -> bool, n: int, k: int) -> bool {
    exists|s: Set<int>| #[trigger] s.contains(k) && closed_under_deps(dep, n, s)
}

/// Kahn's algorithm over nodes `0..n`: `indeg[i]` counts the nodes `i`
/// depends on and `dependents[j]` lists, ascending, the nodes that depend
/// on `j`. The nodes of in-degree 0 start the queue in ascending order; a
/// node taken from the queue releases its dependents in ascending order.
/// The result is the queue: each node at most once, every dependency of a
/// node before it, and exactly the nodes that are not behind a cycle.
fn kahn_order(
    n: usize,
    indeg: Vec<usize>,
    dependents: &Vec<Vec<usize>>,
    Ghost(dep): Ghost<spec_fn(int, int) -> bool>,
) -> (q: Vec<usize>)
    requires
        indeg@.len() == n,
        dependents@.len() == n,
        forall|i: int| 0 <= i < n ==> #[trigger] indeg@[i] == pending(dep, i, Seq::new(n as nat, |x: int| false), n as int),
        forall|j: int| 0 <= j < n ==> ints((#[trigger] dependents@[j])@) == dependents_of(dep, j, n as int),
    ensures
        forall|a: int| 0 <= a < q@.len() ==> #[trigger] q@[a] < n,
        forall|a: int, b: int| 0 <= a < b < q@.len() ==> #[trigger] q@[a] != #[trigger] q@[b],
        forall|a: int, j: int|
            0 <= a < q@.len() && 0 <= j < n && #[trigger] dep(q@[a] as int, j) ==> exists|b: int| 0 <= b < a && q@[b] == j,
        forall|k: int| 0 <= k < n ==> ((exists|a: int| 0 <= a < q@.len() && q@[a] == k) <==> !#[trigger] behind_cycle(dep, n as int, k)),
{
    let mut indeg = indeg;
    let mut queued: Vec<bool> = Vec::new();
    let mut queue: Vec<usize> = Vec::new();
    let ghost mut done: Seq<bool> = Seq::new(n as nat, |x: int| false);
    let mut i: usize = 0;
    while i < n
        invariant
            0 <= i <= n,
            queued@.len() == i,
            indeg@.len() == n,
            done == Seq::new(n as nat, |x: int| false),
            forall|k: int| 0 <= k < n ==> #[trigger] indeg@[k] == pending(dep, k, done, n as int),
            forall|a: int| 0 <= a < queue@.len() ==> #[trigger] queue@[a] < i,
            forall|a: int, b: int| 0 <= a < b < queue@.len() ==> #[trigger] queue@[a] != #[trigger] queue@[b],
            forall|k: int| 0 <= k < i ==> (#[trigger] queued@[k] <==> exists|a: int| 0 <= a < queue@.len() && queue@[a] == k),
            forall|k: int| 0 <= k < i ==> (queued@[k] <==> #[trigger] indeg@[k] == 0),
        decreases n - i,
    {
        let ghost before = queue@;
        if indeg[i] == 0 {
            queue.push(i);
            queued.push(true);
        } else {
            queued.push(false);
        }
        proof {
            assert forall|k: int| 0 <= k < i + 1 implies (#[trigger] queued@[k] <==> exists|a: int| 0 <= a < queue@.len() && queue@[a] == k) by {
                if k < i {
                    if queued@[k] {
                        let a = choose|a: int| 0 <= a < before.len() && before[a] == k;
                        assert(queue@[a] == k);
                    }
                    if exists|a: int| 0 <= a < queue@.len() && queue@[a] == k {
                        let a = choose|a: int| 0 <= a < queue@.len() && queue@[a] == k;
                        if a < before.len() {
                            assert(before[a] == k);
                        } else {
                            assert(queue@[a] == i);
                        }
                    }
                } else {
                    if queued@[k] {
                        assert(queue@[queue@.len() - 1] == i);
                    }
                    if exists|a: int| 0 <= a < queue@.len() && queue@[a] == k {
                        let a = choose|a: int| 0 <= a < queue@.len() && queue@[a] == k;
                        if a < before.len() {
                            assert(before[a] < i);
                        }
                    }
                }
            }
        }
        i = i + 1;
    }
    let mut head: usize = 0;
    proof {
        assert forall|a: int, j: int| 0 <= a < queue@.len() && 0 <= j < n && #[trigger] dep(queue@[a] as int, j) implies exists|b: int| 0 <= b < a && b < head && queue@[b] == j by {
            lemma_pending_zero(dep, queue@[a] as int, done, n as int);
            assert(queued@[queue@[a] as int]);
            assert(indeg@[queue@[a] as int] == 0);
        }
        assert forall|k: int| 0 <= k < n && !(#[trigger] queued@[k]) implies indeg@[k] == pending(dep, k, done, n as int) && indeg@[k] > 0 by {
            assert(indeg@[k] == pending(dep, k, done, n as int));
        }
    }
    while head < queue.len()
        invariant
            head <= queue@.len(),
            queued@.len() == n,
            indeg@.len() == n,
            done.len() == n,
            dependents@.len() == n,
            forall|j: int| 0 <= j < n ==> ints((#[trigger] dependents@[j])@) == dependents_of(dep, j, n as int),
            forall|a: int| 0 <= a < queue@.len() ==> #[trigger] queue@[a] < n,
            forall|a: int, b: int| 0 <= a < b < queue@.len() ==> #[trigger] queue@[a] != #[trigger] queue@[b],
            forall|k: int| 0 <= k < n ==> (#[trigger] queued@[k] <==> exists|a: int| 0 <= a < queue@.len() && queue@[a] == k),
            forall|k: int| 0 <= k < n ==> (#[trigger] done[k] <==> exists|a: int| 0 <= a < head && queue@[a] == k),
            forall|k: int| 0 <= k < n && !(#[trigger] queued@[k]) ==> indeg@[k] == pending(dep, k, done, n as int) && indeg@[k] > 0,
            forall|a: int, j: int|
                0 <= a < queue@.len() && 0 <= j < n && #[trigger] dep(queue@[a] as int, j) ==> exists|b: int| 0 <= b < a && b < head && queue@[b] == j,
        decreases n - head,
    {
        proof {
            lemma_distinct_bound(queue@, n as int);
        }
        let k = queue[head];
        let ghost old_done = done;
        let ghost old_head = head as int;
        proof {
            assert(!done[k as int]) by {
                if done[k as int] {
                    let a = choose|a: int| 0 <= a < head && queue@[a] == k;
                    assert(queue@[a] != queue@[head as int]);
                }
            }
            done = done.update(k as int, true);
        }
        head = head + 1;
        let deps_k = &dependents[k];
        let ghost dk = dependents_of(dep, k as int, n as int);
        proof {
            lemma_dependents_of(dep, k as int, n as int);
            assert(ints(deps_k@) == dk);
            assert forall|c: int| 0 <= c < n && !(#[trigger] queued@[c]) implies indeg@[c] == pending(dep, c, done, n as int) + (if dep(c, k as int) && !in_prefix(dk, 0, c) {
                1nat
            } else {
                0nat
            }) by {
                lemma_pending_done(dep, c, old_done, k as int, n as int);
            }
            assert forall|a: int| 0 <= a < dk.len() implies !queued@[#[trigger] dk[a]] by {
                let c = dk[a];
                if queued@[c] {
                    let x = choose|x: int| 0 <= x < queue@.len() && queue@[x] == c;
                    assert(dep(queue@[x] as int, k as int));
                    let b = choose|b: int| 0 <= b < x && b < old_head && queue@[b] == k;
                    assert(queue@[b] != queue@[old_head]);
                }
            }
        }
        let mut t: usize = 0;
        while t < deps_k.len()
            invariant
                0 <= t <= deps_k@.len(),
                ints(deps_k@) == dk,
                dk == dependents_of(dep, k as int, n as int),
                forall|a: int| 0 <= a < dk.len() ==> 0 <= #[trigger] dk[a] < n && dep(dk[a], k as int),
                forall|a: int, b: int| 0 <= a < b < dk.len() ==> #[trigger] dk[a] < #[trigger] dk[b],
                forall|c: int| 0 <= c < n && dep(c, k as int) ==> dk.contains(c),
                1 <= head <= queue@.len(),
                k < n,
                done == old_done.update(k as int, true),
                queued@.len() == n,
                indeg@.len() == n,
                done.len() == n,
                dependents@.len() == n,
                forall|j: int| 0 <= j < n ==> ints((#[trigger] dependents@[j])@) == dependents_of(dep, j, n as int),
                forall|a: int| 0 <= a < queue@.len() ==> #[trigger] queue@[a] < n,
                forall|a: int, b: int| 0 <= a < b < queue@.len() ==> #[trigger] queue@[a] != #[trigger] queue@[b],
                forall|c: int| 0 <= c < n ==> (#[trigger] queued@[c] <==> exists|a: int| 0 <= a < queue@.len() && queue@[a] == c),
                forall|c: int| 0 <= c < n ==> (#[trigger] done[c] <==> exists|a: int| 0 <= a < head && queue@[a] == c),
                forall|c: int| 0 <= c < n && !(#[trigger] queued@[c]) ==> indeg@[c] == pending(dep, c, done, n as int) + (if dep(c, k as int) && !in_prefix(dk, t as int, c) {
                    1nat
                } else {
                    0nat
                }) && indeg@[c] > 0,
                forall|a: int| t <= a < dk.len() ==> !queued@[#[trigger] dk[a]],
                forall|a: int, j: int|
                    0 <= a < queue@.len() && 0 <= j < n && #[trigger] dep(queue@[a] as int, j) ==> exists|b: int| 0 <= b < a && b < head && queue@[b] == j,
            decreases deps_k@.len() - t,
        {
            let c = deps_k[t];
            proof {
                assert(dk[t as int] == c as int);
                assert(!queued@[c as int]);
                assert(!in_prefix(dk, t as int, c as int)) by {
                    if in_prefix(dk, t as int, c as int) {
                        let a = choose|a: int| 0 <= a < t && dk[a] == c;
                        assert(dk[a] < dk[t as int]);
                    }
                }
                assert forall|c2: int| c2 != c implies (in_prefix(dk, t + 1, c2) == in_prefix(dk, t as int, c2)) by {
                    if in_prefix(dk, t + 1, c2) {
                        let a = choose|a: int| 0 <= a < t + 1 && dk[a] == c2;
                        assert(a != t);
                    }
                }
                assert(in_prefix(dk, t + 1, c as int)) by {
                    assert(dk[t as int] == c);
                }
            }
            let ghost qb = queue@;
            let ghost qdb = queued@;
            indeg.set(c, indeg[c] - 1);
            if indeg[c] == 0 {
                proof {
                    lemma_pending_zero(dep, c as int, done, n as int);
                }
                queue.push(c);
                queued.set(c, true);
                proof {
                    let a = queue@.len() - 1;
                    assert(queue@[a] == c);
                    assert forall|j: int| 0 <= j < n && #[trigger] dep(queue@[a] as int, j) implies exists|b: int| 0 <= b < a && b < head && queue@[b] == j by {
                        assert(done[j]);
                        let b = choose|b: int| 0 <= b < head && qb[b] == j;
                        assert(queue@[b] == j);
                    }
                }
            }
            proof {
                assert forall|x: int, y: int| 0 <= x < y < queue@.len() implies #[trigger] queue@[x] != #[trigger] queue@[y] by {
                    if y == qb.len() {
                        if queue@[x] == c {
                            assert(qb[x] == c);
                            assert(qdb[c as int]);
                        }
                    }
                }
                assert forall|c2: int| 0 <= c2 < n implies (#[trigger] queued@[c2] <==> exists|a: int| 0 <= a < queue@.len() && queue@[a] == c2) by {
                    if c2 != c {
                        if qdb[c2] {
                            let a = choose|a: int| 0 <= a < qb.len() && qb[a] == c2;
                            assert(queue@[a] == c2);
                        }
                        if exists|a: int| 0 <= a < queue@.len() && queue@[a] == c2 {
                            let a = choose|a: int| 0 <= a < queue@.len() && queue@[a] == c2;
                            if a < qb.len() {
                                assert(qb[a] == c2);
                            }
                        }
                    } else if queued@[c2] {
                        assert(queue@[queue@.len() - 1] == c);
                    } else {
                        if exists|a: int| 0 <= a < queue@.len() && queue@[a] == c2 {
                            let a = choose|a: int| 0 <= a < queue@.len() && queue@[a] == c2;
                            assert(a < qb.len());
                            assert(qb[a] == c2);
                        }
                    }
                }
                assert forall|c2: int| 0 <= c2 < n implies (#[trigger] done[c2] <==> exists|a: int| 0 <= a < head && queue@[a] == c2) by {
                    if exists|a: int| 0 <= a < head && qb[a] == c2 {
                        let a = choose|a: int| 0 <= a < head && qb[a] == c2;
                        assert(queue@[a] == c2);
                    }
                    if exists|a: int| 0 <= a < head && queue@[a] == c2 {
                        let a = choose|a: int| 0 <= a < head && queue@[a] == c2;
                        assert(qb[a] == c2);
                    }
                }
                assert forall|a: int, j: int|
                    0 <= a < queue@.len() && 0 <= j < n && #[trigger] dep(queue@[a] as int, j) implies exists|b: int| 0 <= b < a && b < head && queue@[b] == j by {
                    if a < qb.len() {
                        assert(queue@[a] == qb[a]);
                        let b = choose|b: int| 0 <= b < a && b < head && qb[b] == j;
                        assert(queue@[b] == j);
                    }
                }
            }
            t = t + 1;
        }
        proof {
            assert forall|c: int| 0 <= c < n && dep(c, k as int) implies in_prefix(dk, dk.len() as int, c) by {
                assert(dk.contains(c));
                let a = choose|a: int| 0 <= a < dk.len() && dk[a] == c;
            }
        }
    }
    proof {
        assert forall|k: int| 0 <= k < n implies (#[trigger] done[k] <==> queued@[k]) by {
            if queued@[k] {
                let a = choose|a: int| 0 <= a < queue@.len() && queue@[a] == k;
                assert(a < head);
            }
        }
    }
    proof {
        assert forall|k: int| 0 <= k < n implies ((exists|a: int| 0 <= a < queue@.len() && queue@[a] == k) <==> !#[trigger] behind_cycle(dep, n as int, k)) by {
            if queued@[k] {
                let a = choose|a: int| 0 <= a < queue@.len() && queue@[a] == k;
                if behind_cycle(dep, n as int, k) {
                    let s = choose|s: Set<int>| #[trigger] s.contains(k) && closed_under_deps(dep, n as int, s);
                    assert forall|y: int, j: int|
                        0 <= y < queue@.len() && 0 <= j < n && #[trigger] dep(queue@[y] as int, j) implies exists|b: int| 0 <= b < y && queue@[b] == j by {
                        let b = choose|b: int| 0 <= b < y && b < head && queue@[b] == j;
                    }
                    lemma_queue_avoids_closed(dep, n as int, queue@, s, a);
                }
            } else {
                let s = Set::new(|x: int| 0 <= x < n && !queued@[x]);
                assert forall|x: int| #[trigger] s.contains(x) implies exists|j: int| s.contains(j) && dep(x, j) by {
                    lemma_pending_zero(dep, x, done, n as int);
                    let j = choose|j: int| 0 <= j < n && dep(x, j) && !done[j];
                    assert(s.contains(j));
                }
                assert(s.contains(k));
                assert(closed_under_deps(dep, n as int, s));
            }
        }
        assert forall|a: int, j: int|
            0 <= a < queue@.len() && 0 <= j < n && #[trigger] dep(queue@[a] as int, j) implies exists|b: int| 0 <= b < a && queue@[b] == j by {
            let b = choose|b: int| 0 <= b < a && b < head && queue@[b] == j;
        }
    }
    queue
}

/// Whether Kahn's algorithm leaves a node out.
fn kahn_has_cycle(
    n: usize,
    indeg: Vec<usize>,
    dependents: &Vec<Vec<usize>>,
    Ghost(dep): Ghost<spec_fn(int, int) -> bool>,
) -> (r: bool)
    requires
        indeg@.len() == n,
        dependents@.len() == n,
        forall|i: int| 0 <= i < n ==> #[trigger] indeg@[i] == pending(dep, i, Seq::new(n as nat, |x: int| false), n as int),
        forall|j: int| 0 <= j < n ==> ints((#[trigger] dependents@[j])@) == dependents_of(dep, j, n as int),
    ensures
        r == has_cycle(dep, n as int),
{
    let q = kahn_order(n, indeg, dependents, Ghost(dep));
    proof {
        lemma_distinct_bound(q@, n as int);
    }
    let r = q.len() < n;
    proof {
        if has_cycle(dep, n as int) {
            let (s, x) = choose|s: Set<int>, x: int| s.contains(x) && closed_under_deps(dep, n as int, s);
            assert(behind_cycle(dep, n as int, x));
            if q@.len() == n {
                lemma_all_present(q@, n as int, x);
            }
        } else if r {
            let k = lemma_some_missing(q@, n as int);
            assert(behind_cycle(dep, n as int, k));
            let s = choose|s: Set<int>| #[trigger] s.contains(k) && closed_under_deps(dep, n as int, s);
            assert(s.contains(k) && closed_under_deps(dep, n as int, s));
        }
    }
    r
}

/// `n` distinct values below `n` include every value below `n`.
proof fn lemma_all_present(q: Seq<usize>, n: int, x: int)
    requires
        0 <= x < n,
        q.len() == n,
        forall|a: int| 0 <= a < q.len() ==> #[trigger] q[a] < n,
        forall|a: int, b: int| 0 <= a < b < q.len() ==> #[trigger] q[a] != #[trigger] q[b],
    ensures
        exists|a: int| 0 <= a < q.len() && q[a] == x,
{
    if !(exists|a: int| 0 <= a < q.len() && q[a] == x) {
        let qi = ints(q);
        assert forall|a: int, b: int| 0 <= a < qi.len() && 0 <= b < qi.len() && a != b implies qi[a] != qi[b] by {
            if a < b {
                assert(q[a] != q[b]);
            } else {
                assert(q[b] != q[a]);
            }
        }
        assert(qi.no_duplicates());
        qi.unique_seq_to_set();
        let r = vstd::set_lib::set_int_range(0, n).remove(x);
        assert forall|y: int| qi.to_set().contains(y) implies r.contains(y) by {
            let a = choose|a: int| 0 <= a < qi.len() && qi[a] == y;
            assert(q[a] < n);
            assert(q[a] != x);
        }
        vstd::set_lib::lemma_int_range(0, n);
        vstd::set_lib::lemma_len_subset(qi.to_set(), r);
    }
}

/// Fewer than `n` values leave some value below `n` out.
proof fn lemma_some_missing(q: Seq<usize>, n: int) -> (k: int)
    requires
        q.len() < n,
    ensures
        0 <= k < n,
        !(exists|a: int| 0 <= a < q.len() && q[a] == k),
{
    let qi = ints(q);
    qi.lemma_cardinality_of_set();
    vstd::set_lib::lemma_int_range(0, n);
    if forall|k: int| 0 <= k < n ==> #[trigger] qi.contains(k) {
        assert forall|y: int| vstd::set_lib::set_int_range(0, n).contains(y) implies qi.to_set().contains(y) by {
            assert(qi.contains(y));
        }
        vstd::set_lib::lemma_len_subset(vstd::set_lib::set_int_range(0, n), qi.to_set());
        assert(false);
    }
    let k = choose|k: int| 0 <= k < n && !#[trigger] qi.contains(k);
    if exists|a: int| 0 <= a < q.len() && q[a] == k {
        let a = choose|a: int| 0 <= a < q.len() && q[a] == k;
        assert(qi[a] == k);
    }
    k
}

// ── The workbook's graph ─────────────────────────────────────────────────

struct Node {
    key: Vec<char>,
    row: u32,
    col: u32,
    deps: Vec<Dep>,
}

impl Node {
    spec fn view(&self) -> NodeV {
        NodeV { key: self.key@, row: self.row, col: self.col, deps: deps_view(self.deps@) }
    }
}

spec fn nodes_view(ns: Seq<Node>) -> Seq<NodeV> {
    ns.map_values(|n: Node| n.view())
}

fn dep_hits_exec(d: &Dep, m: &Node) -> (r: bool)
    ensures
        r == dep_hits(d.view(), m.view()),
{
    match d {
        Dep::Cell { sheet, row, col } => chars_eq(sheet, &m.key) && *row == m.row && *col == m.col,
        Dep::Range { sheet, r1, c1, r2, c2 } => chars_eq(sheet, &m.key) && *r1 <= m.row && m.row <= *r2
            && *c1 <= m.col && m.col <= *c2,
    }
}

fn node_depends(a: &Node, b: &Node) -> (r: bool)
    ensures
        r == depends_on(a.view(), b.view()),
{
    let ghost av = a.view();
    let mut k: usize = 0;
    while k < a.deps.len()
        invariant
            0 <= k <= a.deps@.len(),
            av == a.view(),
            av.deps.len() == a.deps@.len(),
            forall|x: int| 0 <= x < k ==> !#[trigger] dep_hits(av.deps[x], b.view()),
        decreases a.deps@.len() - k,
    {
        proof {
            assert(av.deps[k as int] == a.deps@[k as int].view());
        }
        if dep_hits_exec(&a.deps[k], b) {
            return true;
        }
        k = k + 1;
    }
    false
}

/// The formula nodes of every sheet, in order.
fn build_nodes(sheets: &Vec<(String, Vec<((u32, u32), Option<String>)>)>) -> (r: Vec<Node>)
    ensures
        nodes_view(r@) == all_nodes(sheets_view(sheets@)),
{
    let ghost sv = sheets_view(sheets@);
    let mut nodes: Vec<Node> = Vec::new();
    let mut s: usize = 0;
    proof {
        assert(sv.subrange(0, 0) =~= Seq::<(Seq<char>, CellsV)>::empty());
        assert(nodes_view(nodes@) =~= all_nodes(sv.subrange(0, 0)));
    }
    while s < sheets.len()
        invariant
            0 <= s <= sheets@.len(),
            sv == sheets_view(sheets@),
            sv.len() == sheets@.len(),
            nodes_view(nodes@) == all_nodes(sv.subrange(0, s as int)),
        decreases sheets@.len() - s,
    {
        let name = string_chars(&sheets[s].0);
        let key = chars_ascii_lower(&name);
        let cells = &sheets[s].1;
        let ghost cv = cells_view(cells@);
        let ghost base = nodes_view(nodes@);
        proof {
            assert(sv[s as int] == (name@, cv));
            assert(cv.subrange(0, 0) =~= Seq::<((u32, u32), Option<Seq<char>>)>::empty());
            assert(nodes_view(nodes@) =~= base + sheet_nodes(name@, cv.subrange(0, 0)));
        }
        let mut c: usize = 0;
        while c < cells.len()
            invariant
                0 <= c <= cells@.len(),
                cv == cells_view(cells@),
                cv.len() == cells@.len(),
                key@ == seq_ascii_lower(name@),
                nodes_view(nodes@) == base + sheet_nodes(name@, cv.subrange(0, c as int)),
            decreases cells@.len() - c,
        {
            let ghost pre = cv.subrange(0, c + 1);
            let ghost before = nodes_view(nodes@);
            proof {
                assert(pre.drop_last() =~= cv.subrange(0, c as int));
                assert(pre.last() == cv[c as int]);
            }
            let (pos, formula) = &cells[c];
            match formula {
                Some(src) => {
                    match parse(src.as_str()) {
                        Ok(e) => {
                            let mut deps: Vec<Dep> = Vec::new();
                            collect_deps(&e, &key, &mut deps);
                            let node = Node { key: slice_key(&key), row: pos.0, col: pos.1, deps };
                            let ghost nv = node.view();
                            nodes.push(node);
                            proof {
                                assert(deps_view(Seq::<Dep>::empty()) =~= Seq::<DepV>::empty());
                                assert(nodes_view(nodes@) =~= before.push(nv));
                            }
                        },
                        Err(_) => {},
                    }
                },
                None => {},
            }
            proof {
                assert(nodes_view(nodes@) =~= base + sheet_nodes(name@, pre));
            }
            c = c + 1;
        }
        proof {
            let pre = sv.subrange(0, s + 1);
            assert(pre.drop_last() =~= sv.subrange(0, s as int));
            assert(pre.last() == sv[s as int]);
            assert(cv.subrange(0, cv.len() as int) =~= cv);
            assert(nodes_view(nodes@) =~= all_nodes(pre));
        }
        s = s + 1;
    }
    proof {
        assert(sv.subrange(0, sv.len() as int) =~= sv);
    }
    nodes
}

fn slice_key(key: &Vec<char>) -> (r: Vec<char>)
    ensures
        r@ == key@,
{
    let r = crate::text::slice_chars(key, 0, key.len());
    proof {
        assert(r@ =~= key@);
    }
    r
}

/// Whether the workbook's formula dependency graph is cyclic. Each sheet is
/// `(name, cells)` with each cell `((row, col), formula)`; a formula that
/// does not parse is left out. A formula depends on the formula cells it
/// references directly or through a range, on its own sheet when
/// unqualified (sheet names compared ASCII case-insensitively). The result
/// is `true` exactly when some non-empty set of formulas each depends on a
/// formula of the set.
pub fn workbook_has_formula_cycle(sheets: &Vec<(String, Vec<((u32, u32), Option<String>)>)>) -> (r: bool)
    ensures
        r == has_cycle(
            node_graph(all_nodes(sheets_view(sheets@))),
            all_nodes(sheets_view(sheets@)).len() as int,
        ),
{
    let nodes = build_nodes(sheets);
    let ghost nv = nodes_view(nodes@);
    let ghost dep = node_graph(nv);
    let n = nodes.len();
    if n == 0 {
        proof {
            if has_cycle(dep, 0) {
                let (s, x) = choose|s: Set<int>, x: int| s.contains(x) && closed_under_deps(dep, 0, s);
            }
        }
        return false;
    }
    let mut dependents: Vec<Vec<usize>> = Vec::new();
    let mut j: usize = 0;
    while j < n
        invariant
            0 <= j <= n,
            n == nodes@.len(),
            nv == nodes_view(nodes@),
            dep == node_graph(nv),
            dependents@.len() == j,
            forall|x: int| 0 <= x < j ==> ints((#[trigger] dependents@[x])@) == dependents_of(dep, x, n as int),
        decreases n - j,
    {
        let mut list: Vec<usize> = Vec::new();
        let mut i: usize = 0;
        proof {
            assert(ints(list@) =~= dependents_of(dep, j as int, 0));
        }
        while i < n
            invariant
                0 <= i <= n,
                j < n,
                n == nodes@.len(),
                nv == nodes_view(nodes@),
                dep == node_graph(nv),
                ints(list@) == dependents_of(dep, j as int, i as int),
            decreases n - i,
        {
            proof {
                assert(nv[i as int] == nodes@[i as int].view());
                assert(nv[j as int] == nodes@[j as int].view());
            }
            if node_depends(&nodes[i], &nodes[j]) {
                list.push(i);
            }
            proof {
                assert(ints(list@) =~= dependents_of(dep, j as int, i + 1));
            }
            i = i + 1;
        }
        let ghost before = dependents@;
        dependents.push(list);
        proof {
            assert forall|x: int| 0 <= x < j + 1 implies ints((#[trigger] dependents@[x])@) == dependents_of(dep, x, n as int) by {
                if x < j {
                    assert(dependents@[x] == before[x]);
                }
            }
        }
        j = j + 1;
    }
    let ghost none_done = Seq::new(n as nat, |x: int| false);
    let mut indeg: Vec<usize> = Vec::new();
    let mut i: usize = 0;
    while i < n
        invariant
            0 <= i <= n,
            n == nodes@.len(),
            nv == nodes_view(nodes@),
            dep == node_graph(nv),
            none_done == Seq::new(n as nat, |x: int| false),
            indeg@.len() == i,
            forall|x: int| 0 <= x < i ==> #[trigger] indeg@[x] == pending(dep, x, none_done, n as int),
        decreases n - i,
    {
        let mut count: usize = 0;
        let mut j: usize = 0;
        while j < n
            invariant
                0 <= j <= n,
                i < n,
                n == nodes@.len(),
                nv == nodes_view(nodes@),
                dep == node_graph(nv),
                none_done == Seq::new(n as nat, |x: int| false),
                count == pending(dep, i as int, none_done, j as int),
                count <= j,
            decreases n - j,
        {
            proof {
                assert(nv[i as int] == nodes@[i as int].view());
                assert(nv[j as int] == nodes@[j as int].view());
            }
            if node_depends(&nodes[i], &nodes[j]) {
                count = count + 1;
            }
            j = j + 1;
        }
        indeg.push(count);
        i = i + 1;
    }
    kahn_has_cycle(n, indeg, &dependents, Ghost(dep))
}

// ── Recalculation order ──────────────────────────────────────────────────

/// The graph of dependency lists: node `i` depends on node `j` when `j` is
/// listed in `deps[i]` (entries naming no node are ignored).
pub open spec fn listed_graph(deps: Seq<Vec<usize>>) -> spec_fn(int, int) -> bool {
    |i: int, j: int| 0 <= i < deps.len() && 0 <= j < deps.len() && deps[i]@.contains(j as usize)
}

/// `s` holds every seed below `n`, and every node that depends on a node of
/// `s`.
pub open spec fn holds_dependents(dep: spec_fn(int, int) -> bool, n: int, seeds: Seq<usize>, s: Set<int>) -> bool {
    &&& forall|a: int| 0 <= a < seeds.len() && seeds[a] < n ==> s.contains(#[trigger] seeds[a] as int)
    &&& forall|i: int, j: int| 0 <= i < n && #[trigger] s.contains(j) && #[trigger] dep(i, j) ==> s.contains(i)
}

/// Node `k` must be recalculated after a change that directly affects the
/// seeds: every set holding the seeds and closed under dependents holds it
/// (it is a seed, or depends, through a chain, on one).
pub open spec fn affected(dep: spec_fn(int, int) -> bool, n: int, seeds: Seq<usize>, k: int) -> bool {
    forall|s: Set<int>| #[trigger] holds_dependents(dep, n, seeds, s) ==> s.contains(k)
}

fn list_contains(v: &Vec<usize>, x: usize) -> (r: bool)
    ensures
        r == v@.contains(x),
{
    let mut i: usize = 0;
    while i < v.len()
        invariant
            0 <= i <= v@.len(),
            forall|a: int| 0 <= a < i ==> v@[a] != x,
        decreases v@.len() - i,
    {
        if v[i] == x {
            return true;
        }
        i = i + 1;
    }
    false
}

/// The in-degrees and dependents lists of the listed graph, as Kahn's
/// algorithm takes them.
fn graph_tables(deps: &Vec<Vec<usize>>) -> (r: (Vec<usize>, Vec<Vec<usize>>))
    ensures
        r.0@.len() == deps@.len(),
        r.1@.len() == deps@.len(),
        forall|i: int| 0 <= i < deps@.len() ==> #[trigger] r.0@[i] == pending(
            listed_graph(deps@),
            i,
            Seq::new(deps@.len() as nat, |x: int| false),
            deps@.len() as int,
        ),
        forall|j: int| 0 <= j < deps@.len() ==> ints((#[trigger] r.1@[j])@) == dependents_of(
            listed_graph(deps@),
            j,
            deps@.len() as int,
        ),
{
    let n = deps.len();
    let ghost dep = listed_graph(deps@);
    let ghost none_done = Seq::new(n as nat, |x: int| false);
    let mut indeg: Vec<usize> = Vec::new();
    let mut i: usize = 0;
    while i < n
        invariant
            0 <= i <= n,
            n == deps@.len(),
            dep == listed_graph(deps@),
            none_done == Seq::new(n as nat, |x: int| false),
            indeg@.len() == i,
            forall|x: int| 0 <= x < i ==> #[trigger] indeg@[x] == pending(dep, x, none_done, n as int),
        decreases n - i,
    {
        let mut count: usize = 0;
        let mut j: usize = 0;
        while j < n
            invariant
                0 <= j <= n,
                i < n,
                n == deps@.len(),
                dep == listed_graph(deps@),
                none_done == Seq::new(n as nat, |x: int| false),
                count == pending(dep, i as int, none_done, j as int),
                count <= j,
            decreases n - j,
        {
            if list_contains(&deps[i], j) {
                proof {
                    assert(dep(i as int, j as int));
                }
                count = count + 1;
            } else {
                proof {
                    assert(!dep(i as int, j as int));
                }
            }
            j = j + 1;
        }
        indeg.push(count);
        i = i + 1;
    }
    let mut dependents: Vec<Vec<usize>> = Vec::new();
    let mut j: usize = 0;
    while j < n
        invariant
            0 <= j <= n,
            n == deps@.len(),
            dep == listed_graph(deps@),
            dependents@.len() == j,
            forall|x: int| 0 <= x < j ==> ints((#[trigger] dependents@[x])@) == dependents_of(dep, x, n as int),
        decreases n - j,
    {
        let mut list: Vec<usize> = Vec::new();
        let mut i: usize = 0;
        while i < n
            invariant
                0 <= i <= n,
                j < n,
                n == deps@.len(),
                dep == listed_graph(deps@),
                ints(list@) == dependents_of(dep, j as int, i as int),
            decreases n - i,
        {
            if list_contains(&deps[i], j) {
                proof {
                    assert(dep(i as int, j as int));
                }
                list.push(i);
            } else {
                proof {
                    assert(!dep(i as int, j as int));
                }
            }
            proof {
                assert(ints(list@) =~= dependents_of(dep, j as int, i + 1));
            }
            i = i + 1;
        }
        let ghost before = dependents@;
        dependents.push(list);
        proof {
            assert forall|x: int| 0 <= x < j + 1 implies ints((#[trigger] dependents@[x])@) == dependents_of(dep, x, n as int) by {
                if x < j {
                    assert(dependents@[x] == before[x]);
                }
            }
        }
        j = j + 1;
    }
    (indeg, dependents)
}

/// The nodes affected by the seeds, found by following dependents from
/// each seed.
fn affected_nodes(
    n: usize,
    dependents: &Vec<Vec<usize>>,
    seeds: &Vec<usize>,
    Ghost(dep): Ghost<spec_fn(int, int) -> bool>,
) -> (sel: Vec<bool>)
    requires
        dependents@.len() == n,
        forall|j: int| 0 <= j < n ==> ints((#[trigger] dependents@[j])@) == dependents_of(dep, j, n as int),
    ensures
        sel@.len() == n,
        forall|k: int| 0 <= k < n ==> (#[trigger] sel@[k] <==> affected(dep, n as int, seeds@, k)),
{
    let mut sel: Vec<bool> = Vec::new();
    let mut i: usize = 0;
    while i < n
        invariant
            0 <= i <= n,
            sel@.len() == i,
            forall|k: int| 0 <= k < i ==> !#[trigger] sel@[k],
        decreases n - i,
    {
        sel.push(false);
        i = i + 1;
    }
    let mut work: Vec<usize> = Vec::new();
    let mut a: usize = 0;
    while a < seeds.len()
        invariant
            0 <= a <= seeds@.len(),
            sel@.len() == n,
            forall|x: int| 0 <= x < work@.len() ==> #[trigger] work@[x] < n,
            forall|x: int, y: int| 0 <= x < y < work@.len() ==> #[trigger] work@[x] != #[trigger] work@[y],
            forall|k: int| 0 <= k < n ==> (#[trigger] sel@[k] <==> exists|x: int| 0 <= x < work@.len() && work@[x] == k),
            forall|k: int| 0 <= k < n && #[trigger] sel@[k] ==> affected(dep, n as int, seeds@, k),
            forall|b: int| 0 <= b < a && seeds@[b] < n ==> #[trigger] sel@[seeds@[b] as int],
        decreases seeds@.len() - a,
    {
        let x = seeds[a];
        if x < n && !sel[x] {
            let ghost wb = work@;
            let ghost sb = sel@;
            proof {
                assert forall|s: Set<int>| #[trigger] holds_dependents(dep, n as int, seeds@, s) implies s.contains(x as int) by {
                    assert(seeds@[a as int] < n);
                }
            }
            sel.set(x, true);
            work.push(x);
            proof {
                assert forall|k: int| 0 <= k < n implies (#[trigger] sel@[k] <==> exists|y: int| 0 <= y < work@.len() && work@[y] == k) by {
                    if k != x {
                        if sb[k] {
                            let y = choose|y: int| 0 <= y < wb.len() && wb[y] == k;
                            assert(work@[y] == k);
                        }
                        if exists|y: int| 0 <= y < work@.len() && work@[y] == k {
                            let y = choose|y: int| 0 <= y < work@.len() && work@[y] == k;
                            if y < wb.len() {
                                assert(wb[y] == k);
                            }
                        }
                    } else {
                        assert(work@[work@.len() - 1] == x);
                    }
                }
                assert forall|y: int, z: int| 0 <= y < z < work@.len() implies #[trigger] work@[y] != #[trigger] work@[z] by {
                    if z == wb.len() && work@[y] == x {
                        assert(wb[y] == x);
                        assert(sb[x as int]);
                    }
                }
            }
        }
        a = a + 1;
    }
    let mut head: usize = 0;
    while head < work.len()
        invariant
            head <= work@.len(),
            sel@.len() == n,
            dependents@.len() == n,
            forall|j: int| 0 <= j < n ==> ints((#[trigger] dependents@[j])@) == dependents_of(dep, j, n as int),
            forall|x: int| 0 <= x < work@.len() ==> #[trigger] work@[x] < n,
            forall|x: int, y: int| 0 <= x < y < work@.len() ==> #[trigger] work@[x] != #[trigger] work@[y],
            forall|k: int| 0 <= k < n ==> (#[trigger] sel@[k] <==> exists|x: int| 0 <= x < work@.len() && work@[x] == k),
            forall|k: int| 0 <= k < n && #[trigger] sel@[k] ==> affected(dep, n as int, seeds@, k),
            forall|b: int| 0 <= b < seeds@.len() && seeds@[b] < n ==> #[trigger] sel@[seeds@[b] as int],
            forall|x: int, i: int| 0 <= x < head && 0 <= i < n && #[trigger] dep(i, work@[x] as int) ==> sel@[i],
        decreases n - head,
    {
        proof {
            lemma_distinct_bound(work@, n as int);
        }
        let k = work[head];
        let ds = &dependents[k];
        let ghost dk = dependents_of(dep, k as int, n as int);
        proof {
            lemma_dependents_of(dep, k as int, n as int);
            assert(ints(ds@) == dk);
            assert(sel@[k as int]);
        }
        let mut t: usize = 0;
        while t < ds.len()
            invariant
                0 <= t <= ds@.len(),
                ints(ds@) == dk,
                dk == dependents_of(dep, k as int, n as int),
                forall|c: int| 0 <= c < dk.len() ==> 0 <= #[trigger] dk[c] < n && dep(dk[c], k as int),
                forall|i: int| 0 <= i < n && dep(i, k as int) ==> dk.contains(i),
                k < n,
                head < work@.len(),
                work@[head as int] == k,
                sel@.len() == n,
                dependents@.len() == n,
                forall|j: int| 0 <= j < n ==> ints((#[trigger] dependents@[j])@) == dependents_of(dep, j, n as int),
                forall|x: int| 0 <= x < work@.len() ==> #[trigger] work@[x] < n,
                forall|x: int, y: int| 0 <= x < y < work@.len() ==> #[trigger] work@[x] != #[trigger] work@[y],
                forall|c: int| 0 <= c < n ==> (#[trigger] sel@[c] <==> exists|x: int| 0 <= x < work@.len() && work@[x] == c),
                forall|c: int| 0 <= c < n && #[trigger] sel@[c] ==> affected(dep, n as int, seeds@, c),
                forall|b: int| 0 <= b < seeds@.len() && seeds@[b] < n ==> #[trigger] sel@[seeds@[b] as int],
                forall|x: int, i: int| 0 <= x < head && 0 <= i < n && #[trigger] dep(i, work@[x] as int) ==> sel@[i],
                forall|c: int| 0 <= c < t ==> #[trigger] sel@[dk[c]],
            decreases ds@.len() - t,
        {
            let c = ds[t];
            proof {
                assert(dk[t as int] == c as int);
                assert(dep(c as int, k as int));
            }
            if !sel[c] {
                let ghost wb = work@;
                let ghost sb = sel@;
                proof {
                    assert(work@[head as int] == k);
                    assert(sel@[k as int]);
                    assert(affected(dep, n as int, seeds@, k as int));
                    assert forall|s: Set<int>| #[trigger] holds_dependents(dep, n as int, seeds@, s) implies s.contains(c as int) by {
                        assert(s.contains(k as int));
                    }
                }
                sel.set(c, true);
                work.push(c);
                proof {
                    assert forall|q: int| 0 <= q < n implies (#[trigger] sel@[q] <==> exists|y: int| 0 <= y < work@.len() && work@[y] == q) by {
                        if q != c {
                            if sb[q] {
                                let y = choose|y: int| 0 <= y < wb.len() && wb[y] == q;
                                assert(work@[y] == q);
                            }
                            if exists|y: int| 0 <= y < work@.len() && work@[y] == q {
                                let y = choose|y: int| 0 <= y < work@.len() && work@[y] == q;
                                if y < wb.len() {
                                    assert(wb[y] == q);
                                }
                            }
                        } else {
                            assert(work@[work@.len() - 1] == c);
                        }
                    }
                    assert forall|y: int, z: int| 0 <= y < z < work@.len() implies #[trigger] work@[y] != #[trigger] work@[z] by {
                        if z == wb.len() && work@[y] == c {
                            assert(wb[y] == c);
                            assert(sb[c as int]);
                        }
                    }
                    assert forall|x: int, i: int| 0 <= x < head && 0 <= i < n && #[trigger] dep(i, work@[x] as int) implies sel@[i] by {
                        assert(work@[x] == wb[x]);
                    }
                }
            }
            t = t + 1;
        }
        proof {
            assert forall|x: int, i: int| 0 <= x < head + 1 && 0 <= i < n && #[trigger] dep(i, work@[x] as int) implies sel@[i] by {
                if x == head {
                    assert(dk.contains(i));
                    let c = choose|c: int| 0 <= c < dk.len() && dk[c] == i;
                    assert(sel@[dk[c]]);
                }
            }
        }
        head = head + 1;
    }
    proof {
        let s = Set::new(|k: int| 0 <= k < n && sel@[k]);
        assert forall|i: int, j: int| 0 <= i < n && #[trigger] s.contains(j) && #[trigger] dep(i, j) implies s.contains(i) by {
            let x = choose|x: int| 0 <= x < work@.len() && work@[x] == j;
            assert(dep(i, work@[x] as int));
        }
        assert forall|b: int| 0 <= b < seeds@.len() && seeds@[b] < n implies s.contains(#[trigger] seeds@[b] as int) by {
            assert(sel@[seeds@[b] as int]);
        }
        assert(holds_dependents(dep, n as int, seeds@, s));
        assert forall|k: int| 0 <= k < n implies (#[trigger] sel@[k] <==> affected(dep, n as int, seeds@, k)) by {
            if affected(dep, n as int, seeds@, k) {
                assert(s.contains(k));
            }
        }
    }
    sel
}

/// The evaluation order of a workbook's formulas and which of them to
/// evaluate. Nodes are numbered in key order (`(sheet, row, col)`
/// ascending) and `deps[i]` lists the nodes formula `i` reads; `seeds` are
/// the formulas that read a changed cell directly.
///
/// The order holds every node once. First come, in the order Kahn's
/// algorithm takes them (ready nodes ascending, each node's dependents
/// released ascending), the nodes that are not behind a cycle, each after
/// every node it reads; then the nodes behind a cycle, ascending, which
/// evaluate with their previous values. A node is selected when the whole
/// workbook is recalculated, or when it is affected by the seeds.
pub fn recalculation_order(deps: &Vec<Vec<usize>>, seeds: &Vec<usize>, force_full: bool) -> (r: (
    Vec<usize>,
    Vec<bool>,
))
    ensures
        ({
            let n = deps@.len() as int;
            let dep = listed_graph(deps@);
            let order = r.0@;
            &&& order.len() == n
            &&& forall|a: int| 0 <= a < n ==> #[trigger] order[a] < n
            &&& forall|a: int, b: int| 0 <= a < b < n ==> #[trigger] order[a] != #[trigger] order[b]
            &&& forall|k: usize| k < n ==> #[trigger] order.contains(k)
            &&& forall|a: int, j: int|
                0 <= a < n && !behind_cycle(dep, n, order[a] as int) && 0 <= j < n && #[trigger] dep(
                    order[a] as int,
                    j,
                ) ==> exists|b: int| 0 <= b < a && order[b] == j
            &&& forall|a: int, b: int|
                0 <= a < b < n && behind_cycle(dep, n, #[trigger] order[a] as int) ==> behind_cycle(
                    dep,
                    n,
                    #[trigger] order[b] as int,
                ) && order[a] < order[b]
            &&& r.1@.len() == n
            &&& forall|k: int| 0 <= k < n ==> (#[trigger] r.1@[k] <==> force_full || affected(dep, n, seeds@, k))
        }),
{
    let n = deps.len();
    let ghost dep = listed_graph(deps@);
    let (indeg, dependents) = graph_tables(deps);
    let q = kahn_order(n, indeg, &dependents, Ghost(dep));
    let p = q.len();
    proof {
        lemma_distinct_bound(q@, n as int);
    }
    let mut in_q: Vec<bool> = Vec::new();
    let mut i: usize = 0;
    while i < n
        invariant
            0 <= i <= n,
            in_q@.len() == i,
            forall|k: int| 0 <= k < i ==> !#[trigger] in_q@[k],
        decreases n - i,
    {
        in_q.push(false);
        i = i + 1;
    }
    let mut order: Vec<usize> = Vec::new();
    let mut a: usize = 0;
    while a < p
        invariant
            0 <= a <= p,
            p == q@.len(),
            p <= n,
            in_q@.len() == n,
            forall|x: int| 0 <= x < q@.len() ==> #[trigger] q@[x] < n,
            forall|x: int, y: int| 0 <= x < y < q@.len() ==> #[trigger] q@[x] != #[trigger] q@[y],
            order@ == q@.subrange(0, a as int),
            forall|k: int| 0 <= k < n ==> (#[trigger] in_q@[k] <==> exists|x: int| 0 <= x < a && q@[x] == k),
        decreases p - a,
    {
        let x = q[a];
        let ghost ib = in_q@;
        in_q.set(x, true);
        order.push(x);
        proof {
            assert(order@ =~= q@.subrange(0, a + 1));
            assert forall|k: int| 0 <= k < n implies (#[trigger] in_q@[k] <==> exists|y: int| 0 <= y < a + 1 && q@[y] == k) by {
                if k != x {
                    if ib[k] {
                        let y = choose|y: int| 0 <= y < a && q@[y] == k;
                    }
                    if exists|y: int| 0 <= y < a + 1 && q@[y] == k {
                        let y = choose|y: int| 0 <= y < a + 1 && q@[y] == k;
                        assert(y != a);
                    }
                } else {
                    assert(q@[a as int] == k);
                }
            }
        }
        a = a + 1;
    }
    proof {
        assert(q@.subrange(0, p as int) =~= q@);
        assert forall|k: int| 0 <= k < n implies (#[trigger] in_q@[k] <==> !behind_cycle(dep, n as int, k)) by {
            if in_q@[k] {
                let y = choose|y: int| 0 <= y < p && q@[y] == k;
            }
        }
    }
    let mut j: usize = 0;
    while j < n
        invariant
            0 <= j <= n,
            p == q@.len(),
            p <= n,
            in_q@.len() == n,
            forall|k: int| 0 <= k < n ==> (#[trigger] in_q@[k] <==> !behind_cycle(dep, n as int, k)),
            forall|k: int| 0 <= k < n ==> (#[trigger] in_q@[k] <==> exists|x: int| 0 <= x < p && q@[x] == k),
            forall|x: int| 0 <= x < q@.len() ==> #[trigger] q@[x] < n,
            forall|x: int, y: int| 0 <= x < y < q@.len() ==> #[trigger] q@[x] != #[trigger] q@[y],
            order@.subrange(0, p as int) == q@,
            p <= order@.len(),
            forall|x: int| p <= x < order@.len() ==> #[trigger] order@[x] < j && !in_q@[order@[x] as int],
            forall|x: int, y: int| p <= x < y < order@.len() ==> #[trigger] order@[x] < #[trigger] order@[y],
            forall|k: int| 0 <= k < j && !#[trigger] in_q@[k] ==> exists|x: int| p <= x < order@.len() && order@[x] == k,
        decreases n - j,
    {
        if !in_q[j] {
            let ghost ob = order@;
            order.push(j);
            proof {
                assert(order@.subrange(0, p as int) =~= ob.subrange(0, p as int));
                assert forall|k: int| 0 <= k < j + 1 && !#[trigger] in_q@[k] implies exists|x: int| p <= x < order@.len() && order@[x] == k by {
                    if k < j {
                        let x = choose|x: int| p <= x < ob.len() && ob[x] == k;
                        assert(order@[x] == k);
                    } else {
                        assert(order@[order@.len() - 1] == k);
                    }
                }
            }
        }
        j = j + 1;
    }
    proof {
        let o = order@;
        assert forall|x: int| 0 <= x < o.len() implies #[trigger] o[x] < n by {
            if x < p {
                assert(o[x] == o.subrange(0, p as int)[x]);
            }
        }
        assert forall|x: int, y: int| 0 <= x < y < o.len() implies #[trigger] o[x] != #[trigger] o[y] by {
            if y < p {
                assert(o[x] == q@[x]);
                assert(o[y] == q@[y]);
            } else if x < p {
                assert(o[x] == q@[x]);
                assert(in_q@[o[x] as int]);
            }
        }
        lemma_distinct_bound(o, n as int);
        assert forall|k: usize| k < n implies #[trigger] o.contains(k) by {
            if in_q@[k as int] {
                let x = choose|x: int| 0 <= x < p && q@[x] == k;
                assert(o[x] == q@[x]);
            } else {
                let x = choose|x: int| p <= x < o.len() && o[x] == k;
            }
        }
        assert(o.len() == n) by {
            if o.len() < n {
                let k = lemma_some_missing(o, n as int);
                assert(o.contains(k as usize));
                let x = choose|x: int| 0 <= x < o.len() && o[x] == k as usize;
                assert(o[x] == k);
            }
        }
        assert forall|a: int, jj: int|
            0 <= a < n && !behind_cycle(dep, n as int, o[a] as int) && 0 <= jj < n && #[trigger] dep(o[a] as int, jj)
            implies exists|b: int| 0 <= b < a && o[b] == jj by {
            if a < p {
                assert(o[a] == q@[a]);
                let b = choose|b: int| 0 <= b < a && q@[b] == jj;
                assert(o[b] == q@[b]);
            } else {
                assert(!in_q@[o[a] as int]);
            }
        }
        assert forall|a: int, b: int|
            0 <= a < b < n && behind_cycle(dep, n as int, #[trigger] o[a] as int) implies behind_cycle(
                dep,
                n as int,
                #[trigger] o[b] as int,
            ) && o[a] < o[b] by {
            if a < p {
                assert(o[a] == q@[a]);
                assert(in_q@[o[a] as int]);
            }
        }
    }
    let sel = if force_full {
        let mut all: Vec<bool> = Vec::new();
        let mut k: usize = 0;
        while k < n
            invariant
                0 <= k <= n,
                all@.len() == k,
                forall|x: int| 0 <= x < k ==> #[trigger] all@[x],
            decreases n - k,
        {
            all.push(true);
            k = k + 1;
        }
        all
    } else {
        affected_nodes(n, &dependents, seeds, Ghost(dep))
    };
    (order, sel)
}

} // verus!
