//! Bounded, syntax-level views of a workbook's formula graph for snapshot
//! and diagnostic consumers: the dependency edges (ranges kept as ranges),
//! the input and output candidates, and what keeps the edge list from
//! being complete.

use vstd::prelude::*;
use crate::text::{chars_ascii_lower, chars_eq, seq_ascii_lower, string_chars, string_from_chars};
use super::ast::view_expr;
use super::cycle::{
    all_nodes, cells_view, collect_deps, deps_view, expr_deps, has_cycle, node_graph, sheets_view,
    workbook_has_formula_cycle, CellsV, Dep, DepV,
};
use super::grammar::spec_parse_with_refs;
use super::parser::parse;

verus! {

// ── Ordering text ────────────────────────────────────────────────────────

/// Lexicographic order of texts by char code (the order of their UTF-8
/// bytes).
pub open spec fn text_lt(a: Seq<char>, b: Seq<char>) -> bool
    decreases a.len(),
{
    if a.len() == 0 {
        b.len() > 0
    } else if b.len() == 0 {
        false
    } else if a[0] != b[0] {
        (a[0] as int) < (b[0] as int)
    } else {
        text_lt(a.drop_first(), b.drop_first())
    }
}

pub proof fn lemma_text_lt_irreflexive(a: Seq<char>)
    ensures
        !text_lt(a, a),
    decreases a.len(),
{
    if a.len() > 0 {
        lemma_text_lt_irreflexive(a.drop_first());
    }
}

pub proof fn lemma_text_lt_transitive(a: Seq<char>, b: Seq<char>, c: Seq<char>)
    requires
        text_lt(a, b),
        text_lt(b, c),
    ensures
        text_lt(a, c),
    decreases a.len(),
{
    if a.len() > 0 && b.len() > 0 && c.len() > 0 && a[0] == b[0] && b[0] == c[0] {
        lemma_text_lt_transitive(a.drop_first(), b.drop_first(), c.drop_first());
    }
}

pub proof fn lemma_text_lt_total(a: Seq<char>, b: Seq<char>)
    ensures
        text_lt(a, b) || text_lt(b, a) || a == b,
    decreases a.len(),
{
    if a.len() > 0 && b.len() > 0 && a[0] == b[0] {
        lemma_text_lt_total(a.drop_first(), b.drop_first());
        if a.drop_first() == b.drop_first() {
            assert(a =~= seq![a[0]] + a.drop_first());
            assert(b =~= seq![b[0]] + b.drop_first());
        }
    } else if a.len() == 0 && b.len() == 0 {
        assert(a =~= b);
    }
}

/// All three order facts of `text_lt` for three texts.
pub proof fn lemma_text_order(a: Seq<char>, b: Seq<char>, c: Seq<char>)
    ensures
        !text_lt(a, a),
        text_lt(a, b) && text_lt(b, c) ==> text_lt(a, c),
        text_lt(a, b) || text_lt(b, a) || a == b,
{
    lemma_text_lt_irreflexive(a);
    lemma_text_lt_total(a, b);
    if text_lt(a, b) && text_lt(b, c) {
        lemma_text_lt_transitive(a, b, c);
    }
}

/// Whether `a` comes before `b` in `text_lt`.
pub fn text_less(a: &Vec<char>, b: &Vec<char>) -> (r: bool)
    ensures
        r == text_lt(a@, b@),
{
    let mut i: usize = 0;
    proof {
        assert(a@.subrange(0, a@.len() as int) =~= a@);
        assert(b@.subrange(0, b@.len() as int) =~= b@);
    }
    while i < a.len() && i < b.len() && a[i] == b[i]
        invariant
            0 <= i <= a@.len(),
            i <= b@.len(),
            text_lt(a@, b@) == text_lt(a@.subrange(i as int, a@.len() as int), b@.subrange(i as int, b@.len() as int)),
        decreases a@.len() - i,
    {
        proof {
            let sa = a@.subrange(i as int, a@.len() as int);
            let sb = b@.subrange(i as int, b@.len() as int);
            assert(sa.drop_first() =~= a@.subrange(i + 1, a@.len() as int));
            assert(sb.drop_first() =~= b@.subrange(i + 1, b@.len() as int));
        }
        i = i + 1;
    }
    proof {
        let sa = a@.subrange(i as int, a@.len() as int);
        let sb = b@.subrange(i as int, b@.len() as int);
        if i < a.len() && i < b.len() {
            assert(sa[0] == a@[i as int]);
            assert(sb[0] == b@[i as int]);
        }
    }
    if i == a.len() {
        i < b.len()
    } else if i == b.len() {
        false
    } else {
        a[i] < b[i]
    }
}

// ── Sorted record lists ──────────────────────────────────────────────────

/// A record type listed in a strict total order of its values.
pub trait SortedRecord: Sized {
    type V;

    spec fn rec_view(&self) -> Self::V;

    spec fn rec_lt(a: Self::V, b: Self::V) -> bool;

    proof fn lemma_rec_order(a: Self::V, b: Self::V, c: Self::V)
        ensures
            !Self::rec_lt(a, a),
            Self::rec_lt(a, b) && Self::rec_lt(b, c) ==> Self::rec_lt(a, c),
            Self::rec_lt(a, b) || Self::rec_lt(b, a) || a == b,
    ;

    fn rec_less(&self, other: &Self) -> (r: bool)
        ensures
            r == Self::rec_lt(self.rec_view(), other.rec_view()),
    ;

    fn rec_same(&self, other: &Self) -> (r: bool)
        ensures
            r == (self.rec_view() == other.rec_view()),
    ;
}

pub open spec fn recs_view<T: SortedRecord>(s: Seq<T>) -> Seq<T::V> {
    s.map_values(|t: T| t.rec_view())
}

/// Each value comes strictly before every later one.
pub open spec fn strictly_sorted<T: SortedRecord>(s: Seq<T::V>) -> bool {
    forall|i: int, j: int| 0 <= i < j < s.len() ==> #[trigger] T::rec_lt(s[i], s[j])
}

/// Inserts `x` at its place in the strictly sorted `v`, unless a record
/// with the same value is already there.
pub fn insert_record<T: SortedRecord>(v: &mut Vec<T>, x: T)
    requires
        strictly_sorted::<T>(recs_view(old(v)@)),
    ensures
        strictly_sorted::<T>(recs_view(final(v)@)),
        forall|y: T::V| recs_view(final(v)@).contains(y) <==> (recs_view(old(v)@).contains(y) || y == x.rec_view()),
{
    let ghost ov = recs_view(v@);
    let ghost xv = x.rec_view();
    let mut i: usize = 0;
    while i < v.len() && v[i].rec_less(&x)
        invariant
            0 <= i <= v@.len(),
            ov == recs_view(v@),
            xv == x.rec_view(),
            strictly_sorted::<T>(ov),
            forall|k: int| 0 <= k < i ==> #[trigger] T::rec_lt(ov[k], xv),
        decreases v@.len() - i,
    {
        i = i + 1;
    }
    if i < v.len() && v[i].rec_same(&x) {
        proof {
            assert(ov[i as int] == xv);
            assert forall|y: T::V| ov.contains(y) <==> (ov.contains(y) || y == xv) by {
                if y == xv {
                    assert(ov[i as int] == y);
                }
            }
        }
        return;
    }
    proof {
        if i < v.len() {
            T::lemma_rec_order(ov[i as int], xv, xv);
            assert(T::rec_lt(xv, ov[i as int]));
        }
    }
    v.insert(i, x);
    proof {
        let nv = recs_view(v@);
        assert(nv =~= ov.insert(i as int, xv));
        assert forall|p: int, q: int| 0 <= p < q < nv.len() implies #[trigger] T::rec_lt(nv[p], nv[q]) by {
            if q < i {
                assert(nv[p] == ov[p] && nv[q] == ov[q]);
            } else if q == i {
                assert(nv[p] == ov[p]);
            } else if p < i {
                assert(nv[p] == ov[p] && nv[q] == ov[q - 1]);
                T::lemma_rec_order(ov[p], xv, ov[q - 1]);
                if q - 1 > i {
                    assert(T::rec_lt(ov[i as int], ov[q - 1]));
                    T::lemma_rec_order(xv, ov[i as int], ov[q - 1]);
                }
            } else if p == i {
                assert(nv[q] == ov[q - 1]);
                if q - 1 > i {
                    assert(T::rec_lt(ov[i as int], ov[q - 1]));
                    T::lemma_rec_order(xv, ov[i as int], ov[q - 1]);
                }
            } else {
                assert(nv[p] == ov[p - 1] && nv[q] == ov[q - 1]);
            }
        }
        assert forall|y: T::V| nv.contains(y) <==> (ov.contains(y) || y == xv) by {
            if nv.contains(y) {
                let k = choose|k: int| 0 <= k < nv.len() && nv[k] == y;
                if k < i {
                    assert(ov[k] == y);
                } else if k > i {
                    assert(ov[k - 1] == y);
                }
            }
            if ov.contains(y) {
                let k = choose|k: int| 0 <= k < ov.len() && ov[k] == y;
                if k < i {
                    assert(nv[k] == y);
                } else {
                    assert(nv[k + 1] == y);
                }
            }
            if y == xv {
                assert(nv[i as int] == y);
            }
        }
    }
}


/// `s.push(x)` holds exactly what `s` holds and `x`.
pub proof fn lemma_contains_push<A>(s: Seq<A>, x: A, y: A)
    ensures
        s.push(x).contains(y) <==> (s.contains(y) || y == x),
{
    if s.push(x).contains(y) {
        let k = choose|k: int| 0 <= k < s.push(x).len() && s.push(x)[k] == y;
        if k < s.len() {
            assert(s[k] == y);
        }
    }
    if s.contains(y) {
        let k = choose|k: int| 0 <= k < s.len() && s[k] == y;
        assert(s.push(x)[k] == y);
    }
    if y == x {
        assert(s.push(x)[s.len() as int] == y);
    }
}

/// `a + b` holds exactly what `a` or `b` holds.
pub proof fn lemma_contains_concat<A>(a: Seq<A>, b: Seq<A>, y: A)
    ensures
        (a + b).contains(y) <==> (a.contains(y) || b.contains(y)),
{
    if (a + b).contains(y) {
        let k = choose|k: int| 0 <= k < (a + b).len() && (a + b)[k] == y;
        if k < a.len() {
            assert(a[k] == y);
        } else {
            assert(b[k - a.len()] == y);
        }
    }
    if a.contains(y) {
        let k = choose|k: int| 0 <= k < a.len() && a[k] == y;
        assert((a + b)[k] == y);
    }
    if b.contains(y) {
        let k = choose|k: int| 0 <= k < b.len() && b[k] == y;
        assert((a + b)[a.len() + k] == y);
    }
}

// ── Dependency edges ─────────────────────────────────────────────────────

/// A dependency edge: the formula cell (its sheet as keyed, row, column)
/// and what it reads: a cell or a range (as its normalized rectangle) on a
/// lowercased sheet key.
pub struct FormulaDependency {
    pub source_sheet: String,
    pub source_row: u32,
    pub source_col: u32,
    pub target_sheet: String,
    pub target_kind: &'static str,
    pub target_row: u32,
    pub target_col: u32,
    pub target_end_row: u32,
    pub target_end_col: u32,
}

/// An edge as values: source sheet, row, column, target sheet, kind, and
/// the target rectangle.
pub type EdgeV = (Seq<char>, u32, u32, Seq<char>, Seq<char>, u32, u32, u32, u32);

/// The order edges are listed in: by source sheet (ignoring ASCII case),
/// source cell, target sheet (ignoring case), kind and target rectangle,
/// with the sheet names as written breaking what is left of a tie.
pub open spec fn edge_lt(a: EdgeV, b: EdgeV) -> bool {
    let (la, lb) = (seq_ascii_lower(a.0), seq_ascii_lower(b.0));
    let (ta, tb) = (seq_ascii_lower(a.3), seq_ascii_lower(b.3));
    if la != lb {
        text_lt(la, lb)
    } else if a.1 != b.1 {
        a.1 < b.1
    } else if a.2 != b.2 {
        a.2 < b.2
    } else if ta != tb {
        text_lt(ta, tb)
    } else if a.4 != b.4 {
        text_lt(a.4, b.4)
    } else if a.5 != b.5 {
        a.5 < b.5
    } else if a.6 != b.6 {
        a.6 < b.6
    } else if a.7 != b.7 {
        a.7 < b.7
    } else if a.8 != b.8 {
        a.8 < b.8
    } else if a.0 != b.0 {
        text_lt(a.0, b.0)
    } else {
        text_lt(a.3, b.3)
    }
}

fn lower_less(a: &String, b: &String) -> (r: (bool, bool))
    ensures
        r.0 == (seq_ascii_lower(a@) == seq_ascii_lower(b@)),
        r.1 == text_lt(seq_ascii_lower(a@), seq_ascii_lower(b@)),
{
    let la = chars_ascii_lower(&string_chars(a));
    let lb = chars_ascii_lower(&string_chars(b));
    (chars_eq(&la, &lb), text_less(&la, &lb))
}

fn str_less(a: &str, b: &str) -> (r: (bool, bool))
    ensures
        r.0 == (a@ == b@),
        r.1 == text_lt(a@, b@),
{
    let va = crate::text::str_chars(a);
    let vb = crate::text::str_chars(b);
    (chars_eq(&va, &vb), text_less(&va, &vb))
}

impl SortedRecord for FormulaDependency {
    type V = EdgeV;

    open spec fn rec_view(&self) -> EdgeV {
        (
            self.source_sheet@,
            self.source_row,
            self.source_col,
            self.target_sheet@,
            self.target_kind@,
            self.target_row,
            self.target_col,
            self.target_end_row,
            self.target_end_col,
        )
    }

    open spec fn rec_lt(a: EdgeV, b: EdgeV) -> bool {
        edge_lt(a, b)
    }

    proof fn lemma_rec_order(a: EdgeV, b: EdgeV, c: EdgeV) {
        lemma_text_order(seq_ascii_lower(a.0), seq_ascii_lower(b.0), seq_ascii_lower(c.0));
        lemma_text_order(seq_ascii_lower(a.3), seq_ascii_lower(b.3), seq_ascii_lower(c.3));
        lemma_text_order(a.4, b.4, c.4);
        lemma_text_order(a.0, b.0, c.0);
        lemma_text_order(a.3, b.3, c.3);
    }

    fn rec_less(&self, other: &Self) -> (r: bool) {
        let (se, sl) = lower_less(&self.source_sheet, &other.source_sheet);
        if !se {
            return sl;
        }
        if self.source_row != other.source_row {
            return self.source_row < other.source_row;
        }
        if self.source_col != other.source_col {
            return self.source_col < other.source_col;
        }
        let (te, tl) = lower_less(&self.target_sheet, &other.target_sheet);
        if !te {
            return tl;
        }
        let (ke, kl) = str_less(self.target_kind, other.target_kind);
        if !ke {
            return kl;
        }
        if self.target_row != other.target_row {
            return self.target_row < other.target_row;
        }
        if self.target_col != other.target_col {
            return self.target_col < other.target_col;
        }
        if self.target_end_row != other.target_end_row {
            return self.target_end_row < other.target_end_row;
        }
        if self.target_end_col != other.target_end_col {
            return self.target_end_col < other.target_end_col;
        }
        let (re, rl) = str_less(self.source_sheet.as_str(), other.source_sheet.as_str());
        if !re {
            return rl;
        }
        let (_, ql) = str_less(self.target_sheet.as_str(), other.target_sheet.as_str());
        ql
    }

    fn rec_same(&self, other: &Self) -> (r: bool) {
        let (se, _) = str_less(self.source_sheet.as_str(), other.source_sheet.as_str());
        let (te, _) = str_less(self.target_sheet.as_str(), other.target_sheet.as_str());
        let (ke, _) = str_less(self.target_kind, other.target_kind);
        se && te && ke && self.source_row == other.source_row && self.source_col == other.source_col
            && self.target_row == other.target_row && self.target_col == other.target_col
            && self.target_end_row == other.target_end_row && self.target_end_col == other.target_end_col
    }
}

/// The edge from the formula at `(row, col)` on `src` for one reference.
pub open spec fn dep_edge(src: Seq<char>, row: u32, col: u32, d: DepV) -> EdgeV {
    match d {
        DepV::Cell { sheet, row: tr, col: tc } => (src, row, col, sheet, "cell"@, tr, tc, tr, tc),
        DepV::Range { sheet, r1, c1, r2, c2 } => (src, row, col, sheet, "range"@, r1, c1, r2, c2),
    }
}

/// The edges of one cell: one per reference of its formula, when it has a
/// formula that parses.
pub open spec fn cell_edges(src: Seq<char>, cell: ((u32, u32), Option<Seq<char>>)) -> Seq<EdgeV> {
    match cell.1 {
        Some(f) => match spec_parse_with_refs(f) {
            Ok((e, _)) => expr_deps(e, src).map_values(|d: DepV| dep_edge(src, cell.0.0, cell.0.1, d)),
            Err(_) => Seq::empty(),
        },
        None => Seq::empty(),
    }
}

pub open spec fn sheet_edges(src: Seq<char>, cells: CellsV) -> Seq<EdgeV>
    decreases cells.len(),
{
    if cells.len() == 0 {
        Seq::empty()
    } else {
        sheet_edges(src, cells.drop_last()) + cell_edges(src, cells.last())
    }
}

/// Every edge of every formula of every sheet.
pub open spec fn all_edges(sheets: Seq<(Seq<char>, CellsV)>) -> Seq<EdgeV>
    decreases sheets.len(),
{
    if sheets.len() == 0 {
        Seq::empty()
    } else {
        all_edges(sheets.drop_last()) + sheet_edges(sheets.last().0, sheets.last().1)
    }
}

fn dep_record(src: &String, row: u32, col: u32, d: &Dep) -> (r: FormulaDependency)
    ensures
        r.rec_view() == dep_edge(src@, row, col, d.view()),
{
    match d {
        Dep::Cell { sheet, row: tr, col: tc } => FormulaDependency {
            source_sheet: src.clone(),
            source_row: row,
            source_col: col,
            target_sheet: string_from_chars(sheet),
            target_kind: "cell",
            target_row: *tr,
            target_col: *tc,
            target_end_row: *tr,
            target_end_col: *tc,
        },
        Dep::Range { sheet, r1, c1, r2, c2 } => FormulaDependency {
            source_sheet: src.clone(),
            source_row: row,
            source_col: col,
            target_sheet: string_from_chars(sheet),
            target_kind: "range",
            target_row: *r1,
            target_col: *c1,
            target_end_row: *r2,
            target_end_col: *c2,
        },
    }
}

/// Inserts the edges of one parsed formula.
fn insert_formula_edges(edges: &mut Vec<FormulaDependency>, src: &String, row: u32, col: u32, deps: &Vec<Dep>)
    requires
        strictly_sorted::<FormulaDependency>(recs_view(old(edges)@)),
    ensures
        strictly_sorted::<FormulaDependency>(recs_view(final(edges)@)),
        forall|y: EdgeV| recs_view(final(edges)@).contains(y) <==> (recs_view(old(edges)@).contains(y)
            || deps_view(deps@).map_values(|d: DepV| dep_edge(src@, row, col, d)).contains(y)),
{
    let ghost dv = deps_view(deps@).map_values(|d: DepV| dep_edge(src@, row, col, d));
    let ghost base = recs_view(edges@);
    let mut k: usize = 0;
    while k < deps.len()
        invariant
            0 <= k <= deps@.len(),
            dv == deps_view(deps@).map_values(|d: DepV| dep_edge(src@, row, col, d)),
            dv.len() == deps@.len(),
            strictly_sorted::<FormulaDependency>(recs_view(edges@)),
            forall|y: EdgeV| recs_view(edges@).contains(y) <==> (base.contains(y) || dv.subrange(0, k as int).contains(y)),
        decreases deps@.len() - k,
    {
        let ghost before = recs_view(edges@);
        assert(forall|y: EdgeV| before.contains(y) <==> (base.contains(y) || dv.subrange(0, k as int).contains(y)));
        let rec = dep_record(src, row, col, &deps[k]);
        let ghost ev = rec.rec_view();
        insert_record(edges, rec);
        proof {
            assert(dv[k as int] == ev);
            assert(dv.subrange(0, k + 1) =~= dv.subrange(0, k as int).push(ev));
            assert forall|y: EdgeV| recs_view(edges@).contains(y) <==> (base.contains(y) || dv.subrange(0, k + 1).contains(y)) by {
                assert(recs_view(edges@).contains(y) <==> (before.contains(y) || y == ev));
                assert(before.contains(y) <==> (base.contains(y) || dv.subrange(0, k as int).contains(y)));
                lemma_contains_push(dv.subrange(0, k as int), ev, y);
            }
        }
        k = k + 1;
    }
    proof {
        assert(dv.subrange(0, dv.len() as int) =~= dv);
    }
}

pub open spec fn cell_view(c: ((u32, u32), Option<String>)) -> ((u32, u32), Option<Seq<char>>) {
    (
        c.0,
        match c.1 {
            Some(s) => Some(s@),
            None => None::<Seq<char>>,
        },
    )
}

fn insert_cell_edges(edges: &mut Vec<FormulaDependency>, name: &String, host: &Vec<char>, cell: &((u32, u32), Option<String>))
    requires
        host@ == name@,
        strictly_sorted::<FormulaDependency>(recs_view(old(edges)@)),
    ensures
        strictly_sorted::<FormulaDependency>(recs_view(final(edges)@)),
        forall|y: EdgeV| recs_view(final(edges)@).contains(y) <==> (recs_view(old(edges)@).contains(y)
            || cell_edges(name@, cell_view(*cell)).contains(y)),
{
    let (pos, formula) = cell;
    match formula {
        Some(src) => {
            match parse(src.as_str()) {
                Ok(e) => {
                    let mut deps: Vec<Dep> = Vec::new();
                    collect_deps(&e, host, &mut deps);
                    proof {
                        assert(deps_view(Seq::<Dep>::empty()) =~= Seq::<DepV>::empty());
                        assert(deps_view(deps@) =~= expr_deps(view_expr(e), name@));
                    }
                    insert_formula_edges(edges, name, pos.0, pos.1, &deps);
                },
                Err(_) => {},
            }
        },
        None => {},
    }
}

/// The dependency edges of every formula that parses, each once, in
/// `edge_lt` order; ranges stay ranges.
pub fn formula_dependencies(sheets: &Vec<(String, Vec<((u32, u32), Option<String>)>)>) -> (r: Vec<FormulaDependency>)
    ensures
        strictly_sorted::<FormulaDependency>(recs_view(r@)),
        forall|y: EdgeV| recs_view(r@).contains(y) <==> all_edges(sheets_view(sheets@)).contains(y),
{
    let ghost sv = sheets_view(sheets@);
    let mut edges: Vec<FormulaDependency> = Vec::new();
    let mut s: usize = 0;
    proof {
        assert(sv.subrange(0, 0) =~= Seq::<(Seq<char>, CellsV)>::empty());
    }
    while s < sheets.len()
        invariant
            0 <= s <= sheets@.len(),
            sv == sheets_view(sheets@),
            sv.len() == sheets@.len(),
            strictly_sorted::<FormulaDependency>(recs_view(edges@)),
            forall|y: EdgeV| recs_view(edges@).contains(y) <==> all_edges(sv.subrange(0, s as int)).contains(y),
        decreases sheets@.len() - s,
    {
        let name = &sheets[s].0;
        let host = string_chars(name);
        let cells = &sheets[s].1;
        let ghost cv = cells_view(cells@);
        let ghost base = all_edges(sv.subrange(0, s as int));
        proof {
            assert(sv[s as int] == (name@, cv));
            assert(cv.subrange(0, 0) =~= Seq::<((u32, u32), Option<Seq<char>>)>::empty());
            assert forall|y: EdgeV| recs_view(edges@).contains(y) <==> (base + sheet_edges(name@, cv.subrange(0, 0))).contains(y) by {
                assert(base + sheet_edges(name@, cv.subrange(0, 0)) =~= base);
            }
        }
        let mut c: usize = 0;
        while c < cells.len()
            invariant
                0 <= c <= cells@.len(),
                cv == cells_view(cells@),
                cv.len() == cells@.len(),
                host@ == name@,
                strictly_sorted::<FormulaDependency>(recs_view(edges@)),
                forall|y: EdgeV| recs_view(edges@).contains(y) <==> (base + sheet_edges(name@, cv.subrange(0, c as int))).contains(y),
            decreases cells@.len() - c,
        {
            let ghost pre = cv.subrange(0, c + 1);
            let ghost prev_all = base + sheet_edges(name@, cv.subrange(0, c as int));
            proof {
                assert(pre.drop_last() =~= cv.subrange(0, c as int));
                assert(pre.last() == cv[c as int]);
                assert(base + sheet_edges(name@, pre) =~= prev_all + cell_edges(name@, cv[c as int]));
            }
            insert_cell_edges(&mut edges, name, &host, &cells[c]);
            proof {
                let ce = cell_edges(name@, cv[c as int]);
                assert(cv[c as int] == cell_view(cells@[c as int]));
                assert forall|y: EdgeV| recs_view(edges@).contains(y) <==> (base + sheet_edges(name@, pre)).contains(y) by {
                    lemma_contains_concat(prev_all, ce, y);
                }
            }
            c = c + 1;
        }
        proof {
            assert(cv.subrange(0, cv.len() as int) =~= cv);
            let pre = sv.subrange(0, s + 1);
            assert(pre.drop_last() =~= sv.subrange(0, s as int));
            assert(pre.last() == sv[s as int]);
        }
        s = s + 1;
    }
    proof {
        assert(sv.subrange(0, sv.len() as int) =~= sv);
    }
    edges
}

// ── Input and output candidates ──────────────────────────────────────────

/// An input or output candidate of a snapshot: a sheet, a cell (or the
/// first cell of a range), and what it is: `cell`, `range` or `formula`.
pub struct FormulaIoCandidate {
    pub sheet: String,
    pub row: u32,
    pub col: u32,
    pub kind: &'static str,
}

/// A candidate as values.
pub type CandV = (Seq<char>, u32, u32, Seq<char>);

/// The order candidates are listed in: by sheet (ignoring ASCII case),
/// row, column and kind, the sheet as written breaking a tie.
pub open spec fn cand_lt(a: CandV, b: CandV) -> bool {
    let (la, lb) = (seq_ascii_lower(a.0), seq_ascii_lower(b.0));
    if la != lb {
        text_lt(la, lb)
    } else if a.1 != b.1 {
        a.1 < b.1
    } else if a.2 != b.2 {
        a.2 < b.2
    } else if a.3 != b.3 {
        text_lt(a.3, b.3)
    } else {
        text_lt(a.0, b.0)
    }
}

impl SortedRecord for FormulaIoCandidate {
    type V = CandV;

    open spec fn rec_view(&self) -> CandV {
        (self.sheet@, self.row, self.col, self.kind@)
    }

    open spec fn rec_lt(a: CandV, b: CandV) -> bool {
        cand_lt(a, b)
    }

    proof fn lemma_rec_order(a: CandV, b: CandV, c: CandV) {
        lemma_text_order(seq_ascii_lower(a.0), seq_ascii_lower(b.0), seq_ascii_lower(c.0));
        lemma_text_order(a.3, b.3, c.3);
        lemma_text_order(a.0, b.0, c.0);
    }

    fn rec_less(&self, other: &Self) -> (r: bool) {
        let (se, sl) = lower_less(&self.sheet, &other.sheet);
        if !se {
            return sl;
        }
        if self.row != other.row {
            return self.row < other.row;
        }
        if self.col != other.col {
            return self.col < other.col;
        }
        let (ke, kl) = str_less(self.kind, other.kind);
        if !ke {
            return kl;
        }
        let (_, rl) = str_less(self.sheet.as_str(), other.sheet.as_str());
        rl
    }

    fn rec_same(&self, other: &Self) -> (r: bool) {
        let (se, _) = str_less(self.sheet.as_str(), other.sheet.as_str());
        let (ke, _) = str_less(self.kind, other.kind);
        se && ke && self.row == other.row && self.col == other.col
    }
}

/// The cells holding a formula (parsed or not), as `(lowercased sheet,
/// row, column)`.
pub open spec fn formula_cell_keys(sheets: Seq<(Seq<char>, CellsV)>) -> Seq<(Seq<char>, u32, u32)>
    decreases sheets.len(),
{
    if sheets.len() == 0 {
        Seq::empty()
    } else {
        formula_cell_keys(sheets.drop_last()) + sheet_formula_keys(sheets.last().0, sheets.last().1)
    }
}

pub open spec fn sheet_formula_keys(name: Seq<char>, cells: CellsV) -> Seq<(Seq<char>, u32, u32)>
    decreases cells.len(),
{
    if cells.len() == 0 {
        Seq::empty()
    } else {
        let prev = sheet_formula_keys(name, cells.drop_last());
        if cells.last().1 is Some {
            prev.push((seq_ascii_lower(name), cells.last().0.0, cells.last().0.1))
        } else {
            prev
        }
    }
}

/// An edge is an input unless it reads a single cell that holds a formula.
pub open spec fn is_input(e: EdgeV, fc: Seq<(Seq<char>, u32, u32)>) -> bool {
    !(e.4 == "cell"@ && fc.contains((seq_ascii_lower(e.3), e.5, e.6)))
}

/// The candidate an input edge names: its target sheet, first cell and
/// kind.
pub open spec fn input_of(e: EdgeV) -> CandV {
    (e.3, e.5, e.6, e.4)
}

/// The edge reads the formula cell `k` directly or through a range.
pub open spec fn edge_hits(e: EdgeV, k: (Seq<char>, u32, u32)) -> bool {
    seq_ascii_lower(e.3) == k.0 && if e.4 == "cell"@ {
        e.5 == k.1 && e.6 == k.2
    } else {
        e.5 <= k.1 && e.6 <= k.2 && e.7 >= k.1 && e.8 >= k.2
    }
}

/// Some edge reads the formula cell `k`.
pub open spec fn referenced(edges: Seq<EdgeV>, k: (Seq<char>, u32, u32)) -> bool {
    exists|i: int| 0 <= i < edges.len() && #[trigger] edge_hits(edges[i], k)
}

/// The input candidates: every edge not reading a formula cell, as its
/// target.
pub open spec fn is_input_candidate(sheets: Seq<(Seq<char>, CellsV)>, y: CandV) -> bool {
    exists|e: EdgeV| #[trigger] all_edges(sheets).contains(e) && is_input(e, formula_cell_keys(sheets)) && input_of(e) == y
}

/// The output candidate a formula cell names.
pub open spec fn output_of(k: (Seq<char>, u32, u32)) -> CandV {
    (k.0, k.1, k.2, "formula"@)
}

/// The output candidates: every formula cell that no edge reads.
pub open spec fn is_output_candidate(sheets: Seq<(Seq<char>, CellsV)>, y: CandV) -> bool {
    exists|k: (Seq<char>, u32, u32)| #[trigger] formula_cell_keys(sheets).contains(k) && !referenced(all_edges(sheets), k)
        && y == (k.0, k.1, k.2, "formula"@)
}

fn keys_contain(keys: &Vec<(Vec<char>, u32, u32)>, s: &Vec<char>, r: u32, c: u32) -> (b: bool)
    ensures
        b == keys@.map_values(|k: (Vec<char>, u32, u32)| (k.0@, k.1, k.2)).contains((s@, r, c)),
{
    let ghost kv = keys@.map_values(|k: (Vec<char>, u32, u32)| (k.0@, k.1, k.2));
    let mut i: usize = 0;
    while i < keys.len()
        invariant
            0 <= i <= keys@.len(),
            kv == keys@.map_values(|k: (Vec<char>, u32, u32)| (k.0@, k.1, k.2)),
            forall|j: int| 0 <= j < i ==> kv[j] != (s@, r, c),
        decreases keys@.len() - i,
    {
        if keys[i].1 == r && keys[i].2 == c && chars_eq(&keys[i].0, s) {
            proof {
                assert(kv[i as int] == (s@, r, c));
            }
            return true;
        }
        i = i + 1;
    }
    false
}

fn collect_formula_keys(sheets: &Vec<(String, Vec<((u32, u32), Option<String>)>)>) -> (r: Vec<(Vec<char>, u32, u32)>)
    ensures
        r@.map_values(|k: (Vec<char>, u32, u32)| (k.0@, k.1, k.2)) == formula_cell_keys(sheets_view(sheets@)),
{
    let ghost sv = sheets_view(sheets@);
    let mut keys: Vec<(Vec<char>, u32, u32)> = Vec::new();
    let mut s: usize = 0;
    proof {
        assert(sv.subrange(0, 0) =~= Seq::<(Seq<char>, CellsV)>::empty());
        assert(keys@.map_values(|k: (Vec<char>, u32, u32)| (k.0@, k.1, k.2)) =~= formula_cell_keys(sv.subrange(0, 0)));
    }
    while s < sheets.len()
        invariant
            0 <= s <= sheets@.len(),
            sv == sheets_view(sheets@),
            sv.len() == sheets@.len(),
            keys@.map_values(|k: (Vec<char>, u32, u32)| (k.0@, k.1, k.2)) == formula_cell_keys(sv.subrange(0, s as int)),
        decreases sheets@.len() - s,
    {
        let lower = chars_ascii_lower(&string_chars(&sheets[s].0));
        let cells = &sheets[s].1;
        let ghost cv = cells_view(cells@);
        let ghost name = sheets@[s as int].0@;
        let ghost base = formula_cell_keys(sv.subrange(0, s as int));
        proof {
            assert(sv[s as int] == (name, cv));
            assert(cv.subrange(0, 0) =~= Seq::<((u32, u32), Option<Seq<char>>)>::empty());
            assert(keys@.map_values(|k: (Vec<char>, u32, u32)| (k.0@, k.1, k.2)) =~= base + sheet_formula_keys(name, cv.subrange(0, 0)));
        }
        let mut c: usize = 0;
        while c < cells.len()
            invariant
                0 <= c <= cells@.len(),
                cv == cells_view(cells@),
                cv.len() == cells@.len(),
                lower@ == seq_ascii_lower(name),
                keys@.map_values(|k: (Vec<char>, u32, u32)| (k.0@, k.1, k.2)) == base + sheet_formula_keys(name, cv.subrange(0, c as int)),
            decreases cells@.len() - c,
        {
            let ghost pre = cv.subrange(0, c + 1);
            let ghost prev = keys@.map_values(|k: (Vec<char>, u32, u32)| (k.0@, k.1, k.2));
            proof {
                assert(pre.drop_last() =~= cv.subrange(0, c as int));
                assert(pre.last() == cv[c as int]);
            }
            if cells[c].1.is_some() {
                let pos = cells[c].0;
                keys.push((lower.clone(), pos.0, pos.1));
                proof {
                    assert(keys@.map_values(|k: (Vec<char>, u32, u32)| (k.0@, k.1, k.2)) =~= prev.push((lower@, pos.0, pos.1)));
                }
            }
            proof {
                assert(keys@.map_values(|k: (Vec<char>, u32, u32)| (k.0@, k.1, k.2)) =~= base + sheet_formula_keys(name, pre));
            }
            c = c + 1;
        }
        proof {
            assert(cv.subrange(0, cv.len() as int) =~= cv);
            let p = sv.subrange(0, s + 1);
            assert(p.drop_last() =~= sv.subrange(0, s as int));
            assert(p.last() == sv[s as int]);
        }
        s = s + 1;
    }
    proof {
        assert(sv.subrange(0, sv.len() as int) =~= sv);
    }
    keys
}

fn edge_hits_exec(e: &FormulaDependency, k: &(Vec<char>, u32, u32)) -> (b: bool)
    ensures
        b == edge_hits(e.rec_view(), (k.0@, k.1, k.2)),
{
    let t = chars_ascii_lower(&string_chars(&e.target_sheet));
    if !chars_eq(&t, &k.0) {
        return false;
    }
    let (is_cell, _) = str_less(e.target_kind, "cell");
    if is_cell {
        e.target_row == k.1 && e.target_col == k.2
    } else {
        e.target_row <= k.1 && e.target_col <= k.2 && e.target_end_row >= k.1 && e.target_end_col >= k.2
    }
}

/// The input and output candidates of a snapshot: inputs are what the
/// formulas read, except single cells that hold a formula, each once with
/// ranges kept whole; outputs are the formula cells that no formula reads.
/// Both are listed in `cand_lt` order.
pub fn formula_io_candidates(sheets: &Vec<(String, Vec<((u32, u32), Option<String>)>)>) -> (r: (Vec<FormulaIoCandidate>, Vec<FormulaIoCandidate>))
    ensures
        strictly_sorted::<FormulaIoCandidate>(recs_view(r.0@)),
        forall|y: CandV| recs_view(r.0@).contains(y) <==> is_input_candidate(sheets_view(sheets@), y),
        strictly_sorted::<FormulaIoCandidate>(recs_view(r.1@)),
        forall|y: CandV| recs_view(r.1@).contains(y) <==> is_output_candidate(sheets_view(sheets@), y),
{
    let ghost sv = sheets_view(sheets@);
    let edges = formula_dependencies(sheets);
    let ghost ev = recs_view(edges@);
    let keys = collect_formula_keys(sheets);
    let ghost kv = keys@.map_values(|k: (Vec<char>, u32, u32)| (k.0@, k.1, k.2));
    let mut inputs: Vec<FormulaIoCandidate> = Vec::new();
    let mut i: usize = 0;
    while i < edges.len()
        invariant
            0 <= i <= edges@.len(),
            ev == recs_view(edges@),
            ev.len() == edges@.len(),
            kv == keys@.map_values(|k: (Vec<char>, u32, u32)| (k.0@, k.1, k.2)),
            kv == formula_cell_keys(sv),
            strictly_sorted::<FormulaIoCandidate>(recs_view(inputs@)),
            forall|y: CandV| recs_view(inputs@).contains(y) <==> (exists|j: int| 0 <= j < i && is_input(ev[j], kv) && input_of(#[trigger] ev[j]) == y),
        decreases edges@.len() - i,
    {
        let ghost before = recs_view(inputs@);
        assert(forall|y: CandV| before.contains(y) <==> (exists|j: int| 0 <= j < i && is_input(ev[j], kv) && input_of(#[trigger] ev[j]) == y));
        let e = &edges[i];
        let (is_cell, _) = str_less(e.target_kind, "cell");
        let target = chars_ascii_lower(&string_chars(&e.target_sheet));
        let skip = is_cell && keys_contain(&keys, &target, e.target_row, e.target_col);
        proof {
            assert(ev[i as int] == e.rec_view());
            assert(skip == !is_input(ev[i as int], kv));
        }
        if !skip {
            let cand = FormulaIoCandidate { sheet: e.target_sheet.clone(), row: e.target_row, col: e.target_col, kind: e.target_kind };
            proof {
                assert(cand.rec_view() == input_of(ev[i as int]));
            }
            insert_record(&mut inputs, cand);
        }
        proof {
            assert forall|y: CandV| recs_view(inputs@).contains(y) <==> (exists|j: int| 0 <= j < i + 1 && is_input(ev[j], kv) && input_of(#[trigger] ev[j]) == y) by {
                if recs_view(inputs@).contains(y) && !before.contains(y) {
                    assert(is_input(ev[i as int], kv) && input_of(ev[i as int]) == y);
                }
                if exists|j: int| 0 <= j < i + 1 && is_input(ev[j], kv) && input_of(#[trigger] ev[j]) == y {
                    let j = choose|j: int| 0 <= j < i + 1 && is_input(ev[j], kv) && input_of(#[trigger] ev[j]) == y;
                    if j < i {
                        assert(before.contains(y));
                    }
                }
            }
        }
        i = i + 1;
    }
    proof {
        assert forall|y: CandV| recs_view(inputs@).contains(y) <==> is_input_candidate(sv, y) by {
            if recs_view(inputs@).contains(y) {
                let j = choose|j: int| 0 <= j < edges@.len() && is_input(ev[j], kv) && input_of(#[trigger] ev[j]) == y;
                assert(ev.contains(ev[j]));
                assert(all_edges(sv).contains(ev[j]));
            }
            if is_input_candidate(sv, y) {
                let e = choose|e: EdgeV| #[trigger] all_edges(sv).contains(e) && is_input(e, formula_cell_keys(sv)) && input_of(e) == y;
                assert(ev.contains(e));
                let j = choose|j: int| 0 <= j < ev.len() && ev[j] == e;
                assert(is_input(ev[j], kv) && input_of(ev[j]) == y);
            }
        }
        assert forall|k: (Seq<char>, u32, u32)| referenced(ev, k) <==> referenced(all_edges(sv), k) by {
            let a = all_edges(sv);
            if referenced(ev, k) {
                let i = choose|i: int| 0 <= i < ev.len() && #[trigger] edge_hits(ev[i], k);
                assert(ev.contains(ev[i]));
                assert(a.contains(ev[i]));
                let j = choose|j: int| 0 <= j < a.len() && a[j] == ev[i];
                assert(edge_hits(a[j], k));
            }
            if referenced(a, k) {
                let i = choose|i: int| 0 <= i < a.len() && #[trigger] edge_hits(a[i], k);
                assert(a.contains(a[i]));
                assert(ev.contains(a[i]));
                let j = choose|j: int| 0 <= j < ev.len() && ev[j] == a[i];
                assert(edge_hits(ev[j], k));
            }
        }
    }
    let mut outputs: Vec<FormulaIoCandidate> = Vec::new();
    let mut k: usize = 0;
    while k < keys.len()
        invariant
            0 <= k <= keys@.len(),
            ev == recs_view(edges@),
            ev.len() == edges@.len(),
            kv == keys@.map_values(|k: (Vec<char>, u32, u32)| (k.0@, k.1, k.2)),
            kv.len() == keys@.len(),
            strictly_sorted::<FormulaIoCandidate>(recs_view(outputs@)),
            forall|y: CandV| recs_view(outputs@).contains(y) <==> (exists|j: int| 0 <= j < k && !referenced(ev, kv[j]) && y == output_of(#[trigger] kv[j])),
        decreases keys@.len() - k,
    {
        let ghost before = recs_view(outputs@);
        assert(forall|y: CandV| before.contains(y) <==> (exists|j: int| 0 <= j < k && !referenced(ev, kv[j]) && y == output_of(#[trigger] kv[j])));
        let mut hit = false;
        let mut i: usize = 0;
        while i < edges.len()
            invariant
                0 <= i <= edges@.len(),
                ev == recs_view(edges@),
                ev.len() == edges@.len(),
                k < keys@.len(),
                kv == keys@.map_values(|k: (Vec<char>, u32, u32)| (k.0@, k.1, k.2)),
                hit == (exists|j: int| 0 <= j < i && #[trigger] edge_hits(ev[j], kv[k as int])),
            decreases edges@.len() - i,
        {
            let h = edge_hits_exec(&edges[i], &keys[k]);
            proof {
                assert(ev[i as int] == edges@[i as int].rec_view());
                assert(kv[k as int] == (keys@[k as int].0@, keys@[k as int].1, keys@[k as int].2));
                if h {
                    assert(edge_hits(ev[i as int], kv[k as int]));
                }
            }
            hit = hit || h;
            i = i + 1;
        }
        proof {
            assert(hit == referenced(ev, kv[k as int]));
        }
        if !hit {
            let sheet = string_from_chars(&keys[k].0);
            let cand = FormulaIoCandidate { sheet, row: keys[k].1, col: keys[k].2, kind: "formula" };
            proof {
                assert(cand.rec_view() == output_of(kv[k as int]));
            }
            insert_record(&mut outputs, cand);
        }
        proof {
            assert forall|y: CandV| recs_view(outputs@).contains(y) <==> (exists|j: int| 0 <= j < k + 1 && !referenced(ev, kv[j]) && y == output_of(#[trigger] kv[j])) by {
                if recs_view(outputs@).contains(y) && !before.contains(y) {
                    assert(!referenced(ev, kv[k as int]) && y == output_of(kv[k as int]));
                }
                if exists|j: int| 0 <= j < k + 1 && !referenced(ev, kv[j]) && y == output_of(#[trigger] kv[j]) {
                    let j = choose|j: int| 0 <= j < k + 1 && !referenced(ev, kv[j]) && y == output_of(#[trigger] kv[j]);
                    if j < k {
                        assert(before.contains(y));
                    }
                }
            }
        }
        k = k + 1;
    }
    proof {
        assert forall|y: CandV| recs_view(outputs@).contains(y) <==> is_output_candidate(sv, y) by {
            if recs_view(outputs@).contains(y) {
                let j = choose|j: int| 0 <= j < keys@.len() && !referenced(ev, kv[j]) && y == output_of(#[trigger] kv[j]);
                assert(kv.contains(kv[j]));
                assert(formula_cell_keys(sv).contains(kv[j]));
            }
            if is_output_candidate(sv, y) {
                let key = choose|key: (Seq<char>, u32, u32)| #[trigger] formula_cell_keys(sv).contains(key) && !referenced(all_edges(sv), key)
                    && y == (key.0, key.1, key.2, "formula"@);
                let j = choose|j: int| 0 <= j < kv.len() && kv[j] == key;
                assert(!referenced(ev, kv[j]) && y == output_of(kv[j]));
            }
        }
    }
    (inputs, outputs)
}

// ── Diagnostics ──────────────────────────────────────────────────────────

/// Why the edge list is incomplete at a cell: its formula does not parse,
/// or it reads a sheet the workbook lacks; or (with no cell) the graph has
/// a cycle.
pub struct FormulaDependencyDiagnostic {
    pub source_sheet: String,
    pub source_row: u32,
    pub source_col: u32,
    pub kind: &'static str,
    pub detail: String,
}

/// A diagnostic as values: sheet, row, column, kind, detail.
pub type DiagV = (Seq<char>, u32, u32, Seq<char>, Seq<char>);

/// The order diagnostics are listed in: by sheet (ignoring ASCII case),
/// row, column, kind and detail, the sheet as written breaking a tie.
pub open spec fn diag_lt(a: DiagV, b: DiagV) -> bool {
    let (la, lb) = (seq_ascii_lower(a.0), seq_ascii_lower(b.0));
    if la != lb {
        text_lt(la, lb)
    } else if a.1 != b.1 {
        a.1 < b.1
    } else if a.2 != b.2 {
        a.2 < b.2
    } else if a.3 != b.3 {
        text_lt(a.3, b.3)
    } else if a.4 != b.4 {
        text_lt(a.4, b.4)
    } else {
        text_lt(a.0, b.0)
    }
}

impl SortedRecord for FormulaDependencyDiagnostic {
    type V = DiagV;

    open spec fn rec_view(&self) -> DiagV {
        (self.source_sheet@, self.source_row, self.source_col, self.kind@, self.detail@)
    }

    open spec fn rec_lt(a: DiagV, b: DiagV) -> bool {
        diag_lt(a, b)
    }

    proof fn lemma_rec_order(a: DiagV, b: DiagV, c: DiagV) {
        lemma_text_order(seq_ascii_lower(a.0), seq_ascii_lower(b.0), seq_ascii_lower(c.0));
        lemma_text_order(a.3, b.3, c.3);
        lemma_text_order(a.4, b.4, c.4);
        lemma_text_order(a.0, b.0, c.0);
    }

    fn rec_less(&self, other: &Self) -> (r: bool) {
        let (se, sl) = lower_less(&self.source_sheet, &other.source_sheet);
        if !se {
            return sl;
        }
        if self.source_row != other.source_row {
            return self.source_row < other.source_row;
        }
        if self.source_col != other.source_col {
            return self.source_col < other.source_col;
        }
        let (ke, kl) = str_less(self.kind, other.kind);
        if !ke {
            return kl;
        }
        let (de, dl) = str_less(self.detail.as_str(), other.detail.as_str());
        if !de {
            return dl;
        }
        let (_, rl) = str_less(self.source_sheet.as_str(), other.source_sheet.as_str());
        rl
    }

    fn rec_same(&self, other: &Self) -> (r: bool) {
        let (se, _) = str_less(self.source_sheet.as_str(), other.source_sheet.as_str());
        let (ke, _) = str_less(self.kind, other.kind);
        let (de, _) = str_less(self.detail.as_str(), other.detail.as_str());
        se && ke && de && self.source_row == other.source_row && self.source_col == other.source_col
    }
}

/// The sheet a reference reads.
pub open spec fn dep_sheet(d: DepV) -> Seq<char> {
    match d {
        DepV::Cell { sheet, .. } => sheet,
        DepV::Range { sheet, .. } => sheet,
    }
}

/// One `unresolved_sheet` diagnostic per reference to a sheet not in
/// `keys`.
pub open spec fn unresolved_diags(deps: Seq<DepV>, name: Seq<char>, row: u32, col: u32, keys: Seq<Seq<char>>) -> Seq<DiagV>
    decreases deps.len(),
{
    if deps.len() == 0 {
        Seq::empty()
    } else {
        let prev = unresolved_diags(deps.drop_last(), name, row, col, keys);
        let t = dep_sheet(deps.last());
        if keys.contains(t) {
            prev
        } else {
            prev.push((name, row, col, "unresolved_sheet"@, t))
        }
    }
}

/// The diagnostics of one cell.
pub open spec fn cell_diags(name: Seq<char>, cell: ((u32, u32), Option<Seq<char>>), keys: Seq<Seq<char>>) -> Seq<DiagV> {
    match cell.1 {
        Some(f) => match spec_parse_with_refs(f) {
            Ok((e, _)) => unresolved_diags(expr_deps(e, name), name, cell.0.0, cell.0.1, keys),
            Err(_) => seq![(name, cell.0.0, cell.0.1, "parse_error"@, "formula could not be parsed"@)],
        },
        None => Seq::empty(),
    }
}

pub open spec fn sheet_diags(name: Seq<char>, cells: CellsV, keys: Seq<Seq<char>>) -> Seq<DiagV>
    decreases cells.len(),
{
    if cells.len() == 0 {
        Seq::empty()
    } else {
        sheet_diags(name, cells.drop_last(), keys) + cell_diags(name, cells.last(), keys)
    }
}

pub open spec fn all_diags(sheets: Seq<(Seq<char>, CellsV)>, keys: Seq<Seq<char>>) -> Seq<DiagV>
    decreases sheets.len(),
{
    if sheets.len() == 0 {
        Seq::empty()
    } else {
        all_diags(sheets.drop_last(), keys) + sheet_diags(sheets.last().0, sheets.last().1, keys)
    }
}

/// The workbook's sheet keys: its sheet names lowercased.
pub open spec fn sheet_keys(sheets: Seq<(Seq<char>, CellsV)>) -> Seq<Seq<char>> {
    sheets.map_values(|s: (Seq<char>, CellsV)| seq_ascii_lower(s.0))
}

/// The diagnostic of a cyclic graph.
pub open spec fn cycle_diag() -> DiagV {
    (Seq::empty(), 0, 0, "cycle"@, "formula dependency graph contains a cycle"@)
}

/// Every diagnostic of a workbook.
pub open spec fn is_diagnostic(sheets: Seq<(Seq<char>, CellsV)>, y: DiagV) -> bool {
    ||| all_diags(sheets, sheet_keys(sheets)).contains(y)
    ||| y == cycle_diag() && has_cycle(node_graph(all_nodes(sheets)), all_nodes(sheets).len() as int)
}

fn texts_contain(keys: &Vec<Vec<char>>, t: &Vec<char>) -> (b: bool)
    ensures
        b == keys@.map_values(|k: Vec<char>| k@).contains(t@),
{
    let ghost kv = keys@.map_values(|k: Vec<char>| k@);
    let mut i: usize = 0;
    while i < keys.len()
        invariant
            0 <= i <= keys@.len(),
            kv == keys@.map_values(|k: Vec<char>| k@),
            forall|j: int| 0 <= j < i ==> kv[j] != t@,
        decreases keys@.len() - i,
    {
        if chars_eq(&keys[i], t) {
            proof {
                assert(kv[i as int] == t@);
            }
            return true;
        }
        i = i + 1;
    }
    false
}

fn insert_unresolved(
    out: &mut Vec<FormulaDependencyDiagnostic>,
    deps: &Vec<Dep>,
    name: &String,
    row: u32,
    col: u32,
    keys: &Vec<Vec<char>>,
)
    requires
        strictly_sorted::<FormulaDependencyDiagnostic>(recs_view(old(out)@)),
    ensures
        strictly_sorted::<FormulaDependencyDiagnostic>(recs_view(final(out)@)),
        forall|y: DiagV| recs_view(final(out)@).contains(y) <==> (recs_view(old(out)@).contains(y)
            || unresolved_diags(deps_view(deps@), name@, row, col, keys@.map_values(|k: Vec<char>| k@)).contains(y)),
{
    let ghost dv = deps_view(deps@);
    let ghost kv = keys@.map_values(|k: Vec<char>| k@);
    let ghost base = recs_view(out@);
    let mut i: usize = 0;
    proof {
        assert(dv.subrange(0, 0) =~= Seq::<DepV>::empty());
    }
    while i < deps.len()
        invariant
            0 <= i <= deps@.len(),
            dv == deps_view(deps@),
            dv.len() == deps@.len(),
            kv == keys@.map_values(|k: Vec<char>| k@),
            strictly_sorted::<FormulaDependencyDiagnostic>(recs_view(out@)),
            forall|y: DiagV| recs_view(out@).contains(y) <==> (base.contains(y) || unresolved_diags(
                dv.subrange(0, i as int),
                name@,
                row,
                col,
                kv,
            ).contains(y)),
        decreases deps@.len() - i,
    {
        let ghost before = recs_view(out@);
        let ghost prev = unresolved_diags(dv.subrange(0, i as int), name@, row, col, kv);
        assert(forall|y: DiagV| before.contains(y) <==> (base.contains(y) || prev.contains(y)));
        let ghost pre = dv.subrange(0, i + 1);
        proof {
            assert(pre.drop_last() =~= dv.subrange(0, i as int));
            assert(pre.last() == deps@[i as int].view());
        }
        let t: &Vec<char> = match &deps[i] {
            Dep::Cell { sheet, .. } => sheet,
            Dep::Range { sheet, .. } => sheet,
        };
        proof {
            assert(t@ == dep_sheet(deps@[i as int].view()));
        }
        if !texts_contain(keys, t) {
            let rec = FormulaDependencyDiagnostic {
                source_sheet: name.clone(),
                source_row: row,
                source_col: col,
                kind: "unresolved_sheet",
                detail: string_from_chars(t),
            };
            let ghost rv = rec.rec_view();
            insert_record(out, rec);
            proof {
                assert(unresolved_diags(pre, name@, row, col, kv) == prev.push(rv));
                assert forall|y: DiagV| recs_view(out@).contains(y) <==> (base.contains(y) || unresolved_diags(pre, name@, row, col, kv).contains(y)) by {
                    lemma_contains_push(prev, rv, y);
                }
            }
        } else {
            proof {
                assert(unresolved_diags(pre, name@, row, col, kv) == prev);
            }
        }
        i = i + 1;
    }
    proof {
        assert(dv.subrange(0, dv.len() as int) =~= dv);
    }
}

fn insert_cell_diags(
    out: &mut Vec<FormulaDependencyDiagnostic>,
    name: &String,
    host: &Vec<char>,
    cell: &((u32, u32), Option<String>),
    keys: &Vec<Vec<char>>,
)
    requires
        host@ == name@,
        strictly_sorted::<FormulaDependencyDiagnostic>(recs_view(old(out)@)),
    ensures
        strictly_sorted::<FormulaDependencyDiagnostic>(recs_view(final(out)@)),
        forall|y: DiagV| recs_view(final(out)@).contains(y) <==> (recs_view(old(out)@).contains(y)
            || cell_diags(name@, cell_view(*cell), keys@.map_values(|k: Vec<char>| k@)).contains(y)),
{
    let ghost base = recs_view(out@);
    let (pos, formula) = cell;
    match formula {
        Some(src) => {
            match parse(src.as_str()) {
                Ok(e) => {
                    let mut deps: Vec<Dep> = Vec::new();
                    collect_deps(&e, host, &mut deps);
                    proof {
                        assert(deps_view(Seq::<Dep>::empty()) =~= Seq::<DepV>::empty());
                        assert(deps_view(deps@) =~= expr_deps(view_expr(e), name@));
                    }
                    insert_unresolved(out, &deps, name, pos.0, pos.1, keys);
                },
                Err(_) => {
                    let mut detail: Vec<char> = Vec::new();
                    crate::text::push_str_chars(&mut detail, "formula could not be parsed");
                    let rec = FormulaDependencyDiagnostic {
                        source_sheet: name.clone(),
                        source_row: pos.0,
                        source_col: pos.1,
                        kind: "parse_error",
                        detail: string_from_chars(&detail),
                    };
                    let ghost rv = rec.rec_view();
                    insert_record(out, rec);
                    proof {
                        assert forall|y: DiagV| recs_view(out@).contains(y) <==> (base.contains(y)
                            || cell_diags(name@, cell_view(*cell), keys@.map_values(|k: Vec<char>| k@)).contains(y)) by {
                            lemma_contains_push(Seq::<DiagV>::empty(), rv, y);
                            assert(seq![rv] =~= Seq::<DiagV>::empty().push(rv));
                        }
                    }
                },
            }
        },
        None => {},
    }
}

/// What keeps the edge list from being complete: each formula that does
/// not parse, each sheet a formula reads that the workbook lacks (once per
/// cell), and a cycle in the graph; each once, in `diag_lt` order.
pub fn formula_dependency_diagnostics(sheets: &Vec<(String, Vec<((u32, u32), Option<String>)>)>) -> (r: Vec<FormulaDependencyDiagnostic>)
    ensures
        strictly_sorted::<FormulaDependencyDiagnostic>(recs_view(r@)),
        forall|y: DiagV| recs_view(r@).contains(y) <==> is_diagnostic(sheets_view(sheets@), y),
{
    let ghost sv = sheets_view(sheets@);
    let mut keys: Vec<Vec<char>> = Vec::new();
    let mut s: usize = 0;
    while s < sheets.len()
        invariant
            0 <= s <= sheets@.len(),
            sv == sheets_view(sheets@),
            sv.len() == sheets@.len(),
            keys@.map_values(|k: Vec<char>| k@) == sheet_keys(sv.subrange(0, s as int)),
        decreases sheets@.len() - s,
    {
        let ghost prev = keys@.map_values(|k: Vec<char>| k@);
        let low = chars_ascii_lower(&string_chars(&sheets[s].0));
        keys.push(low);
        proof {
            assert(sv[s as int].0 == sheets@[s as int].0@);
            assert(keys@.map_values(|k: Vec<char>| k@) =~= prev.push(low@));
            assert(sheet_keys(sv.subrange(0, s + 1)) =~= sheet_keys(sv.subrange(0, s as int)).push(seq_ascii_lower(sv[s as int].0)));
        }
        s = s + 1;
    }
    let ghost kv = keys@.map_values(|k: Vec<char>| k@);
    proof {
        assert(sv.subrange(0, sv.len() as int) =~= sv);
        assert(kv == sheet_keys(sv));
        assert(sv.subrange(0, 0) =~= Seq::<(Seq<char>, CellsV)>::empty());
    }
    let mut out: Vec<FormulaDependencyDiagnostic> = Vec::new();
    let mut s: usize = 0;
    while s < sheets.len()
        invariant
            0 <= s <= sheets@.len(),
            sv == sheets_view(sheets@),
            sv.len() == sheets@.len(),
            kv == keys@.map_values(|k: Vec<char>| k@),
            strictly_sorted::<FormulaDependencyDiagnostic>(recs_view(out@)),
            forall|y: DiagV| recs_view(out@).contains(y) <==> all_diags(sv.subrange(0, s as int), kv).contains(y),
        decreases sheets@.len() - s,
    {
        let name = &sheets[s].0;
        let host = string_chars(name);
        let cells = &sheets[s].1;
        let ghost cv = cells_view(cells@);
        let ghost base = all_diags(sv.subrange(0, s as int), kv);
        proof {
            assert(sv[s as int] == (name@, cv));
            assert(cv.subrange(0, 0) =~= Seq::<((u32, u32), Option<Seq<char>>)>::empty());
            assert(base + sheet_diags(name@, cv.subrange(0, 0), kv) =~= base);
        }
        let mut c: usize = 0;
        while c < cells.len()
            invariant
                0 <= c <= cells@.len(),
                cv == cells_view(cells@),
                cv.len() == cells@.len(),
                host@ == name@,
                kv == keys@.map_values(|k: Vec<char>| k@),
                strictly_sorted::<FormulaDependencyDiagnostic>(recs_view(out@)),
                forall|y: DiagV| recs_view(out@).contains(y) <==> (base + sheet_diags(name@, cv.subrange(0, c as int), kv)).contains(y),
            decreases cells@.len() - c,
        {
            let ghost pre = cv.subrange(0, c + 1);
            let ghost prev_all = base + sheet_diags(name@, cv.subrange(0, c as int), kv);
            let ghost before = recs_view(out@);
            assert(forall|y: DiagV| before.contains(y) <==> prev_all.contains(y));
            proof {
                assert(pre.drop_last() =~= cv.subrange(0, c as int));
                assert(pre.last() == cv[c as int]);
                assert(base + sheet_diags(name@, pre, kv) =~= prev_all + cell_diags(name@, cv[c as int], kv));
            }
            insert_cell_diags(&mut out, name, &host, &cells[c], &keys);
            proof {
                let cd = cell_diags(name@, cv[c as int], kv);
                assert(cv[c as int] == cell_view(cells@[c as int]));
                assert forall|y: DiagV| recs_view(out@).contains(y) <==> (base + sheet_diags(name@, pre, kv)).contains(y) by {
                    lemma_contains_concat(prev_all, cd, y);
                }
            }
            c = c + 1;
        }
        proof {
            assert(cv.subrange(0, cv.len() as int) =~= cv);
            let p = sv.subrange(0, s + 1);
            assert(p.drop_last() =~= sv.subrange(0, s as int));
            assert(p.last() == sv[s as int]);
        }
        s = s + 1;
    }
    proof {
        assert(sv.subrange(0, sv.len() as int) =~= sv);
    }
    let ghost before = recs_view(out@);
    assert(forall|y: DiagV| before.contains(y) <==> all_diags(sv, kv).contains(y));
    if workbook_has_formula_cycle(sheets) {
        let mut detail: Vec<char> = Vec::new();
        crate::text::push_str_chars(&mut detail, "formula dependency graph contains a cycle");
        let rec = FormulaDependencyDiagnostic {
            source_sheet: string_from_chars(&Vec::new()),
            source_row: 0,
            source_col: 0,
            kind: "cycle",
            detail: string_from_chars(&detail),
        };
        proof {
            assert(rec.rec_view() =~= cycle_diag());
        }
        insert_record(&mut out, rec);
    }
    out
}
} // verus!
