//! Workbook-level formula text preparation: structured table references
//! (`Sales[Amount]`, `Sales[@Amount]`) rewritten to the plain references
//! they stand for before a formula is parsed.

use vstd::prelude::*;
use crate::diagnostics::starts_with;
use crate::text::{
    chars_ascii_lower, chars_eq, decimal, find_from, find_sub, fmt_u64, is_ascii_alnum,
    lemma_find_sub_bounds, occurs_at, occurs_at_exec, parse_u32, parse_u32_text, push_all,
    seq_ascii_lower, slice_chars, str_chars, string_chars, string_from_chars, utf8_byte_len,
    utf8_len, ascii_alnum,
};
use crate::types::char_index;

verus! {

/// The `(pattern, replacement)` pairs as char sequences.
pub open spec fn pairs_view(ps: Seq<(String, String)>) -> Seq<(Seq<char>, Seq<char>)> {
    ps.map_values(|p: (String, String)| (p.0@, p.1@))
}

// ── Longest pattern first ────────────────────────────────────────────────

/// The first index at or after `j` whose pattern is shorter (in UTF-8
/// bytes) than `n`, or the end.
pub open spec fn first_shorter(sorted: Seq<(Seq<char>, Seq<char>)>, n: nat, j: int) -> int
    decreases sorted.len() - j,
{
    if !(0 <= j < sorted.len()) {
        sorted.len() as int
    } else if utf8_len(sorted[j].0) < n {
        j
    } else {
        first_shorter(sorted, n, j + 1)
    }
}

/// The pairs ordered by decreasing pattern length in UTF-8 bytes; pairs of
/// equal length keep their given order.
pub open spec fn longest_first(ps: Seq<(Seq<char>, Seq<char>)>) -> Seq<(Seq<char>, Seq<char>)>
    decreases ps.len(),
{
    if ps.len() == 0 {
        Seq::empty()
    } else {
        let s = longest_first(ps.drop_last());
        s.insert(first_shorter(s, utf8_len(ps.last().0), 0), ps.last())
    }
}

proof fn lemma_first_shorter_bounds(sorted: Seq<(Seq<char>, Seq<char>)>, n: nat, j: int)
    requires
        0 <= j <= sorted.len(),
    ensures
        j <= first_shorter(sorted, n, j) <= sorted.len(),
    decreases sorted.len() - j,
{
    if j < sorted.len() && utf8_len(sorted[j].0) >= n {
        lemma_first_shorter_bounds(sorted, n, j + 1);
    }
}

proof fn lemma_longest_first_len(ps: Seq<(Seq<char>, Seq<char>)>)
    ensures
        longest_first(ps).len() == ps.len(),
    decreases ps.len(),
{
    if ps.len() > 0 {
        lemma_longest_first_len(ps.drop_last());
        let s = longest_first(ps.drop_last());
        lemma_first_shorter_bounds(s, utf8_len(ps.last().0), 0);
    }
}

pub open spec fn order_view(order: Seq<usize>, pv: Seq<(Seq<char>, Seq<char>)>) -> Seq<(Seq<char>, Seq<char>)> {
    order.map_values(|k: usize| pv[k as int])
}

/// Indices of `ps` in the order `longest_first` gives.
fn sort_longest_first(ps: &Vec<(String, String)>) -> (r: Vec<usize>)
    ensures
        r@.len() == ps@.len(),
        forall|j: int| 0 <= j < r@.len() ==> #[trigger] r@[j] < ps@.len(),
        order_view(r@, pairs_view(ps@)) == longest_first(pairs_view(ps@)),
{
    let ghost pv = pairs_view(ps@);
    let mut lens: Vec<u128> = Vec::new();
    let mut i: usize = 0;
    while i < ps.len()
        invariant
            0 <= i <= ps@.len(),
            pv == pairs_view(ps@),
            lens@.len() == i,
            forall|k: int| 0 <= k < i ==> #[trigger] lens@[k] as nat == utf8_len(pv[k].0),
        decreases ps@.len() - i,
    {
        let p = string_chars(&ps[i].0);
        let n = utf8_byte_len(&p);
        lens.push(n);
        i = i + 1;
    }
    let mut order: Vec<usize> = Vec::new();
    let mut i: usize = 0;
    proof {
        assert(pv.subrange(0, 0) =~= Seq::<(Seq<char>, Seq<char>)>::empty());
        assert(order_view(order@, pv) =~= longest_first(pv.subrange(0, 0)));
    }
    while i < ps.len()
        invariant
            0 <= i <= ps@.len(),
            pv == pairs_view(ps@),
            pv.len() == ps@.len(),
            lens@.len() == ps@.len(),
            forall|k: int| 0 <= k < ps@.len() ==> #[trigger] lens@[k] as nat == utf8_len(pv[k].0),
            order@.len() == i,
            forall|j: int| 0 <= j < order@.len() ==> #[trigger] order@[j] < ps@.len(),
            order_view(order@, pv) == longest_first(pv.subrange(0, i as int)),
        decreases ps@.len() - i,
    {
        let ghost pre = pv.subrange(0, i + 1);
        let ghost s = order_view(order@, pv);
        proof {
            assert(pre.drop_last() =~= pv.subrange(0, i as int));
            assert(pre.last() == pv[i as int]);
        }
        let n = lens[i];
        proof {
            assert(lens@[i as int] as nat == utf8_len(pv[i as int].0));
        }
        let mut j: usize = 0;
        while j < order.len() && lens[order[j]] >= n
            invariant
                0 <= j <= order@.len(),
                i < ps@.len(),
                n as nat == utf8_len(pv[i as int].0),
                forall|k: int| 0 <= k < ps@.len() ==> #[trigger] lens@[k] as nat == utf8_len(pv[k].0),
                lens@.len() == ps@.len(),
                forall|k: int| 0 <= k < order@.len() ==> #[trigger] order@[k] < ps@.len(),
                s == order_view(order@, pv),
                first_shorter(s, utf8_len(pv[i as int].0), 0) == first_shorter(
                    s,
                    utf8_len(pv[i as int].0),
                    j as int,
                ),
            decreases order@.len() - j,
        {
            proof {
                assert(s[j as int] == pv[order@[j as int] as int]);
            }
            j = j + 1;
        }
        proof {
            if j < order@.len() {
                assert(s[j as int] == pv[order@[j as int] as int]);
            }
        }
        let ghost before = order@;
        order.insert(j, i);
        proof {
            assert(order@ == before.insert(j as int, i));
            assert(order_view(order@, pv) =~= s.insert(j as int, pv[i as int]));
            assert forall|k: int| 0 <= k < order@.len() implies #[trigger] order@[k] < ps@.len() by {
                if k < j {
                    assert(order@[k] == before[k]);
                } else if k > j {
                    assert(order@[k] == before[k - 1]);
                }
            }
        }
        i = i + 1;
    }
    proof {
        assert(pv.subrange(0, pv.len() as int) =~= pv);
    }
    order
}

// ── One pattern ──────────────────────────────────────────────────────────

/// The `{row}` placeholder of a this-row replacement.
pub open spec fn row_placeholder() -> Seq<char> {
    seq!['{', 'r', 'o', 'w', '}']
}

/// `s` with every occurrence of `from` (non-overlapping, left to right)
/// replaced by `to`.
pub open spec fn replace_all(s: Seq<char>, from: Seq<char>, to: Seq<char>) -> Seq<char>
    decreases s.len(),
{
    if s.len() == 0 {
        Seq::empty()
    } else if from.len() > 0 && occurs_at(s, from, 0) {
        to + replace_all(s.subrange(from.len() as int, s.len() as int), from, to)
    } else {
        seq![s[0]] + replace_all(s.drop_first(), from, to)
    }
}

/// A replacement `@sheet:SCOPE|VALUE` split into its scope and value; any
/// other replacement has no scope.
pub open spec fn split_scope(r: Seq<char>) -> (Option<Seq<char>>, Seq<char>) {
    if starts_with(r, "@sheet:"@) {
        let rest = r.subrange("@sheet:"@.len() as int, r.len() as int);
        match char_index(rest, '|', 0) {
            Some(i) => (Some(rest.subrange(0, i)), rest.subrange(i + 1, rest.len() as int)),
            None => (None, r),
        }
    } else {
        (None, r)
    }
}

/// A pattern applies to a formula on `host_sheet` at `host_row`: it has no
/// scope, or its scope `SHEET;rows:FIRST-LAST` names the host sheet (ASCII
/// case-insensitively) and the host row is within `FIRST..=LAST`.
pub open spec fn scope_applies(scope: Option<Seq<char>>, host_sheet: Seq<char>, host_row: u32) -> bool {
    match scope {
        None => true,
        Some(sc) => match find_sub(sc, ";rows:"@, 0) {
            None => false,
            Some(i) => {
                let sheet = sc.subrange(0, i);
                let band = sc.subrange(i + ";rows:"@.len(), sc.len() as int);
                match char_index(band, '-', 0) {
                    None => false,
                    Some(j) => match (
                        parse_u32_text(band.subrange(0, j)),
                        parse_u32_text(band.subrange(j + 1, band.len() as int)),
                    ) {
                        (Some(first), Some(last)) => seq_ascii_lower(sheet) == seq_ascii_lower(
                            host_sheet,
                        ) && first <= host_row && host_row <= last,
                        _ => false,
                    },
                }
            },
        },
    }
}

pub open spec fn ident_char(c: char) -> bool {
    is_ascii_alnum(c) || c == '_'
}

/// Whether an odd number of `"` occur in `s`: a position after `s` is
/// inside a string literal.
pub open spec fn quote_parity(s: Seq<char>) -> bool
    decreases s.len(),
{
    if s.len() == 0 {
        false
    } else if s.last() == '"' {
        !quote_parity(s.drop_last())
    } else {
        quote_parity(s.drop_last())
    }
}

/// A match `[start, end)` is left as written when it is part of a longer
/// identifier or inside a string literal.
pub open spec fn keep_match(norm: Seq<char>, start: int, end: int) -> bool {
    (start > 0 && ident_char(norm[start - 1])) || (end < norm.len() && ident_char(norm[end]))
        || quote_parity(norm.subrange(0, start))
}

/// From `cursor`, each match of `pl` in `lower` (the lowercased `norm`),
/// left to right: the text before it, then the match kept or replaced by
/// `repl`; and the position after the last match.
pub open spec fn scan(norm: Seq<char>, lower: Seq<char>, pl: Seq<char>, repl: Seq<char>, cursor: int) -> (Seq<char>, int)
    decreases norm.len() + 1 - cursor,
{
    if pl.len() == 0 || cursor < 0 {
        (Seq::empty(), cursor)
    } else {
        match find_sub(lower, pl, cursor) {
            None => (Seq::empty(), cursor),
            Some(start) => {
                let end = start + pl.len();
                let piece = norm.subrange(cursor, start) + if keep_match(norm, start, end) {
                    norm.subrange(start, end)
                } else {
                    repl
                };
                if end <= cursor || end > norm.len() {
                    (piece, end)
                } else {
                    let (rest, c) = scan(norm, lower, pl, repl, end);
                    (piece + rest, c)
                }
            },
        }
    }
}

/// `norm` with one structured pattern rewritten wherever it applies.
pub open spec fn apply_pattern(
    norm: Seq<char>,
    pattern: Seq<char>,
    replacement: Seq<char>,
    host_sheet: Seq<char>,
    host_row: u32,
) -> Seq<char> {
    let (scope, value) = split_scope(replacement);
    if !scope_applies(scope, host_sheet, host_row) {
        norm
    } else {
        let repl = replace_all(value, row_placeholder(), decimal(host_row as nat));
        let (rebuilt, cursor) = scan(norm, seq_ascii_lower(norm), seq_ascii_lower(pattern), repl, 0);
        if cursor != 0 {
            rebuilt + norm.subrange(cursor, norm.len() as int)
        } else {
            norm
        }
    }
}

/// `source` with each pattern applied in turn.
pub open spec fn apply_patterns(
    source: Seq<char>,
    ps: Seq<(Seq<char>, Seq<char>)>,
    host_sheet: Seq<char>,
    host_row: u32,
) -> Seq<char>
    decreases ps.len(),
{
    if ps.len() == 0 {
        source
    } else {
        apply_pattern(
            apply_patterns(source, ps.drop_last(), host_sheet, host_row),
            ps.last().0,
            ps.last().1,
            host_sheet,
            host_row,
        )
    }
}

/// What `normalize_structured_refs` gives: the patterns applied longest
/// first.
pub open spec fn spec_normalize_structured_refs(
    source: Seq<char>,
    ps: Seq<(Seq<char>, Seq<char>)>,
    host_sheet: Seq<char>,
    host_row: u32,
) -> Seq<char> {
    apply_patterns(source, longest_first(ps), host_sheet, host_row)
}

/// Every pattern that applies on this host is non-empty (an empty pattern
/// would match at the same position forever).
pub open spec fn patterns_fit(ps: Seq<(Seq<char>, Seq<char>)>, host_sheet: Seq<char>, host_row: u32) -> bool {
    forall|i: int|
        0 <= i < ps.len() ==> (#[trigger] ps[i]).0.len() > 0 || !scope_applies(
            split_scope(ps[i].1).0,
            host_sheet,
            host_row,
        )
}

pub(crate) fn replace_chars(s: &Vec<char>, from: &Vec<char>, to: &Vec<char>) -> (r: Vec<char>)
    requires
        from@.len() > 0,
    ensures
        r@ == replace_all(s@, from@, to@),
{
    let mut out: Vec<char> = Vec::new();
    let mut i: usize = 0;
    proof {
        assert(s@.subrange(0, s@.len() as int) =~= s@);
    }
    while i < s.len()
        invariant
            0 <= i <= s@.len(),
            from@.len() > 0,
            out@ + replace_all(s@.subrange(i as int, s@.len() as int), from@, to@) == replace_all(
                s@,
                from@,
                to@,
            ),
        decreases s@.len() - i,
    {
        let ghost t = s@.subrange(i as int, s@.len() as int);
        let ghost before = out@;
        if occurs_at_exec(s, from, i) {
            proof {
                assert(t.subrange(0, from@.len() as int) =~= s@.subrange(i as int, i + from@.len()));
                assert(occurs_at(t, from@, 0));
                assert(t.subrange(from@.len() as int, t.len() as int) =~= s@.subrange(
                    i + from@.len(),
                    s@.len() as int,
                ));
            }
            push_all(&mut out, to);
            i = i + from.len();
            proof {
                assert(out@ + replace_all(s@.subrange(i as int, s@.len() as int), from@, to@)
                    =~= before + replace_all(t, from@, to@));
            }
        } else {
            proof {
                if from@.len() <= t.len() {
                    assert(t.subrange(0, from@.len() as int) =~= s@.subrange(
                        i as int,
                        i + from@.len(),
                    ));
                }
                assert(!occurs_at(t, from@, 0));
                assert(t.drop_first() =~= s@.subrange(i + 1, s@.len() as int));
                assert(t[0] == s@[i as int]);
            }
            out.push(s[i]);
            i = i + 1;
            proof {
                assert(out@ + replace_all(s@.subrange(i as int, s@.len() as int), from@, to@)
                    =~= before + replace_all(t, from@, to@));
            }
        }
    }
    proof {
        assert(s@.subrange(i as int, s@.len() as int) =~= Seq::<char>::empty());
        assert(out@ + Seq::<char>::empty() =~= out@);
    }
    out
}

fn has_prefix_chars(s: &Vec<char>, p: &Vec<char>) -> (r: bool)
    ensures
        r == starts_with(s@, p@),
{
    if p.len() > s.len() {
        return false;
    }
    let r = occurs_at_exec(s, p, 0);
    proof {
        assert(r == starts_with(s@, p@));
    }
    r
}

fn index_of_char(s: &Vec<char>, c: char) -> (r: Option<usize>)
    ensures
        r matches Some(i) ==> i < s@.len() && char_index(s@, c, 0) == Some(i as int),
        r is None ==> char_index(s@, c, 0) is None,
{
    let mut i: usize = 0;
    while i < s.len()
        invariant
            0 <= i <= s@.len(),
            char_index(s@, c, 0) == char_index(s@, c, i as int),
        decreases s@.len() - i,
    {
        if s[i] == c {
            return Some(i);
        }
        i = i + 1;
    }
    None
}

/// Splits a replacement into its scope (if any) and its value.
fn split_scope_exec(r: &Vec<char>) -> (out: (Option<Vec<char>>, Vec<char>))
    ensures
        (match out.0 {
            Some(x) => Some(x@),
            None => None::<Seq<char>>,
        }, out.1@) == split_scope(r@),
{
    let tag = str_chars("@sheet:");
    if has_prefix_chars(r, &tag) {
        let rest = slice_chars(r, tag.len(), r.len());
        match index_of_char(&rest, '|') {
            Some(i) => {
                let scope = slice_chars(&rest, 0, i);
                let value = slice_chars(&rest, i + 1, rest.len());
                return (Some(scope), value);
            },
            None => {},
        }
    }
    let whole = slice_chars(r, 0, r.len());
    proof {
        assert(whole@ =~= r@);
    }
    (None, whole)
}

fn scope_applies_exec(scope: &Option<Vec<char>>, host_sheet: &Vec<char>, host_row: u32) -> (b: bool)
    ensures
        b == scope_applies(
            match *scope {
                Some(x) => Some(x@),
                None => None::<Seq<char>>,
            },
            host_sheet@,
            host_row,
        ),
{
    let sc = match scope {
        None => {
            return true;
        },
        Some(sc) => sc,
    };
    let marker = str_chars(";rows:");
    let i = match find_from(sc, &marker, 0) {
        None => {
            return false;
        },
        Some(i) => i,
    };
    proof {
        lemma_find_sub_bounds(sc@, marker@, 0);
    }
    let sheet = slice_chars(sc, 0, i);
    let band = slice_chars(sc, i + marker.len(), sc.len());
    let j = match index_of_char(&band, '-') {
        None => {
            return false;
        },
        Some(j) => j,
    };
    let first = match parse_u32(&slice_chars(&band, 0, j)) {
        None => {
            return false;
        },
        Some(v) => v,
    };
    let last = match parse_u32(&slice_chars(&band, j + 1, band.len())) {
        None => {
            return false;
        },
        Some(v) => v,
    };
    chars_eq(&chars_ascii_lower(&sheet), &chars_ascii_lower(host_sheet)) && first <= host_row
        && host_row <= last
}

fn quote_parity_exec(s: &Vec<char>, n: usize) -> (r: bool)
    requires
        n <= s@.len(),
    ensures
        r == quote_parity(s@.subrange(0, n as int)),
{
    let mut inside = false;
    let mut k: usize = 0;
    proof {
        assert(s@.subrange(0, 0) =~= Seq::<char>::empty());
    }
    while k < n
        invariant
            0 <= k <= n <= s@.len(),
            inside == quote_parity(s@.subrange(0, k as int)),
        decreases n - k,
    {
        proof {
            let p = s@.subrange(0, k + 1);
            assert(p.drop_last() =~= s@.subrange(0, k as int));
            assert(p.last() == s@[k as int]);
        }
        if s[k] == '"' {
            inside = !inside;
        }
        k = k + 1;
    }
    inside
}

fn keep_match_exec(norm: &Vec<char>, start: usize, end: usize) -> (r: bool)
    requires
        start <= end <= norm@.len(),
    ensures
        r == keep_match(norm@, start as int, end as int),
{
    let preceded = start > 0 && (ascii_alnum(norm[start - 1]) || norm[start - 1] == '_');
    let followed = end < norm.len() && (ascii_alnum(norm[end]) || norm[end] == '_');
    preceded || followed || quote_parity_exec(norm, start)
}

/// Applies one pattern to `norm`.
fn apply_pattern_exec(
    norm: Vec<char>,
    pattern: &Vec<char>,
    replacement: &Vec<char>,
    host_sheet: &Vec<char>,
    host_row: u32,
) -> (r: Vec<char>)
    requires
        pattern@.len() > 0 || !scope_applies(split_scope(replacement@).0, host_sheet@, host_row),
    ensures
        r@ == apply_pattern(norm@, pattern@, replacement@, host_sheet@, host_row),
{
    let (scope, value) = split_scope_exec(replacement);
    if !scope_applies_exec(&scope, host_sheet, host_row) {
        return norm;
    }
    let lower = chars_ascii_lower(&norm);
    let pl = chars_ascii_lower(pattern);
    let mut placeholder: Vec<char> = Vec::new();
    placeholder.push('{');
    placeholder.push('r');
    placeholder.push('o');
    placeholder.push('w');
    placeholder.push('}');
    proof {
        assert(placeholder@ =~= row_placeholder());
    }
    let repl = replace_chars(&value, &placeholder, &fmt_u64(host_row as u64));
    let ghost total = scan(norm@, lower@, pl@, repl@, 0);
    let mut rebuilt: Vec<char> = Vec::new();
    let mut cursor: usize = 0;
    proof {
        assert(rebuilt@ + scan(norm@, lower@, pl@, repl@, 0).0 =~= total.0);
    }
    loop
        invariant_except_break
            0 <= cursor <= norm@.len(),
            lower@.len() == norm@.len(),
            pl@.len() > 0,
            total == scan(norm@, lower@, pl@, repl@, 0),
            rebuilt@ + scan(norm@, lower@, pl@, repl@, cursor as int).0 == total.0,
            scan(norm@, lower@, pl@, repl@, cursor as int).1 == total.1,
        ensures
            0 <= cursor <= norm@.len(),
            rebuilt@ == total.0,
            cursor == total.1,
        decreases norm@.len() + 1 - cursor,
    {
        let found = find_from(&lower, &pl, cursor);
        match found {
            None => {
                proof {
                    assert(rebuilt@ + Seq::<char>::empty() =~= rebuilt@);
                }
                break;
            },
            Some(start) => {
                proof {
                    lemma_find_sub_bounds(lower@, pl@, cursor as int);
                }
                let end = start + pl.len();
                let ghost before = rebuilt@;
                let before_match = slice_chars(&norm, cursor, start);
                push_all(&mut rebuilt, &before_match);
                if keep_match_exec(&norm, start, end) {
                    let matched = slice_chars(&norm, start, end);
                    push_all(&mut rebuilt, &matched);
                } else {
                    push_all(&mut rebuilt, &repl);
                }
                proof {
                    let piece = norm@.subrange(cursor as int, start as int) + if keep_match(
                        norm@,
                        start as int,
                        end as int,
                    ) {
                        norm@.subrange(start as int, end as int)
                    } else {
                        repl@
                    };
                    assert(rebuilt@ =~= before + piece);
                    assert(rebuilt@ + scan(norm@, lower@, pl@, repl@, end as int).0 =~= before
                        + scan(norm@, lower@, pl@, repl@, cursor as int).0);
                }
                cursor = end;
            },
        }
    }
    if cursor != 0 {
        let tail = slice_chars(&norm, cursor, norm.len());
        push_all(&mut rebuilt, &tail);
        rebuilt
    } else {
        norm
    }
}

/// Rewrites structured table references in `source` for a formula hosted
/// on `host_sheet` at `host_row`. Each `(pattern, replacement)` pair is
/// applied in turn, longest pattern (in UTF-8 bytes) first: every ASCII
/// case-insensitive occurrence of the pattern that is not part of a longer
/// identifier nor inside a string literal becomes the replacement, whose
/// `{row}` placeholders become the host row. A replacement
/// `@sheet:SHEET;rows:FIRST-LAST|VALUE` applies only on that sheet within
/// those rows, with `VALUE` as its text.
pub fn normalize_structured_refs(
    source: &str,
    structured_ranges: &Vec<(String, String)>,
    host_sheet: &str,
    host_row: u32,
) -> (r: String)
    requires
        patterns_fit(pairs_view(structured_ranges@), host_sheet@, host_row),
    ensures
        r@ == spec_normalize_structured_refs(
            source@,
            pairs_view(structured_ranges@),
            host_sheet@,
            host_row,
        ),
{
    let ghost pv = pairs_view(structured_ranges@);
    let order = sort_longest_first(structured_ranges);
    let ghost sorted = order_view(order@, pv);
    let host = str_chars(host_sheet);
    let mut normalized = str_chars(source);
    let mut i: usize = 0;
    proof {
        lemma_longest_first_len(pv);
        assert(sorted.subrange(0, 0) =~= Seq::<(Seq<char>, Seq<char>)>::empty());
    }
    while i < order.len()
        invariant
            0 <= i <= order@.len(),
            pv == pairs_view(structured_ranges@),
            pv.len() == structured_ranges@.len(),
            order@.len() == structured_ranges@.len(),
            forall|j: int| 0 <= j < order@.len() ==> #[trigger] order@[j] < structured_ranges@.len(),
            sorted == order_view(order@, pv),
            sorted == longest_first(pv),
            host@ == host_sheet@,
            patterns_fit(pv, host_sheet@, host_row),
            normalized@ == apply_patterns(source@, sorted.subrange(0, i as int), host_sheet@, host_row),
        decreases order@.len() - i,
    {
        let k = order[i];
        let ghost pre = sorted.subrange(0, i + 1);
        proof {
            assert(pre.drop_last() =~= sorted.subrange(0, i as int));
            assert(pre.last() == pv[k as int]);
            assert(order@[i as int] < structured_ranges@.len());
            assert(pv[k as int].0.len() > 0 || !scope_applies(split_scope(pv[k as int].1).0, host_sheet@, host_row));
        }
        let pattern = string_chars(&structured_ranges[k].0);
        let replacement = string_chars(&structured_ranges[k].1);
        normalized = apply_pattern_exec(normalized, &pattern, &replacement, &host, host_row);
        i = i + 1;
    }
    proof {
        assert(sorted.subrange(0, order@.len() as int) =~= sorted);
    }
    string_from_chars(&normalized)
}


// ── Defined-name references ──────────────────────────────────────────────

/// The index of the last `c` in `s`.
pub open spec fn last_index_of(s: Seq<char>, c: char) -> Option<int>
    decreases s.len(),
{
    if s.len() == 0 {
        None
    } else if s.last() == c {
        Some(s.len() - 1)
    } else {
        last_index_of(s.drop_last(), c)
    }
}

/// A defined name's reference in the compact form that the local-range
/// expansion reads: with no `!`, every `$` removed; with a quoted qualifier
/// (`'Sheet 1'!...`), the quotes removed and `''` unescaped; otherwise as
/// written.
pub open spec fn spec_normalize_defined_name_ref(raw: Seq<char>) -> Seq<char> {
    match last_index_of(raw, '!') {
        None => replace_all(raw, seq!['$'], Seq::empty()),
        Some(bang) => {
            let q = raw.subrange(0, bang);
            if q.len() >= 2 && q[0] == '\'' && q.last() == '\'' {
                replace_all(q.subrange(1, q.len() - 1), seq!['\'', '\''], seq!['\''])
                    + seq!['!'] + raw.subrange(bang + 1, raw.len() as int)
            } else {
                raw
            }
        },
    }
}

pub(crate) fn last_index_of_exec(s: &Vec<char>, c: char) -> (r: Option<usize>)
    ensures
        match r {
            Some(i) => i < s@.len() && last_index_of(s@, c) == Some(i as int),
            None => last_index_of(s@, c) is None,
        },
{
    let mut i: usize = s.len();
    proof {
        assert(s@.subrange(0, s@.len() as int) =~= s@);
    }
    while i > 0
        invariant
            i <= s@.len(),
            last_index_of(s@, c) == last_index_of(s@.subrange(0, i as int), c),
        decreases i,
    {
        let ghost p = s@.subrange(0, i as int);
        proof {
            assert(p.drop_last() =~= s@.subrange(0, i - 1));
            assert(p.last() == s@[i - 1]);
        }
        if s[i - 1] == c {
            return Some(i - 1);
        }
        i = i - 1;
    }
    proof {
        assert(s@.subrange(0, 0).len() == 0);
    }
    None
}

/// The reference of a defined name normalized for local-range expansion:
/// `$A$1` becomes `A1`, and `'Sheet 1'!$A$1:$B$2` becomes
/// `Sheet 1!$A$1:$B$2`; a reference qualified by a bare sheet name is kept.
pub fn normalize_defined_name_ref(raw: &str) -> (r: String)
    ensures
        r@ == spec_normalize_defined_name_ref(raw@),
{
    let v = str_chars(raw);
    match last_index_of_exec(&v, '!') {
        None => {
            let mut dollar: Vec<char> = Vec::new();
            dollar.push('$');
            let empty: Vec<char> = Vec::new();
            proof {
                assert(dollar@ =~= seq!['$']);
                assert(empty@ =~= Seq::<char>::empty());
            }
            let out = replace_chars(&v, &dollar, &empty);
            string_from_chars(&out)
        },
        Some(bang) => {
            assert(bang < v.len());
            let q = slice_chars(&v, 0, bang);
            let n = q.len();
            if n >= 2 && q[0] == '\'' && q[n - 1] == '\'' {
                let inner = slice_chars(&q, 1, n - 1);
                let mut from: Vec<char> = Vec::new();
                from.push('\'');
                from.push('\'');
                let mut to: Vec<char> = Vec::new();
                to.push('\'');
                proof {
                    assert(from@ =~= seq!['\'', '\'']);
                    assert(to@ =~= seq!['\'']);
                    assert(q@.last() == q@[n - 1]);
                }
                let mut out = replace_chars(&inner, &from, &to);
                out.push('!');
                let rest = slice_chars(&v, bang + 1, v.len());
                push_all(&mut out, &rest);
                string_from_chars(&out)
            } else {
                proof {
                    if n >= 2 {
                        assert(q@.last() == q@[n - 1]);
                    }
                }
                string_from_chars(&v)
            }
        },
    }
}

} // verus!
