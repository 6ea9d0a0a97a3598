//! The parts of an XLSX package that a save writes from the workbook's own
//! state: part naming, relationship paths, and the XML of the workbook,
//! its relationships, its content types and its shared strings; plus the
//! checks on a bulk range write.

use vstd::prelude::*;
use crate::formula::rewrite::split_on;
use crate::formula::workbook::{last_index_of, last_index_of_exec, replace_all, replace_chars};
use crate::text::{
    col_letters, col_to_letters, decimal, fmt_u64, occurs_at, occurs_at_exec, parse_u32,
    parse_u32_text, push_all, push_str_chars, slice_chars, str_chars, string_chars, string_from_chars,
    trim_bounds, trimmed,
};
use crate::types::{parse_range_addr, parse_range_addr_checked, range_addr_fits, spec_parse_range_addr};

verus! {

// ── XML text ─────────────────────────────────────────────────────────────

/// The XML escape of one char.
pub open spec fn xml_char(c: char) -> Seq<char> {
    if c == '&' {
        "&amp;"@
    } else if c == '<' {
        "&lt;"@
    } else if c == '>' {
        "&gt;"@
    } else if c == '"' {
        "&quot;"@
    } else if c == '\'' {
        "&apos;"@
    } else {
        seq![c]
    }
}

/// `s` with `& < > " '` written as XML entities.
pub open spec fn xml_escaped(s: Seq<char>) -> Seq<char>
    decreases s.len(),
{
    if s.len() == 0 {
        Seq::empty()
    } else {
        xml_escaped(s.drop_last()) + xml_char(s.last())
    }
}

/// Appends the XML escape of `s`.
pub(crate) fn push_xml_escaped(out: &mut Vec<char>, s: &Vec<char>)
    ensures
        final(out)@ == old(out)@ + xml_escaped(s@),
{
    let ghost before = out@;
    let mut i: usize = 0;
    proof {
        assert(s@.subrange(0, 0) =~= Seq::<char>::empty());
    }
    while i < s.len()
        invariant
            0 <= i <= s@.len(),
            out@ == before + xml_escaped(s@.subrange(0, i as int)),
        decreases s@.len() - i,
    {
        let c = s[i];
        let ghost pre = s@.subrange(0, i + 1);
        proof {
            assert(pre.drop_last() =~= s@.subrange(0, i as int));
            assert(pre.last() == c);
        }
        if c == '&' {
            push_str_chars(out, "&amp;");
        } else if c == '<' {
            push_str_chars(out, "&lt;");
        } else if c == '>' {
            push_str_chars(out, "&gt;");
        } else if c == '"' {
            push_str_chars(out, "&quot;");
        } else if c == '\'' {
            push_str_chars(out, "&apos;");
        } else {
            out.push(c);
        }
        proof {
            assert(out@ =~= before + xml_escaped(pre));
        }
        i = i + 1;
    }
    proof {
        assert(s@.subrange(0, s@.len() as int) =~= s@);
    }
}

/// `s` with `& < > " '` written as XML entities.
pub fn xml_escape(s: &str) -> (r: String)
    ensures
        r@ == xml_escaped(s@),
{
    let mut out: Vec<char> = Vec::new();
    push_xml_escaped(&mut out, &str_chars(s));
    string_from_chars(&out)
}

// ── Part names ───────────────────────────────────────────────────────────

/// The path segments kept after resolving `.` and `..`: empty and `.`
/// segments are dropped, `..` drops the last kept segment.
pub open spec fn resolved_segments(segs: Seq<Seq<char>>) -> Seq<Seq<char>>
    decreases segs.len(),
{
    if segs.len() == 0 {
        Seq::empty()
    } else {
        let kept = resolved_segments(segs.drop_last());
        let seg = segs.last();
        if seg.len() == 0 || seg == seq!['.'] {
            kept
        } else if seg == seq!['.', '.'] {
            if kept.len() == 0 {
                kept
            } else {
                kept.drop_last()
            }
        } else {
            kept.push(seg)
        }
    }
}

/// The items joined with `sep` between them.
pub open spec fn join_char(items: Seq<Seq<char>>, sep: char) -> Seq<char>
    decreases items.len(),
{
    if items.len() == 0 {
        Seq::empty()
    } else if items.len() == 1 {
        items[0]
    } else {
        join_char(items.drop_last(), sep) + seq![sep] + items.last()
    }
}

/// A relationship target joined to its base, with `.` and `..` resolved.
pub open spec fn normalized_part_path(joined: Seq<char>) -> Seq<char> {
    join_char(resolved_segments(split_on(joined, '/')), '/')
}

fn join_chars_with(items: &Vec<Vec<char>>, sep: char) -> (r: Vec<char>)
    ensures
        r@ == join_char(items@.map_values(|v: Vec<char>| v@), sep),
{
    let ghost iv = items@.map_values(|v: Vec<char>| v@);
    let mut out: Vec<char> = Vec::new();
    let mut i: usize = 0;
    proof {
        assert(iv.subrange(0, 0) =~= Seq::<Seq<char>>::empty());
    }
    while i < items.len()
        invariant
            0 <= i <= items@.len(),
            iv == items@.map_values(|v: Vec<char>| v@),
            iv.len() == items@.len(),
            out@ == join_char(iv.subrange(0, i as int), sep),
        decreases items@.len() - i,
    {
        let ghost pre = iv.subrange(0, i + 1);
        proof {
            assert(pre.drop_last() =~= iv.subrange(0, i as int));
            assert(pre.last() == items@[i as int]@);
        }
        if i > 0 {
            out.push(sep);
        }
        push_all(&mut out, &items[i]);
        proof {
            if i == 0 {
                assert(pre.len() == 1);
                assert(out@ =~= pre[0]);
            } else {
                assert(out@ =~= join_char(pre.drop_last(), sep) + seq![sep] + pre.last());
            }
        }
        i = i + 1;
    }
    proof {
        assert(iv.subrange(0, iv.len() as int) =~= iv);
    }
    out
}

fn split_slash(s: &Vec<char>) -> (r: Vec<Vec<char>>)
    ensures
        r@.map_values(|v: Vec<char>| v@) == split_on(s@, '/'),
{
    let mut items: Vec<Vec<char>> = Vec::new();
    let mut cur: Vec<char> = Vec::new();
    let mut i: usize = 0;
    proof {
        assert(s@.subrange(0, 0) =~= Seq::<char>::empty());
    }
    while i < s.len()
        invariant
            0 <= i <= s@.len(),
            items@.map_values(|v: Vec<char>| v@).push(cur@) == split_on(s@.subrange(0, i as int), '/'),
        decreases s@.len() - i,
    {
        let ghost pre = s@.subrange(0, i + 1);
        let ghost prev = items@.map_values(|v: Vec<char>| v@);
        proof {
            assert(pre.drop_last() =~= s@.subrange(0, i as int));
            assert(pre.last() == s@[i as int]);
        }
        if s[i] == '/' {
            let done = cur;
            items.push(done);
            cur = Vec::new();
            proof {
                assert(items@.map_values(|v: Vec<char>| v@) =~= prev.push(done@));
                assert(items@.map_values(|v: Vec<char>| v@).push(cur@) =~= split_on(pre, '/'));
            }
        } else {
            let ghost old_cur = cur@;
            cur.push(s[i]);
            proof {
                let init = split_on(pre.drop_last(), '/');
                assert(init == prev.push(old_cur));
                assert(items@.map_values(|v: Vec<char>| v@).push(cur@) =~= init.update(
                    init.len() - 1,
                    init.last().push(pre.last()),
                ));
            }
        }
        i = i + 1;
    }
    proof {
        assert(s@.subrange(0, s@.len() as int) =~= s@);
    }
    let ghost prev = items@.map_values(|v: Vec<char>| v@);
    let last = cur;
    items.push(last);
    proof {
        assert(items@.map_values(|v: Vec<char>| v@) =~= prev.push(last@));
    }
    items
}

/// Resolves a relationship target joined to its base (such as
/// `xl/../customXml/item1.xml`): empty and `.` segments are dropped and
/// `..` climbs one directory.
pub fn normalize_part_path(joined: &str) -> (r: String)
    ensures
        r@ == normalized_part_path(joined@),
{
    let segs = split_slash(&str_chars(joined));
    let ghost sv = segs@.map_values(|v: Vec<char>| v@);
    let mut kept: Vec<Vec<char>> = Vec::new();
    let mut i: usize = 0;
    proof {
        assert(sv.subrange(0, 0) =~= Seq::<Seq<char>>::empty());
        assert(kept@.map_values(|v: Vec<char>| v@) =~= Seq::<Seq<char>>::empty());
    }
    while i < segs.len()
        invariant
            0 <= i <= segs@.len(),
            sv == segs@.map_values(|v: Vec<char>| v@),
            sv.len() == segs@.len(),
            kept@.map_values(|v: Vec<char>| v@) == resolved_segments(sv.subrange(0, i as int)),
        decreases segs@.len() - i,
    {
        let ghost pre = sv.subrange(0, i + 1);
        let ghost prev = kept@.map_values(|v: Vec<char>| v@);
        proof {
            assert(pre.drop_last() =~= sv.subrange(0, i as int));
            assert(pre.last() == segs@[i as int]@);
        }
        let seg = &segs[i];
        let n = seg.len();
        if n == 0 || (n == 1 && seg[0] == '.') {
            proof {
                if n == 1 {
                    assert(seg@ =~= seq!['.']);
                }
            }
        } else if n == 2 && seg[0] == '.' && seg[1] == '.' {
            proof {
                assert(seg@ =~= seq!['.', '.']);
            }
            if kept.len() > 0 {
                kept.pop();
                proof {
                    assert(kept@.map_values(|v: Vec<char>| v@) =~= prev.drop_last());
                }
            }
        } else {
            proof {
                assert(seg@ != seq!['.']) by {
                    if n == 1 {
                        assert(seg@[0] != '.');
                    }
                }
                assert(seg@ != seq!['.', '.']) by {
                    if n == 2 {
                        assert(seg@[0] != '.' || seg@[1] != '.');
                    }
                }
            }
            kept.push(segs[i].clone());
            proof {
                assert(kept@.map_values(|v: Vec<char>| v@) =~= prev.push(seg@));
            }
        }
        i = i + 1;
    }
    proof {
        assert(sv.subrange(0, sv.len() as int) =~= sv);
    }
    string_from_chars(&join_chars_with(&kept, '/'))
}

/// The relationships part of `part`: `dir/_rels/file.rels` beside it.
pub open spec fn rels_name_of(part: Seq<char>) -> Seq<char> {
    match last_index_of(part, '/') {
        Some(i) => part.subrange(0, i) + "/_rels/"@ + part.subrange(i + 1, part.len() as int) + ".rels"@,
        None => "_rels/"@ + part + ".rels"@,
    }
}

/// The path of a part's own relationships part (`xl/worksheets/sheet1.xml`
/// -> `xl/worksheets/_rels/sheet1.xml.rels`).
pub fn part_rels_name(part_name: &str) -> (r: String)
    ensures
        r@ == rels_name_of(part_name@),
{
    let v = str_chars(part_name);
    let mut out: Vec<char> = Vec::new();
    match last_index_of_exec(&v, '/') {
        Some(i) => {
            assert(i < v.len());
            push_all(&mut out, &slice_chars(&v, 0, i));
            push_str_chars(&mut out, "/_rels/");
            push_all(&mut out, &slice_chars(&v, i + 1, v.len()));
            push_str_chars(&mut out, ".rels");
        },
        None => {
            push_str_chars(&mut out, "_rels/");
            push_all(&mut out, &v);
            push_str_chars(&mut out, ".rels");
        },
    }
    proof {
        assert(out@ =~= rels_name_of(part_name@));
    }
    string_from_chars(&out)
}

/// The `N` of a part named `xl/worksheets/sheetN.xml`.
pub open spec fn sheet_part_number(name: Seq<char>) -> Option<u32> {
    let prefix = "xl/worksheets/sheet"@;
    let suffix = ".xml"@;
    if name.len() >= prefix.len() && name.subrange(0, prefix.len() as int) == prefix {
        let rest = name.subrange(prefix.len() as int, name.len() as int);
        if rest.len() >= suffix.len() && rest.subrange(rest.len() - suffix.len(), rest.len() as int) == suffix {
            parse_u32_text(rest.subrange(0, rest.len() - suffix.len()))
        } else {
            None
        }
    } else {
        None
    }
}

fn has_prefix(s: &Vec<char>, p: &Vec<char>) -> (r: bool)
    ensures
        r == (s@.len() >= p@.len() && s@.subrange(0, p@.len() as int) == p@),
{
    if s.len() < p.len() {
        return false;
    }
    let r = occurs_at_exec(s, p, 0);
    proof {
        if r {
            assert(s@.subrange(0, p@.len() as int) == p@);
        }
        if s@.subrange(0, p@.len() as int) == p@ {
            assert(occurs_at(s@, p@, 0));
        }
    }
    r
}

fn has_suffix(s: &Vec<char>, p: &Vec<char>) -> (r: bool)
    ensures
        r == (s@.len() >= p@.len() && s@.subrange(s@.len() - p@.len(), s@.len() as int) == p@),
{
    if s.len() < p.len() {
        return false;
    }
    let at = s.len() - p.len();
    let r = occurs_at_exec(s, p, at);
    proof {
        if r {
            assert(s@.subrange(at as int, at + p@.len()) == p@);
        }
        if s@.subrange(s@.len() - p@.len(), s@.len() as int) == p@ {
            assert(occurs_at(s@, p@, at as int));
        }
    }
    r
}

/// `N` from a part named `xl/worksheets/sheetN.xml`; `None` for any other
/// name.
pub fn parse_sheet_part_number(name: &str) -> (r: Option<u32>)
    ensures
        r == sheet_part_number(name@),
{
    let v = str_chars(name);
    let prefix = str_chars("xl/worksheets/sheet");
    let suffix = str_chars(".xml");
    if !has_prefix(&v, &prefix) {
        return None;
    }
    let rest = slice_chars(&v, prefix.len(), v.len());
    if !has_suffix(&rest, &suffix) {
        return None;
    }
    let digits = slice_chars(&rest, 0, rest.len() - suffix.len());
    parse_u32(&digits)
}

/// The directory that a `.rels` part's relative targets resolve against:
/// up to and including the `/` before its last `/_rels/`, else the package
/// root.
pub open spec fn rels_dir_of(rels_name: Seq<char>) -> Seq<char> {
    match last_occurrence(rels_name, "/_rels/"@, rels_name.len() as int) {
        Some(i) => rels_name.subrange(0, i + 1),
        None => Seq::empty(),
    }
}

/// The last index `< end` (counting from where `needle` starts) at which
/// `needle` occurs in `hay`.
pub open spec fn last_occurrence(hay: Seq<char>, needle: Seq<char>, end: int) -> Option<int>
    decreases end,
{
    if end <= 0 {
        None
    } else if occurs_at(hay, needle, end - 1) {
        Some(end - 1)
    } else {
        last_occurrence(hay, needle, end - 1)
    }
}

/// The directory that the relative targets of the `.rels` part
/// `rels_name` resolve against (`xl/worksheets/_rels/sheet1.xml.rels` ->
/// `xl/worksheets/`; the package's own `_rels/.rels` -> the root).
pub fn rels_target_dir(rels_name: &str) -> (r: String)
    ensures
        r@ == rels_dir_of(rels_name@),
{
    let v = str_chars(rels_name);
    let needle = str_chars("/_rels/");
    let mut end: usize = v.len();
    while end > 0
        invariant
            end <= v@.len(),
            v@ == rels_name@,
            needle@ == "/_rels/"@,
            last_occurrence(v@, needle@, v@.len() as int) == last_occurrence(v@, needle@, end as int),
        decreases end,
    {
        if occurs_at_exec(&v, &needle, end - 1) {
            proof {
                assert(occurs_at(v@, needle@, end - 1));
                assert(last_occurrence(v@, needle@, end as int) == Some(end - 1));
                assert(v@ == rels_name@);
                assert(needle@ == "/_rels/"@);
            }
            return string_from_chars(&slice_chars(&v, 0, end));
        }
        end = end - 1;
    }
    proof {
        assert(last_occurrence(v@, needle@, 0) is None);
        assert(v@ == rels_name@);
        assert(needle@ == "/_rels/"@);
    }
    let empty: Vec<char> = Vec::new();
    proof {
        assert(empty@ =~= Seq::<char>::empty());
    }
    string_from_chars(&empty)
}

/// The part names that a save regenerates itself rather than copying from
/// the source package.
pub open spec fn writer_owned(name: Seq<char>) -> bool {
    ||| name == "[Content_Types].xml"@
    ||| name == "_rels/.rels"@
    ||| name == "xl/workbook.xml"@
    ||| name == "xl/_rels/workbook.xml.rels"@
    ||| name == "xl/sharedStrings.xml"@
    ||| name == "xl/styles.xml"@
    ||| {
        let dir = "xl/worksheets/"@;
        &&& name.len() >= dir.len()
        &&& name.subrange(0, dir.len() as int) == dir
        &&& name.len() >= 4
        &&& name.subrange(name.len() - 4, name.len() as int) == ".xml"@
        &&& !name.subrange(dir.len() as int, name.len() as int).contains('/')
    }
}

fn is_name(v: &Vec<char>, s: &str) -> (r: bool)
    ensures
        r == (v@ == s@),
{
    crate::text::chars_eq(v, &str_chars(s))
}

/// Whether a save regenerates the part `name` itself: the package's fixed
/// workbook-level parts, and every worksheet part directly under
/// `xl/worksheets/`.
pub fn is_writer_owned_part(name: &str) -> (r: bool)
    ensures
        r == writer_owned(name@),
{
    let v = str_chars(name);
    if is_name(&v, "[Content_Types].xml") || is_name(&v, "_rels/.rels") || is_name(&v, "xl/workbook.xml")
        || is_name(&v, "xl/_rels/workbook.xml.rels") || is_name(&v, "xl/sharedStrings.xml") || is_name(
        &v,
        "xl/styles.xml",
    ) {
        return true;
    }
    let dir = str_chars("xl/worksheets/");
    let ext = str_chars(".xml");
    proof {
        reveal_strlit(".xml");
        reveal_strlit("xl/worksheets/");
    }
    if !has_prefix(&v, &dir) || !has_suffix(&v, &ext) {
        return false;
    }
    let rest = slice_chars(&v, dir.len(), v.len());
    !crate::text::contains_char(&rest, '/')
}


// ── Bulk range writes ────────────────────────────────────────────────────

/// `addr` with every `$` removed.
pub open spec fn without_dollars(addr: Seq<char>) -> Seq<char> {
    replace_all(addr, seq!['$'], Seq::empty())
}

/// The outcome of checking a range address for a bulk write: a single
/// rectangle, `$` markers ignored, rows and columns from 1, corners in
/// order; otherwise the error naming the address as `{:?}` writes it.
pub open spec fn spec_validate_range_addr(addr: Seq<char>) -> Result<((u32, u32), (u32, u32)), Seq<char>> {
    let shown = crate::text::str_debug_text(addr);
    if addr.contains(',') {
        Err("multi-area address not supported: "@ + shown)
    } else {
        match spec_parse_range_addr(without_dollars(addr)) {
            None => Err("invalid range address: "@ + shown),
            Some((start, end)) => if start.0 == 0 || start.1 == 0 || end.0 == 0 || end.1 == 0 {
                Err("invalid range address (row/column must be >= 1): "@ + shown)
            } else if start.0 > end.0 || start.1 > end.1 {
                Err("reversed range address: "@ + shown)
            } else {
                Ok((start, end))
            },
        }
    }
}

pub open spec fn result_view(r: Result<((u32, u32), (u32, u32)), String>) -> Result<((u32, u32), (u32, u32)), Seq<char>> {
    match r {
        Ok(x) => Ok(x),
        Err(e) => Err(e@),
    }
}

fn message_with(prefix: &str, shown: &String) -> (r: String)
    ensures
        r@ == prefix@ + shown@,
{
    let mut v: Vec<char> = Vec::new();
    push_str_chars(&mut v, prefix);
    push_all(&mut v, &string_chars(shown));
    string_from_chars(&v)
}

/// Checks the address of a bulk range write: one rectangle (no `,`), `$`
/// markers stripped, every row and column at least 1, start not after end.
pub fn validate_range_addr(addr: &str) -> (r: Result<((u32, u32), (u32, u32)), String>)
    requires
        !addr@.contains(',') ==> range_addr_fits(without_dollars(addr@)),
    ensures
        result_view(r) == spec_validate_range_addr(addr@),
{
    let v = str_chars(addr);
    let shown = crate::text::str_debug(addr);
    if crate::text::contains_char(&v, ',') {
        return Err(message_with("multi-area address not supported: ", &shown));
    }
    let mut dollar: Vec<char> = Vec::new();
    dollar.push('$');
    let empty: Vec<char> = Vec::new();
    proof {
        assert(dollar@ =~= seq!['$']);
        assert(empty@ =~= Seq::<char>::empty());
    }
    let stripped = string_from_chars(&replace_chars(&v, &dollar, &empty));
    match parse_range_addr(stripped.as_str()) {
        None => Err(message_with("invalid range address: ", &shown)),
        Some((start, end)) => {
            if start.0 == 0 || start.1 == 0 || end.0 == 0 || end.1 == 0 {
                Err(message_with("invalid range address (row/column must be >= 1): ", &shown))
            } else if start.0 > end.0 || start.1 > end.1 {
                Err(message_with("reversed range address: ", &shown))
            } else {
                Ok((start, end))
            }
        },
    }
}

/// `validate_range_addr` where reading the address's cells stays within
/// `u32`, and `None` where it would overflow.
pub fn validate_range_addr_checked(addr: &str) -> (r: Option<Result<((u32, u32), (u32, u32)), String>>)
    ensures
        r is None <==> !(!addr@.contains(',') ==> range_addr_fits(without_dollars(addr@))),
        r matches Some(x) ==> result_view(x) == spec_validate_range_addr(addr@),
{
    let v = str_chars(addr);
    if !crate::text::contains_char(&v, ',') {
        let mut dollar: Vec<char> = Vec::new();
        dollar.push('$');
        let empty: Vec<char> = Vec::new();
        proof {
            assert(dollar@ =~= seq!['$']);
            assert(empty@ =~= Seq::<char>::empty());
        }
        let stripped = string_from_chars(&replace_chars(&v, &dollar, &empty));
        if parse_range_addr_checked(stripped.as_str()).is_none() {
            return None;
        }
    }
    Some(validate_range_addr(addr))
}

/// `[a, b, c]`, the `{:?}` text of a list of lengths.
pub open spec fn lens_debug_text(ns: Seq<usize>) -> Seq<char> {
    seq!['['] + join_seq_str(ns.map_values(|n: usize| decimal(n as nat)), ", "@) + seq![']']
}

/// The items joined with `sep` between them.
pub open spec fn join_seq_str(items: Seq<Seq<char>>, sep: Seq<char>) -> Seq<char>
    decreases items.len(),
{
    if items.len() == 0 {
        Seq::empty()
    } else if items.len() == 1 {
        items[0]
    } else {
        join_seq_str(items.drop_last(), sep) + sep + items.last()
    }
}

/// All row lengths equal the first.
pub open spec fn rows_even(ns: Seq<usize>) -> bool {
    forall|i: int| 0 <= i < ns.len() ==> #[trigger] ns[i] == ns[0]
}

/// The outcome of checking the row lengths of a grid written to a range of
/// `expected` (rows, columns): ragged rows first, then a shape mismatch.
pub open spec fn spec_check_grid_shape(expected: (u32, u32), ns: Seq<usize>) -> Result<(), Seq<char>> {
    let cols = if ns.len() > 0 {
        ns[0] as nat
    } else {
        0
    };
    if ns.len() > 0 && !rows_even(ns) {
        Err("ragged input: row lengths must all be equal, got "@ + lens_debug_text(ns))
    } else if ns.len() != expected.0 || cols != expected.1 {
        Err("shape mismatch: range expects "@ + decimal(expected.0 as nat) + seq!['x'] + decimal(
            expected.1 as nat,
        ) + ", got "@ + decimal(ns.len()) + seq!['x'] + decimal(cols))
    } else {
        Ok(())
    }
}

pub open spec fn unit_result_view(r: Result<(), String>) -> Result<(), Seq<char>> {
    match r {
        Ok(()) => Ok(()),
        Err(e) => Err(e@),
    }
}

fn push_lens_debug(out: &mut Vec<char>, ns: &[usize])
    ensures
        final(out)@ == old(out)@ + lens_debug_text(ns@),
{
    let ghost before = out@;
    let ghost items = ns@.map_values(|n: usize| decimal(n as nat));
    out.push('[');
    let mut i: usize = 0;
    proof {
        assert(items.subrange(0, 0) =~= Seq::<Seq<char>>::empty());
        assert(out@ =~= before + seq!['['] + join_seq_str(items.subrange(0, 0), ", "@));
    }
    while i < ns.len()
        invariant
            0 <= i <= ns@.len(),
            items == ns@.map_values(|n: usize| decimal(n as nat)),
            items.len() == ns@.len(),
            out@ == before + seq!['['] + join_seq_str(items.subrange(0, i as int), ", "@),
        decreases ns@.len() - i,
    {
        let ghost pre = items.subrange(0, i + 1);
        proof {
            assert(pre.drop_last() =~= items.subrange(0, i as int));
            assert(pre.last() == decimal(ns@[i as int] as nat));
        }
        if i > 0 {
            push_str_chars(out, ", ");
        }
        push_all(out, &fmt_u64(ns[i] as u64));
        proof {
            if i == 0 {
                assert(pre.len() == 1);
                assert(out@ =~= before + seq!['['] + pre[0]);
            } else {
                assert(out@ =~= before + seq!['['] + (join_seq_str(pre.drop_last(), ", "@) + ", "@ + pre.last()));
            }
        }
        i = i + 1;
    }
    out.push(']');
    proof {
        assert(items.subrange(0, items.len() as int) =~= items);
        assert(out@ =~= before + lens_debug_text(ns@));
    }
}

/// Checks the row lengths of a grid written to a range `expected` rows by
/// columns: every row as long as the first, then the grid's shape.
pub fn check_grid_shape(expected: (u32, u32), row_lens: &[usize]) -> (r: Result<(), String>)
    ensures
        unit_result_view(r) == spec_check_grid_shape(expected, row_lens@),
{
    if row_lens.len() > 0 {
        let first = row_lens[0];
        let mut i: usize = 0;
        while i < row_lens.len()
            invariant
                0 <= i <= row_lens@.len(),
                row_lens@.len() > 0,
                first == row_lens@[0],
                forall|j: int| 0 <= j < i ==> #[trigger] row_lens@[j] == row_lens@[0],
            decreases row_lens@.len() - i,
        {
            if row_lens[i] != first {
                let mut v: Vec<char> = Vec::new();
                push_str_chars(&mut v, "ragged input: row lengths must all be equal, got ");
                push_lens_debug(&mut v, row_lens);
                proof {
                    assert(!rows_even(row_lens@));
                }
                return Err(string_from_chars(&v));
            }
            i = i + 1;
        }
        proof {
            assert(rows_even(row_lens@));
        }
    }
    let expected_rows = expected.0 as usize;
    let expected_cols = expected.1 as usize;
    let actual_rows = row_lens.len();
    let actual_cols: usize = if row_lens.len() > 0 {
        row_lens[0]
    } else {
        0
    };
    if actual_rows != expected_rows || actual_cols != expected_cols {
        let mut v: Vec<char> = Vec::new();
        push_str_chars(&mut v, "shape mismatch: range expects ");
        push_all(&mut v, &fmt_u64(expected_rows as u64));
        v.push('x');
        push_all(&mut v, &fmt_u64(expected_cols as u64));
        push_str_chars(&mut v, ", got ");
        push_all(&mut v, &fmt_u64(actual_rows as u64));
        v.push('x');
        push_all(&mut v, &fmt_u64(actual_cols as u64));
        proof {
            assert(v@ =~= "shape mismatch: range expects "@ + decimal(expected.0 as nat) + seq!['x'] + decimal(
                expected.1 as nat,
            ) + ", got "@ + decimal(row_lens@.len()) + seq!['x'] + decimal(actual_cols as nat));
        }
        return Err(string_from_chars(&v));
    }
    Ok(())
}

/// The address of a merge rectangle, always as `start:end` (`C3:C3` for
/// one cell).
pub open spec fn merge_rect_text(rect: ((u32, u32), (u32, u32))) -> Seq<char> {
    col_letters(rect.0.1 as nat) + decimal(rect.0.0 as nat) + seq![':'] + col_letters(rect.1.1 as nat)
        + decimal(rect.1.0 as nat)
}

/// The A1 address of a 1-based merge rectangle `((r1, c1), (r2, c2))`.
pub fn merge_rect_to_a1(rect: &((u32, u32), (u32, u32))) -> (r: String)
    ensures
        r@ == merge_rect_text(*rect),
{
    let ((r1, c1), (r2, c2)) = *rect;
    let mut v = col_to_letters(c1);
    push_all(&mut v, &fmt_u64(r1 as u64));
    v.push(':');
    push_all(&mut v, &col_to_letters(c2));
    push_all(&mut v, &fmt_u64(r2 as u64));
    proof {
        assert(v@ =~= merge_rect_text(*rect));
    }
    string_from_chars(&v)
}

// ── Shared strings ───────────────────────────────────────────────────────

/// One `<si>` entry; text with leading or trailing whitespace is marked
/// `xml:space="preserve"`.
pub open spec fn shared_string_entry(s: Seq<char>) -> Seq<char> {
    if trimmed(s) != s {
        "<si><t xml:space=\"preserve\">"@ + xml_escaped(s) + "</t></si>\n"@
    } else {
        "<si><t>"@ + xml_escaped(s) + "</t></si>\n"@
    }
}

pub open spec fn shared_string_entries(ss: Seq<Seq<char>>) -> Seq<char>
    decreases ss.len(),
{
    if ss.len() == 0 {
        Seq::empty()
    } else {
        shared_string_entries(ss.drop_last()) + shared_string_entry(ss.last())
    }
}

/// The shared-strings part for `ss`, in order.
pub open spec fn shared_strings_xml(ss: Seq<Seq<char>>) -> Seq<char> {
    "<?xml version=\"1.0\" encoding=\"UTF-8\" standalone=\"yes\"?>\n<sst xmlns=\"http://schemas.openxmlformats.org/spreadsheetml/2006/main\" count=\""@
        + decimal(ss.len()) + "\" uniqueCount=\""@ + decimal(ss.len()) + "\">\n"@ + shared_string_entries(ss)
        + "</sst>\n"@
}

fn push_shared_string_entry(out: &mut Vec<char>, s: &String)
    ensures
        final(out)@ == old(out)@ + shared_string_entry(s@),
{
    let ghost before = out@;
    let v = string_chars(s);
    let (a, b) = trim_bounds(&v);
    if a != 0 || b != v.len() {
        proof {
            assert(v@.subrange(a as int, b as int) != v@) by {
                if v@.subrange(a as int, b as int) == v@ {
                    assert(v@.subrange(a as int, b as int).len() == v@.len());
                }
            }
        }
        push_str_chars(out, "<si><t xml:space=\"preserve\">");
        push_xml_escaped(out, &v);
        push_str_chars(out, "</t></si>\n");
    } else {
        proof {
            assert(v@.subrange(0, v@.len() as int) =~= v@);
        }
        push_str_chars(out, "<si><t>");
        push_xml_escaped(out, &v);
        push_str_chars(out, "</t></si>\n");
    }
    proof {
        assert(out@ =~= before + shared_string_entry(s@));
    }
}

/// The shared-strings part of a workbook whose string table is `strings`.
pub fn build_xlsx_shared_strings(strings: &[String]) -> (r: String)
    ensures
        r@ == shared_strings_xml(crate::diagnostics::strings_view(strings@)),
{
    let ghost sv = crate::diagnostics::strings_view(strings@);
    let mut out: Vec<char> = Vec::new();
    push_str_chars(
        &mut out,
        "<?xml version=\"1.0\" encoding=\"UTF-8\" standalone=\"yes\"?>\n<sst xmlns=\"http://schemas.openxmlformats.org/spreadsheetml/2006/main\" count=\"",
    );
    let count = fmt_u64(strings.len() as u64);
    push_all(&mut out, &count);
    push_str_chars(&mut out, "\" uniqueCount=\"");
    push_all(&mut out, &count);
    push_str_chars(&mut out, "\">\n");
    let ghost head = out@;
    let mut i: usize = 0;
    proof {
        assert(sv.subrange(0, 0) =~= Seq::<Seq<char>>::empty());
        assert(out@ =~= head + shared_string_entries(sv.subrange(0, 0)));
    }
    while i < strings.len()
        invariant
            0 <= i <= strings@.len(),
            sv == crate::diagnostics::strings_view(strings@),
            sv.len() == strings@.len(),
            out@ == head + shared_string_entries(sv.subrange(0, i as int)),
        decreases strings@.len() - i,
    {
        let ghost pre = sv.subrange(0, i + 1);
        proof {
            assert(pre.drop_last() =~= sv.subrange(0, i as int));
            assert(pre.last() == strings@[i as int]@);
        }
        push_shared_string_entry(&mut out, &strings[i]);
        i = i + 1;
    }
    push_str_chars(&mut out, "</sst>\n");
    proof {
        assert(sv.subrange(0, sv.len() as int) =~= sv);
        assert(out@ =~= shared_strings_xml(sv));
    }
    string_from_chars(&out)
}

// ── Worksheet output plans ───────────────────────────────────────────────

/// Where a worksheet came from in the source package, when it was read from
/// one: its `sheetId`, its relationship id, its part name and its display
/// name.
pub struct WorksheetOrigin {
    pub original_sheet_id: Option<String>,
    pub original_workbook_rel_id: Option<String>,
    pub original_part_name: Option<String>,
    pub original_display_name: Option<String>,
}

/// How one worksheet is written: its lookup key, display name, `sheetId`,
/// relationship id in the workbook, part name, the part's relationships
/// name, and whether it continues a part of the source package.
pub struct WorksheetOutputPlan {
    pub sheet_key: String,
    pub display_name: String,
    pub sheet_id: String,
    pub workbook_rel_id: String,
    pub output_part_name: String,
    pub output_rels_name: String,
    pub is_existing: bool,
}

/// A plan as values, in field order.
pub type PlanV = (Seq<char>, Seq<char>, Seq<char>, Seq<char>, Seq<char>, Seq<char>, bool);

pub open spec fn plan_view(p: WorksheetOutputPlan) -> PlanV {
    (
        p.sheet_key@,
        p.display_name@,
        p.sheet_id@,
        p.workbook_rel_id@,
        p.output_part_name@,
        p.output_rels_name@,
        p.is_existing,
    )
}

pub open spec fn plans_view(ps: Seq<WorksheetOutputPlan>) -> Seq<PlanV> {
    ps.map_values(|p: WorksheetOutputPlan| plan_view(p))
}

pub open spec fn opt_text(o: Option<String>) -> Option<Seq<char>> {
    match o {
        Some(s) => Some(s@),
        None => None,
    }
}

/// The origin recorded for `key` (the first entry with that key).
pub open spec fn origin_of(origins: Seq<(String, WorksheetOrigin)>, key: Seq<char>) -> Option<WorksheetOrigin>
    decreases origins.len(),
{
    if origins.len() == 0 {
        None
    } else if origins[0].0@ == key {
        Some(origins[0].1)
    } else {
        origin_of(origins.drop_first(), key)
    }
}

/// The largest of `ns`, or 0.
pub open spec fn max_of(ns: Seq<u32>) -> int
    decreases ns.len(),
{
    if ns.len() == 0 {
        0
    } else {
        let m = max_of(ns.drop_last());
        if ns.last() > m {
            ns.last() as int
        } else {
            m
        }
    }
}

/// The `sheetN.xml` numbers of the origins' part names, in order.
pub open spec fn origin_part_numbers(origins: Seq<(String, WorksheetOrigin)>) -> Seq<u32>
    decreases origins.len(),
{
    if origins.len() == 0 {
        Seq::empty()
    } else {
        let rest = origin_part_numbers(origins.drop_last());
        match origins.last().1.original_part_name {
            Some(p) => match sheet_part_number(p@) {
                Some(n) => rest.push(n),
                None => rest,
            },
            None => rest,
        }
    }
}

/// The highest part number a new sheet must stay above: the reserved
/// numbers when given, else those of the origins' part names.
pub open spec fn reserved_max(reserved: Seq<u32>, origins: Seq<(String, WorksheetOrigin)>) -> int {
    if reserved.len() > 0 {
        max_of(reserved)
    } else {
        max_of(origin_part_numbers(origins))
    }
}

/// The numeric source `sheetId`s of the sheets being written, in order.
pub open spec fn original_ids(names: Seq<String>, origins: Seq<(String, WorksheetOrigin)>) -> Seq<u32>
    decreases names.len(),
{
    if names.len() == 0 {
        Seq::empty()
    } else {
        let rest = original_ids(names.drop_last(), origins);
        match origin_of(origins, names.last()@) {
            Some(o) => match o.original_sheet_id {
                Some(id) => match parse_u32_text(id@) {
                    Some(n) => rest.push(n),
                    None => rest,
                },
                None => rest,
            },
            None => rest,
        }
    }
}

pub open spec fn origin_part(o: Option<WorksheetOrigin>) -> Option<Seq<char>> {
    match o {
        Some(x) => opt_text(x.original_part_name),
        None => None,
    }
}

pub open spec fn origin_id(o: Option<WorksheetOrigin>) -> Option<Seq<char>> {
    match o {
        Some(x) => opt_text(x.original_sheet_id),
        None => None,
    }
}

pub open spec fn origin_display(o: Option<WorksheetOrigin>) -> Option<Seq<char>> {
    match o {
        Some(x) => opt_text(x.original_display_name),
        None => None,
    }
}

/// The plans of the first `k` sheets, with the last fresh part number and
/// fresh `sheetId` handed out (starting from `part0` and `id0`): a sheet
/// keeps its origin's part name, `sheetId` and display name, and takes the
/// next fresh number for what its origin lacks; relationship ids are
/// positional.
pub open spec fn plans_fold(
    names: Seq<String>,
    origins: Seq<(String, WorksheetOrigin)>,
    part0: int,
    id0: int,
    k: int,
) -> (Seq<PlanV>, int, int)
    decreases k,
{
    if k <= 0 {
        (Seq::empty(), part0, id0)
    } else {
        let (ps, p, d) = plans_fold(names, origins, part0, id0, k - 1);
        let key = names[k - 1]@;
        let o = origin_of(origins, key);
        let (part, p2) = match origin_part(o) {
            Some(x) => (x, p),
            None => ("xl/worksheets/sheet"@ + decimal((p + 1) as nat) + ".xml"@, p + 1),
        };
        let (id, d2) = match origin_id(o) {
            Some(x) => (x, d),
            None => (decimal((d + 1) as nat), d + 1),
        };
        let display = match origin_display(o) {
            Some(x) => x,
            None => key,
        };
        (ps.push((key, display, id, "rId"@ + decimal(k as nat), part, rels_name_of(part), origin_part(o) is Some)), p2, d2)
    }
}

/// The plans of all sheets being written, in order.
pub open spec fn spec_plans(names: Seq<String>, origins: Seq<(String, WorksheetOrigin)>, reserved: Seq<u32>) -> (Seq<PlanV>, int, int) {
    plans_fold(names, origins, reserved_max(reserved, origins), max_of(original_ids(names, origins)), names.len() as int)
}

fn find_origin(origins: &Vec<(String, WorksheetOrigin)>, key: &String) -> (r: Option<usize>)
    ensures
        match r {
            Some(i) => i < origins@.len() && origin_of(origins@, key@) == Some(origins@[i as int].1),
            None => origin_of(origins@, key@) is None,
        },
{
    let mut i: usize = 0;
    proof {
        assert(origins@.subrange(0, origins@.len() as int) =~= origins@);
    }
    while i < origins.len()
        invariant
            0 <= i <= origins@.len(),
            origin_of(origins@, key@) == origin_of(origins@.subrange(i as int, origins@.len() as int), key@),
        decreases origins@.len() - i,
    {
        let ghost rest = origins@.subrange(i as int, origins@.len() as int);
        proof {
            assert(rest[0] == origins@[i as int]);
            assert(rest.drop_first() =~= origins@.subrange(i + 1, origins@.len() as int));
        }
        if crate::text::chars_eq(&string_chars(&origins[i].0), &string_chars(key)) {
            return Some(i);
        }
        i = i + 1;
    }
    proof {
        assert(origins@.subrange(i as int, origins@.len() as int).len() == 0);
    }
    None
}

fn reserved_max_exec(reserved: &[u32], origins: &Vec<(String, WorksheetOrigin)>) -> (r: u32)
    ensures
        r == reserved_max(reserved@, origins@),
{
    let mut m: u32 = 0;
    if reserved.len() > 0 {
        let mut i: usize = 0;
        proof {
            assert(reserved@.subrange(0, 0) =~= Seq::<u32>::empty());
        }
        while i < reserved.len()
            invariant
                0 <= i <= reserved@.len(),
                m == max_of(reserved@.subrange(0, i as int)),
            decreases reserved@.len() - i,
        {
            proof {
                let pre = reserved@.subrange(0, i + 1);
                assert(pre.drop_last() =~= reserved@.subrange(0, i as int));
            }
            if reserved[i] > m {
                m = reserved[i];
            }
            i = i + 1;
        }
        proof {
            assert(reserved@.subrange(0, reserved@.len() as int) =~= reserved@);
        }
    } else {
        let mut i: usize = 0;
        proof {
            assert(origins@.subrange(0, 0) =~= Seq::<(String, WorksheetOrigin)>::empty());
        }
        while i < origins.len()
            invariant
                0 <= i <= origins@.len(),
                m == max_of(origin_part_numbers(origins@.subrange(0, i as int))),
            decreases origins@.len() - i,
        {
            let ghost before = origin_part_numbers(origins@.subrange(0, i as int));
            proof {
                let pre = origins@.subrange(0, i + 1);
                assert(pre.drop_last() =~= origins@.subrange(0, i as int));
                assert(pre.last() == origins@[i as int]);
            }
            match &origins[i].1.original_part_name {
                Some(p) => match parse_sheet_part_number(p.as_str()) {
                    Some(n) => {
                        proof {
                            assert(before.push(n).drop_last() =~= before);
                        }
                        if n > m {
                            m = n;
                        }
                    },
                    None => {},
                },
                None => {},
            }
            i = i + 1;
        }
        proof {
            assert(origins@.subrange(0, origins@.len() as int) =~= origins@);
        }
    }
    m
}

fn max_original_id_exec(names: &[String], origins: &Vec<(String, WorksheetOrigin)>) -> (r: u32)
    ensures
        r == max_of(original_ids(names@, origins@)),
{
    let mut m: u32 = 0;
    let mut i: usize = 0;
    proof {
        assert(names@.subrange(0, 0) =~= Seq::<String>::empty());
    }
    while i < names.len()
        invariant
            0 <= i <= names@.len(),
            m == max_of(original_ids(names@.subrange(0, i as int), origins@)),
        decreases names@.len() - i,
    {
        let ghost before = original_ids(names@.subrange(0, i as int), origins@);
        proof {
            let pre = names@.subrange(0, i + 1);
            assert(pre.drop_last() =~= names@.subrange(0, i as int));
            assert(pre.last() == names@[i as int]);
        }
        match find_origin(origins, &names[i]) {
            Some(j) => match &origins[j].1.original_sheet_id {
                Some(id) => match parse_u32(&string_chars(id)) {
                    Some(n) => {
                        proof {
                            assert(before.push(n).drop_last() =~= before);
                        }
                        if n > m {
                            m = n;
                        }
                    },
                    None => {},
                },
                None => {},
            },
            None => {},
        }
        i = i + 1;
    }
    proof {
        assert(names@.subrange(0, names@.len() as int) =~= names@);
    }
    m
}

proof fn lemma_plans_fold_monotone(
    names: Seq<String>,
    origins: Seq<(String, WorksheetOrigin)>,
    part0: int,
    id0: int,
    k: int,
    n: int,
)
    requires
        0 <= k <= n,
    ensures
        plans_fold(names, origins, part0, id0, k).1 <= plans_fold(names, origins, part0, id0, n).1,
        plans_fold(names, origins, part0, id0, k).2 <= plans_fold(names, origins, part0, id0, n).2,
        plans_fold(names, origins, part0, id0, k).0.len() == k,
    decreases n - k,
{
    if k < n {
        lemma_plans_fold_monotone(names, origins, part0, id0, k + 1, n);
    } else {
        lemma_plans_fold_len(names, origins, part0, id0, k);
    }
}

proof fn lemma_plans_fold_len(names: Seq<String>, origins: Seq<(String, WorksheetOrigin)>, part0: int, id0: int, k: int)
    requires
        0 <= k,
    ensures
        plans_fold(names, origins, part0, id0, k).0.len() == k,
    decreases k,
{
    if k > 0 {
        lemma_plans_fold_len(names, origins, part0, id0, k - 1);
    }
}

fn plan_one(
    key: &String,
    origin: Option<&WorksheetOrigin>,
    index: usize,
    next_part: u32,
    next_id: u32,
) -> (r: (WorksheetOutputPlan, u32, u32))
    requires
        index < usize::MAX,
        origin_part(opt_origin(origin)) is None ==> next_part < u32::MAX,
        origin_id(opt_origin(origin)) is None ==> next_id < u32::MAX,
    ensures
        ({
            let o = opt_origin(origin);
            let (part, p2) = match origin_part(o) {
                Some(x) => (x, next_part as int),
                None => ("xl/worksheets/sheet"@ + decimal((next_part + 1) as nat) + ".xml"@, next_part + 1),
            };
            let (id, d2) = match origin_id(o) {
                Some(x) => (x, next_id as int),
                None => (decimal((next_id + 1) as nat), next_id + 1),
            };
            let display = match origin_display(o) {
                Some(x) => x,
                None => key@,
            };
            &&& plan_view(r.0) == (key@, display, id, "rId"@ + decimal((index + 1) as nat), part, rels_name_of(
                part,
            ), origin_part(o) is Some)
            &&& r.1 == p2
            &&& r.2 == d2
        }),
{
    let (part, p2) = match origin {
        Some(o) => match &o.original_part_name {
            Some(x) => (x.clone(), next_part),
            None => {
                let n = next_part + 1;
                let mut v: Vec<char> = Vec::new();
                push_str_chars(&mut v, "xl/worksheets/sheet");
                push_all(&mut v, &fmt_u64(n as u64));
                push_str_chars(&mut v, ".xml");
                (string_from_chars(&v), n)
            },
        },
        None => {
            let n = next_part + 1;
            let mut v: Vec<char> = Vec::new();
            push_str_chars(&mut v, "xl/worksheets/sheet");
            push_all(&mut v, &fmt_u64(n as u64));
            push_str_chars(&mut v, ".xml");
            (string_from_chars(&v), n)
        },
    };
    let existing = match origin {
        Some(o) => o.original_part_name.is_some(),
        None => false,
    };
    let (id, d2) = match origin {
        Some(o) => match &o.original_sheet_id {
            Some(x) => (x.clone(), next_id),
            None => (string_from_chars(&fmt_u64((next_id + 1) as u64)), next_id + 1),
        },
        None => (string_from_chars(&fmt_u64((next_id + 1) as u64)), next_id + 1),
    };
    let display = match origin {
        Some(o) => match &o.original_display_name {
            Some(x) => x.clone(),
            None => key.clone(),
        },
        None => key.clone(),
    };
    let mut rel: Vec<char> = Vec::new();
    push_str_chars(&mut rel, "rId");
    push_all(&mut rel, &fmt_u64((index + 1) as u64));
    let rels = part_rels_name(part.as_str());
    let plan = WorksheetOutputPlan {
        sheet_key: key.clone(),
        display_name: display,
        sheet_id: id,
        workbook_rel_id: string_from_chars(&rel),
        output_part_name: part,
        output_rels_name: rels,
        is_existing: existing,
    };
    (plan, p2, d2)
}

pub open spec fn opt_origin(o: Option<&WorksheetOrigin>) -> Option<WorksheetOrigin> {
    match o {
        Some(x) => Some(*x),
        None => None,
    }
}

/// The output plan of each sheet in `sheet_names` (the save's order): a
/// sheet read from the source keeps its part name, `sheetId` and display
/// name; a new one takes the next part number above every reserved one (or,
/// with none reserved, above the origins' own part numbers) and the next
/// `sheetId` above the sheets' source ones; relationship ids follow the
/// order.
pub fn plan_worksheet_output(
    sheet_names: &[String],
    origins: &Vec<(String, WorksheetOrigin)>,
    reserved_part_numbers: &[u32],
) -> (r: Vec<WorksheetOutputPlan>)
    requires
        spec_plans(sheet_names@, origins@, reserved_part_numbers@).1 <= u32::MAX,
        spec_plans(sheet_names@, origins@, reserved_part_numbers@).2 <= u32::MAX,
    ensures
        plans_view(r@) == spec_plans(sheet_names@, origins@, reserved_part_numbers@).0,
{
    let part0 = reserved_max_exec(reserved_part_numbers, origins);
    let id0 = max_original_id_exec(sheet_names, origins);
    let ghost names = sheet_names@;
    let ghost total = names.len() as int;
    let mut next_part: u32 = part0;
    let mut next_id: u32 = id0;
    let mut out: Vec<WorksheetOutputPlan> = Vec::new();
    let mut i: usize = 0;
    proof {
        assert(plans_view(out@) =~= Seq::<PlanV>::empty());
    }
    while i < sheet_names.len()
        invariant
            0 <= i <= names.len(),
            names == sheet_names@,
            total == names.len(),
            part0 == reserved_max(reserved_part_numbers@, origins@),
            id0 == max_of(original_ids(names, origins@)),
            plans_fold(names, origins@, part0 as int, id0 as int, total).1 <= u32::MAX,
            plans_fold(names, origins@, part0 as int, id0 as int, total).2 <= u32::MAX,
            plans_view(out@) == plans_fold(names, origins@, part0 as int, id0 as int, i as int).0,
            next_part == plans_fold(names, origins@, part0 as int, id0 as int, i as int).1,
            next_id == plans_fold(names, origins@, part0 as int, id0 as int, i as int).2,
        decreases names.len() - i,
    {
        proof {
            lemma_plans_fold_monotone(names, origins@, part0 as int, id0 as int, i + 1, total);
        }
        let found = find_origin(origins, &sheet_names[i]);
        let origin: Option<&WorksheetOrigin> = match found {
            Some(j) => Some(&origins[j].1),
            None => None,
        };
        proof {
            assert(opt_origin(origin) == origin_of(origins@, names[i as int]@));
        }
        let (plan, p2, d2) = plan_one(&sheet_names[i], origin, i, next_part, next_id);
        let ghost prev = plans_view(out@);
        out.push(plan);
        proof {
            assert(plans_view(out@) =~= prev.push(plan_view(plan)));
        }
        next_part = p2;
        next_id = d2;
        i = i + 1;
    }
    out
}

// ── Workbook parts ───────────────────────────────────────────────────────

/// Raw fragments of the source `xl/workbook.xml` carried into the written
/// one verbatim, each at its schema position: the root tag's attributes,
/// `workbookPr`, `bookViews`, `definedNames`, `calcPr` and `extLst`.
pub struct OpaqueWorkbookFragments {
    pub root_attrs: Option<String>,
    pub workbook_pr: Option<String>,
    pub book_views: Option<String>,
    pub defined_names: Option<String>,
    pub calc_pr: Option<String>,
    pub ext_lst: Option<String>,
}

impl Default for OpaqueWorkbookFragments {
    fn default() -> (r: OpaqueWorkbookFragments)
        ensures
            r.root_attrs is None,
            r.workbook_pr is None,
            r.book_views is None,
            r.defined_names is None,
            r.calc_pr is None,
            r.ext_lst is None,
    {
        OpaqueWorkbookFragments {
            root_attrs: None,
            workbook_pr: None,
            book_views: None,
            defined_names: None,
            calc_pr: None,
            ext_lst: None,
        }
    }
}

/// A carried fragment on a line of its own, or nothing.
pub open spec fn fragment_line(f: Option<String>) -> Seq<char> {
    match f {
        Some(x) => x@ + seq!['\n'],
        None => Seq::empty(),
    }
}

/// The `<sheet>` elements of the plans, in order.
pub open spec fn sheet_elements(ps: Seq<PlanV>) -> Seq<char>
    decreases ps.len(),
{
    if ps.len() == 0 {
        Seq::empty()
    } else {
        sheet_elements(ps.drop_last()) + "<sheet name=\""@ + xml_escaped(ps.last().1) + "\" sheetId=\""@
            + ps.last().2 + "\" r:id=\""@ + ps.last().3 + "\"/>\n"@
    }
}

/// The written `xl/workbook.xml`.
pub open spec fn workbook_xml(ps: Seq<PlanV>, f: OpaqueWorkbookFragments) -> Seq<char> {
    "<?xml version=\"1.0\" encoding=\"UTF-8\" standalone=\"yes\"?>\n"@ + match f.root_attrs {
        Some(a) => "<workbook "@ + a@ + ">\n"@,
        None => "<workbook xmlns=\"http://schemas.openxmlformats.org/spreadsheetml/2006/main\" xmlns:r=\"http://schemas.openxmlformats.org/officeDocument/2006/relationships\">\n"@,
    } + fragment_line(f.workbook_pr) + fragment_line(f.book_views) + "<sheets>\n"@ + sheet_elements(ps)
        + "</sheets>\n"@ + fragment_line(f.defined_names) + fragment_line(f.calc_pr) + fragment_line(f.ext_lst)
        + "</workbook>\n"@
}

fn push_fragment_line(out: &mut Vec<char>, f: &Option<String>)
    ensures
        final(out)@ == old(out)@ + fragment_line(*f),
{
    let ghost before = out@;
    match f {
        Some(x) => {
            push_all(out, &string_chars(x));
            out.push('\n');
        },
        None => {},
    }
    proof {
        assert(out@ =~= before + fragment_line(*f));
    }
}

fn push_sheet_elements(out: &mut Vec<char>, plans: &[WorksheetOutputPlan])
    ensures
        final(out)@ == old(out)@ + sheet_elements(plans_view(plans@)),
{
    let ghost before = out@;
    let ghost pv = plans_view(plans@);
    let mut i: usize = 0;
    proof {
        assert(pv.subrange(0, 0) =~= Seq::<PlanV>::empty());
        assert(out@ =~= before + sheet_elements(pv.subrange(0, 0)));
    }
    while i < plans.len()
        invariant
            0 <= i <= plans@.len(),
            pv == plans_view(plans@),
            pv.len() == plans@.len(),
            out@ == before + sheet_elements(pv.subrange(0, i as int)),
        decreases plans@.len() - i,
    {
        let ghost pre = pv.subrange(0, i + 1);
        let ghost mid = out@;
        proof {
            assert(pre.drop_last() =~= pv.subrange(0, i as int));
            assert(pre.last() == plan_view(plans@[i as int]));
        }
        let p = &plans[i];
        push_str_chars(out, "<sheet name=\"");
        push_xml_escaped(out, &string_chars(&p.display_name));
        push_str_chars(out, "\" sheetId=\"");
        push_all(out, &string_chars(&p.sheet_id));
        push_str_chars(out, "\" r:id=\"");
        push_all(out, &string_chars(&p.workbook_rel_id));
        push_str_chars(out, "\"/>\n");
        proof {
            assert(out@ =~= before + sheet_elements(pre));
        }
        i = i + 1;
    }
    proof {
        assert(pv.subrange(0, pv.len() as int) =~= pv);
    }
}

/// The `xl/workbook.xml` of a save: the carried root attributes (else the
/// minimal namespaces), the carried fragments at their schema positions,
/// and one `<sheet>` per plan.
pub fn build_xlsx_workbook(worksheet_plans: &[WorksheetOutputPlan], fragments: &OpaqueWorkbookFragments) -> (r: String)
    ensures
        r@ == workbook_xml(plans_view(worksheet_plans@), *fragments),
{
    let mut out: Vec<char> = Vec::new();
    push_str_chars(&mut out, "<?xml version=\"1.0\" encoding=\"UTF-8\" standalone=\"yes\"?>\n");
    match &fragments.root_attrs {
        Some(a) => {
            push_str_chars(&mut out, "<workbook ");
            push_all(&mut out, &string_chars(a));
            push_str_chars(&mut out, ">\n");
        },
        None => push_str_chars(
            &mut out,
            "<workbook xmlns=\"http://schemas.openxmlformats.org/spreadsheetml/2006/main\" xmlns:r=\"http://schemas.openxmlformats.org/officeDocument/2006/relationships\">\n",
        ),
    }
    push_fragment_line(&mut out, &fragments.workbook_pr);
    push_fragment_line(&mut out, &fragments.book_views);
    push_str_chars(&mut out, "<sheets>\n");
    push_sheet_elements(&mut out, worksheet_plans);
    push_str_chars(&mut out, "</sheets>\n");
    push_fragment_line(&mut out, &fragments.defined_names);
    push_fragment_line(&mut out, &fragments.calc_pr);
    push_fragment_line(&mut out, &fragments.ext_lst);
    push_str_chars(&mut out, "</workbook>\n");
    proof {
        assert(out@ =~= workbook_xml(plans_view(worksheet_plans@), *fragments));
    }
    string_from_chars(&out)
}

/// A part name relative to `xl/` (unchanged when it is elsewhere).
pub open spec fn relative_to_xl(part: Seq<char>) -> Seq<char> {
    if part.len() >= 3 && part.subrange(0, 3) == "xl/"@ {
        part.subrange(3, part.len() as int)
    } else {
        part
    }
}

/// The worksheet relationships of the plans, in order.
pub open spec fn worksheet_rels(ps: Seq<PlanV>) -> Seq<char>
    decreases ps.len(),
{
    if ps.len() == 0 {
        Seq::empty()
    } else {
        worksheet_rels(ps.drop_last()) + "<Relationship Id=\""@ + ps.last().3
            + "\" Type=\"http://schemas.openxmlformats.org/officeDocument/2006/relationships/worksheet\" Target=\""@
            + relative_to_xl(ps.last().4) + "\"/>\n"@
    }
}

/// Relationships carried from the source, numbered from `first`.
pub open spec fn carried_rel_elements(rels: Seq<(Seq<char>, Seq<char>)>, first: nat) -> Seq<char>
    decreases rels.len(),
{
    if rels.len() == 0 {
        Seq::empty()
    } else {
        carried_rel_elements(rels.drop_last(), first) + "<Relationship Id=\"rId"@ + decimal(
            (first + rels.len() - 1) as nat,
        ) + "\" Type=\""@ + xml_escaped(rels.last().0) + "\" Target=\""@ + xml_escaped(rels.last().1)
            + "\"/>\n"@
    }
}

pub open spec fn pairs_view(ps: Seq<(String, String)>) -> Seq<(Seq<char>, Seq<char>)> {
    ps.map_values(|p: (String, String)| (p.0@, p.1@))
}

/// The written `xl/_rels/workbook.xml.rels`: one relationship per
/// worksheet, then shared strings and styles, the VBA project when there
/// is one, and the carried relationships, numbered on.
pub open spec fn workbook_rels_xml(ps: Seq<PlanV>, has_vba: bool, carried: Seq<(Seq<char>, Seq<char>)>) -> Seq<char> {
    let n = ps.len();
    "<?xml version=\"1.0\" encoding=\"UTF-8\" standalone=\"yes\"?>\n<Relationships xmlns=\"http://schemas.openxmlformats.org/package/2006/relationships\">\n"@
        + worksheet_rels(ps) + "<Relationship Id=\"rId"@ + decimal(n + 1)
        + "\" Type=\"http://schemas.openxmlformats.org/officeDocument/2006/relationships/sharedStrings\" Target=\"sharedStrings.xml\"/>\n"@
        + "<Relationship Id=\"rId"@ + decimal(n + 2)
        + "\" Type=\"http://schemas.openxmlformats.org/officeDocument/2006/relationships/styles\" Target=\"styles.xml\"/>\n"@
        + (if has_vba {
        "<Relationship Id=\"rId"@ + decimal(n + 3)
            + "\" Type=\"http://schemas.microsoft.com/office/2006/relationships/vbaProject\" Target=\"vbaProject.bin\"/>\n"@
    } else {
        Seq::empty()
    }) + carried_rel_elements(carried, if has_vba {
        n + 4
    } else {
        n + 3
    }) + "</Relationships>\n"@
}

fn push_carried_rels(out: &mut Vec<char>, rels: &[(String, String)], first: usize)
    requires
        first + rels@.len() <= usize::MAX,
    ensures
        final(out)@ == old(out)@ + carried_rel_elements(pairs_view(rels@), first as nat),
{
    let ghost before = out@;
    let ghost rv = pairs_view(rels@);
    let mut i: usize = 0;
    proof {
        assert(rv.subrange(0, 0) =~= Seq::<(Seq<char>, Seq<char>)>::empty());
        assert(out@ =~= before + carried_rel_elements(rv.subrange(0, 0), first as nat));
    }
    while i < rels.len()
        invariant
            0 <= i <= rels@.len(),
            first + rels@.len() <= usize::MAX,
            rv == pairs_view(rels@),
            rv.len() == rels@.len(),
            out@ == before + carried_rel_elements(rv.subrange(0, i as int), first as nat),
        decreases rels@.len() - i,
    {
        let ghost pre = rv.subrange(0, i + 1);
        proof {
            assert(pre.drop_last() =~= rv.subrange(0, i as int));
            assert(pre.last() == (rels@[i as int].0@, rels@[i as int].1@));
        }
        push_str_chars(out, "<Relationship Id=\"rId");
        push_all(out, &fmt_u64((first + i) as u64));
        push_str_chars(out, "\" Type=\"");
        push_xml_escaped(out, &string_chars(&rels[i].0));
        push_str_chars(out, "\" Target=\"");
        push_xml_escaped(out, &string_chars(&rels[i].1));
        push_str_chars(out, "\"/>\n");
        proof {
            assert(out@ =~= before + carried_rel_elements(pre, first as nat));
        }
        i = i + 1;
    }
    proof {
        assert(rv.subrange(0, rv.len() as int) =~= rv);
    }
}

fn push_worksheet_rels(out: &mut Vec<char>, plans: &[WorksheetOutputPlan])
    ensures
        final(out)@ == old(out)@ + worksheet_rels(plans_view(plans@)),
{
    let ghost before = out@;
    let ghost pv = plans_view(plans@);
    let xl = str_chars("xl/");
    proof {
        reveal_strlit("xl/");
    }
    let mut i: usize = 0;
    proof {
        assert(pv.subrange(0, 0) =~= Seq::<PlanV>::empty());
        assert(out@ =~= before + worksheet_rels(pv.subrange(0, 0)));
    }
    while i < plans.len()
        invariant
            0 <= i <= plans@.len(),
            pv == plans_view(plans@),
            pv.len() == plans@.len(),
            xl@ == "xl/"@,
            xl@.len() == 3,
            out@ == before + worksheet_rels(pv.subrange(0, i as int)),
        decreases plans@.len() - i,
    {
        let ghost pre = pv.subrange(0, i + 1);
        proof {
            assert(pre.drop_last() =~= pv.subrange(0, i as int));
            assert(pre.last() == plan_view(plans@[i as int]));
        }
        let p = &plans[i];
        let part = string_chars(&p.output_part_name);
        let target = if has_prefix(&part, &xl) {
            slice_chars(&part, 3, part.len())
        } else {
            part
        };
        proof {
            assert(target@ == relative_to_xl(plans@[i as int].output_part_name@));
        }
        push_str_chars(out, "<Relationship Id=\"");
        push_all(out, &string_chars(&p.workbook_rel_id));
        push_str_chars(
            out,
            "\" Type=\"http://schemas.openxmlformats.org/officeDocument/2006/relationships/worksheet\" Target=\"",
        );
        push_all(out, &target);
        push_str_chars(out, "\"/>\n");
        proof {
            assert(out@ =~= before + worksheet_rels(pre));
        }
        i = i + 1;
    }
    proof {
        assert(pv.subrange(0, pv.len() as int) =~= pv);
    }
}

/// The `xl/_rels/workbook.xml.rels` of a save.
pub fn build_xlsx_workbook_rels(worksheet_plans: &[WorksheetOutputPlan], has_vba: bool, carried_rels: &[(String, String)]) -> (r: String)
    requires
        worksheet_plans@.len() + 4 + carried_rels@.len() <= usize::MAX,
    ensures
        r@ == workbook_rels_xml(plans_view(worksheet_plans@), has_vba, pairs_view(carried_rels@)),
{
    let ghost pv = plans_view(worksheet_plans@);
    let mut out: Vec<char> = Vec::new();
    push_str_chars(
        &mut out,
        "<?xml version=\"1.0\" encoding=\"UTF-8\" standalone=\"yes\"?>\n<Relationships xmlns=\"http://schemas.openxmlformats.org/package/2006/relationships\">\n",
    );
    push_worksheet_rels(&mut out, worksheet_plans);
    let n = worksheet_plans.len();
    push_str_chars(&mut out, "<Relationship Id=\"rId");
    push_all(&mut out, &fmt_u64((n + 1) as u64));
    push_str_chars(
        &mut out,
        "\" Type=\"http://schemas.openxmlformats.org/officeDocument/2006/relationships/sharedStrings\" Target=\"sharedStrings.xml\"/>\n",
    );
    push_str_chars(&mut out, "<Relationship Id=\"rId");
    push_all(&mut out, &fmt_u64((n + 2) as u64));
    push_str_chars(
        &mut out,
        "\" Type=\"http://schemas.openxmlformats.org/officeDocument/2006/relationships/styles\" Target=\"styles.xml\"/>\n",
    );
    let ghost mid = out@;
    let mut next_id = n + 3;
    if has_vba {
        push_str_chars(&mut out, "<Relationship Id=\"rId");
        push_all(&mut out, &fmt_u64(next_id as u64));
        push_str_chars(
            &mut out,
            "\" Type=\"http://schemas.microsoft.com/office/2006/relationships/vbaProject\" Target=\"vbaProject.bin\"/>\n",
        );
        next_id = next_id + 1;
    }
    let ghost mid2 = out@;
    proof {
        assert(pv.len() == n);
        assert(mid2 =~= mid + (if has_vba {
            "<Relationship Id=\"rId"@ + decimal((n + 3) as nat)
                + "\" Type=\"http://schemas.microsoft.com/office/2006/relationships/vbaProject\" Target=\"vbaProject.bin\"/>\n"@
        } else {
            Seq::empty()
        }));
    }
    push_carried_rels(&mut out, carried_rels, next_id);
    push_str_chars(&mut out, "</Relationships>\n");
    proof {
        assert(out@ =~= workbook_rels_xml(pv, has_vba, pairs_view(carried_rels@)));
    }
    string_from_chars(&out)
}

/// The written `_rels/.rels`: the office document, then the carried root
/// relationships numbered from 2.
pub open spec fn root_rels_xml(carried: Seq<(Seq<char>, Seq<char>)>) -> Seq<char> {
    "<?xml version=\"1.0\" encoding=\"UTF-8\" standalone=\"yes\"?>\n<Relationships xmlns=\"http://schemas.openxmlformats.org/package/2006/relationships\">\n<Relationship Id=\"rId1\" Type=\"http://schemas.openxmlformats.org/officeDocument/2006/relationships/officeDocument\" Target=\"xl/workbook.xml\"/>\n"@
        + carried_rel_elements(carried, 2) + "</Relationships>\n"@
}

/// The package's `_rels/.rels` of a save.
pub fn build_xlsx_root_rels(carried_root_rels: &[(String, String)]) -> (r: String)
    requires
        carried_root_rels@.len() + 2 <= usize::MAX,
    ensures
        r@ == root_rels_xml(pairs_view(carried_root_rels@)),
{
    let mut out: Vec<char> = Vec::new();
    push_str_chars(
        &mut out,
        "<?xml version=\"1.0\" encoding=\"UTF-8\" standalone=\"yes\"?>\n<Relationships xmlns=\"http://schemas.openxmlformats.org/package/2006/relationships\">\n<Relationship Id=\"rId1\" Type=\"http://schemas.openxmlformats.org/officeDocument/2006/relationships/officeDocument\" Target=\"xl/workbook.xml\"/>\n",
    );
    push_carried_rels(&mut out, carried_root_rels, 2);
    push_str_chars(&mut out, "</Relationships>\n");
    proof {
        assert(out@ =~= root_rels_xml(pairs_view(carried_root_rels@)));
    }
    string_from_chars(&out)
}

/// The worksheet content-type overrides of the plans, in order.
pub open spec fn worksheet_overrides(ps: Seq<PlanV>) -> Seq<char>
    decreases ps.len(),
{
    if ps.len() == 0 {
        Seq::empty()
    } else {
        worksheet_overrides(ps.drop_last()) + "<Override PartName=\"/"@ + ps.last().4
            + "\" ContentType=\"application/vnd.openxmlformats-officedocument.spreadsheetml.worksheet+xml\"/>\n"@
    }
}

/// Content-type overrides carried from the source, in order.
pub open spec fn carried_overrides_xml(os: Seq<(Seq<char>, Seq<char>)>) -> Seq<char>
    decreases os.len(),
{
    if os.len() == 0 {
        Seq::empty()
    } else {
        carried_overrides_xml(os.drop_last()) + "<Override PartName=\""@ + xml_escaped(os.last().0)
            + "\" ContentType=\""@ + xml_escaped(os.last().1) + "\"/>\n"@
    }
}

/// The written `[Content_Types].xml`; the workbook's content type follows
/// the file format (macro-enabled for `.xlsm`).
pub open spec fn content_types_xml(ps: Seq<PlanV>, is_xlsm: bool, carried: Seq<(Seq<char>, Seq<char>)>) -> Seq<char> {
    "<?xml version=\"1.0\" encoding=\"UTF-8\" standalone=\"yes\"?>\n<Types xmlns=\"http://schemas.openxmlformats.org/package/2006/content-types\">\n<Default Extension=\"rels\" ContentType=\"application/vnd.openxmlformats-package.relationships+xml\"/>\n<Default Extension=\"xml\" ContentType=\"application/xml\"/>\n"@
        + "<Override PartName=\"/xl/workbook.xml\" ContentType=\""@ + (if is_xlsm {
        "application/vnd.ms-excel.sheet.macroEnabled.main+xml"@
    } else {
        "application/vnd.openxmlformats-officedocument.spreadsheetml.sheet.main+xml"@
    }) + "\"/>\n"@ + worksheet_overrides(ps)
        + "<Override PartName=\"/xl/sharedStrings.xml\" ContentType=\"application/vnd.openxmlformats-officedocument.spreadsheetml.sharedStrings+xml\"/>\n<Override PartName=\"/xl/styles.xml\" ContentType=\"application/vnd.openxmlformats-officedocument.spreadsheetml.styles+xml\"/>\n"@
        + carried_overrides_xml(carried) + "</Types>\n"@
}

fn push_worksheet_overrides(out: &mut Vec<char>, plans: &[WorksheetOutputPlan])
    ensures
        final(out)@ == old(out)@ + worksheet_overrides(plans_view(plans@)),
{
    let ghost before = out@;
    let ghost pv = plans_view(plans@);
    let mut i: usize = 0;
    proof {
        assert(pv.subrange(0, 0) =~= Seq::<PlanV>::empty());
        assert(out@ =~= before + worksheet_overrides(pv.subrange(0, 0)));
    }
    while i < plans.len()
        invariant
            0 <= i <= plans@.len(),
            pv == plans_view(plans@),
            pv.len() == plans@.len(),
            out@ == before + worksheet_overrides(pv.subrange(0, i as int)),
        decreases plans@.len() - i,
    {
        let ghost pre = pv.subrange(0, i + 1);
        proof {
            assert(pre.drop_last() =~= pv.subrange(0, i as int));
            assert(pre.last() == plan_view(plans@[i as int]));
        }
        push_str_chars(out, "<Override PartName=\"/");
        push_all(out, &string_chars(&plans[i].output_part_name));
        push_str_chars(
            out,
            "\" ContentType=\"application/vnd.openxmlformats-officedocument.spreadsheetml.worksheet+xml\"/>\n",
        );
        proof {
            assert(out@ =~= before + worksheet_overrides(pre));
        }
        i = i + 1;
    }
    proof {
        assert(pv.subrange(0, pv.len() as int) =~= pv);
    }
}

fn push_carried_overrides(out: &mut Vec<char>, overrides: &[(String, String)])
    ensures
        final(out)@ == old(out)@ + carried_overrides_xml(pairs_view(overrides@)),
{
    let ghost before = out@;
    let ghost ov = pairs_view(overrides@);
    let mut i: usize = 0;
    proof {
        assert(ov.subrange(0, 0) =~= Seq::<(Seq<char>, Seq<char>)>::empty());
        assert(out@ =~= before + carried_overrides_xml(ov.subrange(0, 0)));
    }
    while i < overrides.len()
        invariant
            0 <= i <= overrides@.len(),
            ov == pairs_view(overrides@),
            ov.len() == overrides@.len(),
            out@ == before + carried_overrides_xml(ov.subrange(0, i as int)),
        decreases overrides@.len() - i,
    {
        let ghost pre = ov.subrange(0, i + 1);
        proof {
            assert(pre.drop_last() =~= ov.subrange(0, i as int));
            assert(pre.last() == (overrides@[i as int].0@, overrides@[i as int].1@));
        }
        push_str_chars(out, "<Override PartName=\"");
        push_xml_escaped(out, &string_chars(&overrides[i].0));
        push_str_chars(out, "\" ContentType=\"");
        push_xml_escaped(out, &string_chars(&overrides[i].1));
        push_str_chars(out, "\"/>\n");
        proof {
            assert(out@ =~= before + carried_overrides_xml(pre));
        }
        i = i + 1;
    }
    proof {
        assert(ov.subrange(0, ov.len() as int) =~= ov);
    }
}

/// The `[Content_Types].xml` of a save.
pub fn build_xlsx_content_types(
    worksheet_plans: &[WorksheetOutputPlan],
    is_xlsm_output: bool,
    carried_overrides: &[(String, String)],
) -> (r: String)
    ensures
        r@ == content_types_xml(plans_view(worksheet_plans@), is_xlsm_output, pairs_view(carried_overrides@)),
{
    let mut out: Vec<char> = Vec::new();
    push_str_chars(
        &mut out,
        "<?xml version=\"1.0\" encoding=\"UTF-8\" standalone=\"yes\"?>\n<Types xmlns=\"http://schemas.openxmlformats.org/package/2006/content-types\">\n<Default Extension=\"rels\" ContentType=\"application/vnd.openxmlformats-package.relationships+xml\"/>\n<Default Extension=\"xml\" ContentType=\"application/xml\"/>\n",
    );
    push_str_chars(&mut out, "<Override PartName=\"/xl/workbook.xml\" ContentType=\"");
    if is_xlsm_output {
        push_str_chars(&mut out, "application/vnd.ms-excel.sheet.macroEnabled.main+xml");
    } else {
        push_str_chars(&mut out, "application/vnd.openxmlformats-officedocument.spreadsheetml.sheet.main+xml");
    }
    push_str_chars(&mut out, "\"/>\n");
    push_worksheet_overrides(&mut out, worksheet_plans);
    push_str_chars(
        &mut out,
        "<Override PartName=\"/xl/sharedStrings.xml\" ContentType=\"application/vnd.openxmlformats-officedocument.spreadsheetml.sharedStrings+xml\"/>\n<Override PartName=\"/xl/styles.xml\" ContentType=\"application/vnd.openxmlformats-officedocument.spreadsheetml.styles+xml\"/>\n",
    );
    push_carried_overrides(&mut out, carried_overrides);
    push_str_chars(&mut out, "</Types>\n");
    proof {
        assert(out@ =~= content_types_xml(plans_view(worksheet_plans@), is_xlsm_output, pairs_view(carried_overrides@)));
    }
    string_from_chars(&out)
}

/// The `META-INF/manifest.xml` of an OpenDocument save: the package entry
/// and its `content.xml`.
pub open spec fn ods_manifest_xml() -> Seq<char> {
    "<?xml version=\"1.0\" encoding=\"UTF-8\"?>\n<manifest:manifest xmlns:manifest=\"urn:oasis:names:tc:opendocument:xmlns:manifest:1.0\" manifest:version=\"1.2\">\n <manifest:file-entry manifest:media-type=\"application/vnd.oasis.opendocument.spreadsheet\" manifest:version=\"1.2\" manifest:full-path=\"/\"/>\n <manifest:file-entry manifest:media-type=\"text/xml\" manifest:full-path=\"content.xml\"/>\n"@ + "</manifest:manifest>\n"@
}

/// The manifest of an OpenDocument save; it lists the same two entries
/// whatever the workbook holds.
pub fn build_ods_manifest() -> (r: String)
    ensures
        r@ == ods_manifest_xml(),
{
    let mut out: Vec<char> = Vec::new();
    push_str_chars(
        &mut out,
        "<?xml version=\"1.0\" encoding=\"UTF-8\"?>\n<manifest:manifest xmlns:manifest=\"urn:oasis:names:tc:opendocument:xmlns:manifest:1.0\" manifest:version=\"1.2\">\n <manifest:file-entry manifest:media-type=\"application/vnd.oasis.opendocument.spreadsheet\" manifest:version=\"1.2\" manifest:full-path=\"/\"/>\n <manifest:file-entry manifest:media-type=\"text/xml\" manifest:full-path=\"content.xml\"/>\n",
    );
    push_str_chars(&mut out, "</manifest:manifest>\n");
    proof {
        assert(out@ =~= ods_manifest_xml());
    }
    string_from_chars(&out)
}

// ── The package's entries ────────────────────────────────────────────────

/// The contents of one package entry: regenerated XML text, or bytes.
pub enum PartData {
    Text(String),
    Bytes(Vec<u8>),
}

/// The view of a `PartData`.
pub enum PartDataV {
    Text(Seq<char>),
    Bytes(Seq<u8>),
}

impl PartData {
    pub open spec fn view(&self) -> PartDataV {
        match self {
            PartData::Text(t) => PartDataV::Text(t@),
            PartData::Bytes(b) => PartDataV::Bytes(b@),
        }
    }
}

/// The parts of an OOXML save.
pub struct XlsxParts {
    pub content_types: String,
    pub root_rels: String,
    pub workbook: String,
    pub workbook_rels: String,
    /// Each worksheet's part name and XML.
    pub sheets: Vec<(String, String)>,
    pub shared_strings: String,
    pub styles: Vec<u8>,
    /// The parts copied through from the source package.
    pub passthrough: Vec<(String, Vec<u8>)>,
}

pub open spec fn entries_data_view(es: Seq<(String, PartData)>) -> Seq<(Seq<char>, PartDataV)> {
    es.map_values(|e: (String, PartData)| (e.0@, e.1.view()))
}

/// The entries of the package in the order they are written: content
/// types, root relationships, workbook, workbook relationships, the
/// worksheets, shared strings, styles, then the parts copied through.
pub open spec fn package_entries(p: XlsxParts) -> Seq<(Seq<char>, PartDataV)> {
    seq![
        ("[Content_Types].xml"@, PartDataV::Text(p.content_types@)),
        ("_rels/.rels"@, PartDataV::Text(p.root_rels@)),
        ("xl/workbook.xml"@, PartDataV::Text(p.workbook@)),
        ("xl/_rels/workbook.xml.rels"@, PartDataV::Text(p.workbook_rels@)),
    ] + p.sheets@.map_values(|s: (String, String)| (s.0@, PartDataV::Text(s.1@))) + seq![
        ("xl/sharedStrings.xml"@, PartDataV::Text(p.shared_strings@)),
        ("xl/styles.xml"@, PartDataV::Bytes(p.styles@)),
    ] + p.passthrough@.map_values(|e: (String, Vec<u8>)| (e.0@, PartDataV::Bytes(e.1@)))
}

fn name_text(s: &str) -> (r: String)
    ensures
        r@ == s@,
{
    let mut v: Vec<char> = Vec::new();
    push_str_chars(&mut v, s);
    string_from_chars(&v)
}

/// The package's entries, in the order an OOXML save writes them.
pub fn xlsx_package_entries(parts: XlsxParts) -> (r: Vec<(String, PartData)>)
    ensures
        entries_data_view(r@) == package_entries(parts),
{
    let ghost p = parts;
    let XlsxParts { content_types, root_rels, workbook, workbook_rels, sheets, shared_strings, styles, passthrough } =
        parts;
    let mut out: Vec<(String, PartData)> = Vec::new();
    out.push((name_text("[Content_Types].xml"), PartData::Text(content_types)));
    out.push((name_text("_rels/.rels"), PartData::Text(root_rels)));
    out.push((name_text("xl/workbook.xml"), PartData::Text(workbook)));
    out.push((name_text("xl/_rels/workbook.xml.rels"), PartData::Text(workbook_rels)));
    let ghost head = entries_data_view(out@);
    proof {
        assert(head =~= seq![
            ("[Content_Types].xml"@, PartDataV::Text(p.content_types@)),
            ("_rels/.rels"@, PartDataV::Text(p.root_rels@)),
            ("xl/workbook.xml"@, PartDataV::Text(p.workbook@)),
            ("xl/_rels/workbook.xml.rels"@, PartDataV::Text(p.workbook_rels@)),
        ]);
    }
    let ghost sv = p.sheets@.map_values(|s: (String, String)| (s.0@, PartDataV::Text(s.1@)));
    let mut sheets = sheets;
    let total: usize = sheets.len();
    let mut k: usize = 0;
    while sheets.len() > 0
        invariant
            sheets@ == p.sheets@.subrange(k as int, p.sheets@.len() as int),
            k <= p.sheets@.len(),
            total == p.sheets@.len(),
            entries_data_view(out@) == head + sv.subrange(0, k as int),
            sv == p.sheets@.map_values(|s: (String, String)| (s.0@, PartDataV::Text(s.1@))),
            head.len() == 4,
        decreases sheets@.len(),
    {
        let ghost e = sheets@[0];
        proof {
            assert(sheets@.len() == p.sheets@.len() - k);
            assert(k < p.sheets@.len());
            assert(e == p.sheets@[k as int]);
            assert(sv[k as int] == (e.0@, PartDataV::Text(e.1@)));
        }
        let (name, xml) = sheets.remove(0);
        proof {
            assert(sheets@ =~= p.sheets@.subrange(k + 1, p.sheets@.len() as int));
        }
        let ghost before = entries_data_view(out@);
        out.push((name, PartData::Text(xml)));
        proof {
            assert(entries_data_view(out@) =~= before.push(sv[k as int]));
            assert(sv.subrange(0, k + 1) =~= sv.subrange(0, k as int).push(sv[k as int]));
        }
        k = k + 1;
    }
    proof {
        assert(sv.subrange(0, k as int) =~= sv);
    }
    out.push((name_text("xl/sharedStrings.xml"), PartData::Text(shared_strings)));
    out.push((name_text("xl/styles.xml"), PartData::Bytes(styles)));
    let ghost mid = entries_data_view(out@);
    proof {
        assert(mid =~= head + sv + seq![
            ("xl/sharedStrings.xml"@, PartDataV::Text(p.shared_strings@)),
            ("xl/styles.xml"@, PartDataV::Bytes(p.styles@)),
        ]);
    }
    let ghost pv = p.passthrough@.map_values(|e: (String, Vec<u8>)| (e.0@, PartDataV::Bytes(e.1@)));
    let mut rest = passthrough;
    let total2: usize = rest.len();
    let mut m: usize = 0;
    while rest.len() > 0
        invariant
            rest@ == p.passthrough@.subrange(m as int, p.passthrough@.len() as int),
            m <= p.passthrough@.len(),
            total2 == p.passthrough@.len(),
            entries_data_view(out@) == mid + pv.subrange(0, m as int),
            pv == p.passthrough@.map_values(|e: (String, Vec<u8>)| (e.0@, PartDataV::Bytes(e.1@))),
        decreases rest@.len(),
    {
        let ghost e = rest@[0];
        proof {
            assert(rest@.len() == p.passthrough@.len() - m);
            assert(m < p.passthrough@.len());
            assert(e == p.passthrough@[m as int]);
            assert(pv[m as int] == (e.0@, PartDataV::Bytes(e.1@)));
        }
        let (name, bytes) = rest.remove(0);
        proof {
            assert(rest@ =~= p.passthrough@.subrange(m + 1, p.passthrough@.len() as int));
        }
        let ghost before = entries_data_view(out@);
        out.push((name, PartData::Bytes(bytes)));
        proof {
            assert(entries_data_view(out@) =~= before.push(pv[m as int]));
            assert(pv.subrange(0, m + 1) =~= pv.subrange(0, m as int).push(pv[m as int]));
        }
        m = m + 1;
    }
    proof {
        assert(pv.subrange(0, m as int) =~= pv);
        assert(entries_data_view(out@) =~= package_entries(p));
    }
    out
}

} // verus!
