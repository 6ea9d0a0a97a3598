//! Structured error classification and hand-rolled JSON output for the
//! CLI's `--json` agent contract. The output shapes are flat and fixed, so a
//! small escaper is all that's needed.
//!
//! Classification happens at the CLI boundary, by pattern-matching the
//! error text produced by the parser, the VM and the reader.

use vstd::prelude::*;
use crate::text::{
    fmt_u64, join_with, push_all, push_str_chars, str_chars, string_chars, string_from_chars,
};

verus! {

/// A char-offset span in a source file.
#[derive(Debug, Clone, Copy, PartialEq, Eq)]
pub struct SourceSpan {
    pub start: u32,
    pub end: u32,
}

/// Where a `SourceSpan` lands in a source file: 1-based line and column,
/// matching editor conventions.
pub struct SourceLocation {
    pub file: String,
    pub line: u32,
    pub column: u32,
}

/// The 1-based `(line, column)` just after reading the chars `p`: a `\n`
/// starts a new line at column 1, any other char moves one column on.
pub open spec fn line_col(p: Seq<char>) -> (int, int)
    decreases p.len(),
{
    if p.len() == 0 {
        (1, 1)
    } else {
        let (l, c) = line_col(p.drop_last());
        if p.last() == '\n' {
            (l + 1, 1)
        } else {
            (l, c + 1)
        }
    }
}

/// The chars of `source` before offset `start` (all of them when `start` is
/// past the end).
pub open spec fn before_offset(source: Seq<char>, start: u32) -> Seq<char> {
    if start < source.len() {
        source.take(start as int)
    } else {
        source
    }
}

/// The line and column of `start` fit in `u32`.
pub open spec fn locate_fits(source: Seq<char>, start: u32) -> bool {
    line_col(before_offset(source, start)).0 <= u32::MAX && line_col(
        before_offset(source, start),
    ).1 <= u32::MAX
}

proof fn lemma_line_col_positive(p: Seq<char>)
    ensures
        line_col(p).0 >= 1,
        line_col(p).1 >= 1,
        line_col(p).0 <= p.len() + 1,
        line_col(p).1 <= p.len() + 1,
    decreases p.len(),
{
    if p.len() > 0 {
        lemma_line_col_positive(p.drop_last());
    }
}

/// Converts a char-offset span into a 1-based line/column by scanning
/// `source` once.
pub fn locate(source: &str, file: &str, span: SourceSpan) -> (r: SourceLocation)
    requires
        locate_fits(source@, span.start),
    ensures
        r.file@ == file@,
        r.line as int == line_col(before_offset(source@, span.start)).0,
        r.column as int == line_col(before_offset(source@, span.start)).1,
{
    let chars = str_chars(source);
    let n: usize = if (span.start as usize) < chars.len() {
        span.start as usize
    } else {
        chars.len()
    };
    let ghost p = before_offset(source@, span.start);
    proof {
        assert(p == chars@.take(n as int));
    }
    let mut line: u32 = 1;
    let mut column: u32 = 1;
    let mut i: usize = 0;
    proof {
        assert(chars@.take(0) =~= Seq::<char>::empty());
    }
    while i < n
        invariant
            0 <= i <= n <= chars@.len(),
            n <= u32::MAX,
            p == chars@.take(n as int),
            line_col(p).0 <= u32::MAX,
            line_col(p).1 <= u32::MAX,
            (line as int, column as int) == line_col(chars@.take(i as int)),
        decreases n - i,
    {
        let c = chars[i];
        proof {
            let q = chars@.take(i + 1);
            assert(q.drop_last() =~= chars@.take(i as int));
            assert(q.last() == c);
            assert(p.take(i + 1) =~= q);
            lemma_line_col_column_bound(p, i + 1);
            lemma_line_col_positive(q);
            if i + 1 == n {
                assert(q =~= p);
            }
        }
        if c == '\n' {
            line = line + 1;
            column = 1;
        } else {
            column = column + 1;
        }
        i = i + 1;
    }
    SourceLocation { file: file.to_owned(), line, column }
}

/// A line reached later is a strictly later line, or the same line with a
/// column at least as far.
proof fn lemma_line_col_column_bound(p: Seq<char>, k: int)
    requires
        0 <= k <= p.len(),
    ensures
        line_col(p.take(k)).0 < line_col(p).0 || (line_col(p.take(k)).0 == line_col(p).0
            && line_col(p.take(k)).1 <= line_col(p).1),
    decreases p.len() - k,
{
    if k < p.len() {
        lemma_line_col_column_bound(p, k + 1);
        let q = p.take(k + 1);
        assert(q.drop_last() =~= p.take(k));
    } else {
        assert(p.take(k) =~= p);
    }
}

// ── JSON strings ─────────────────────────────────────────────────────────

/// A lowercase hexadecimal digit.
pub open spec fn hex_digit(d: nat) -> char {
    if d < 10 {
        ((d + 48) as u32) as char
    } else {
        ((d + 87) as u32) as char
    }
}

/// How one char is written inside a JSON string literal: `"` and `\` and
/// the named control chars get a backslash escape, the other control chars
/// below U+0020 a `\u00XX` escape, everything else itself.
pub open spec fn escape_char(c: char) -> Seq<char> {
    if c == '"' {
        seq!['\\', '"']
    } else if c == '\\' {
        seq!['\\', '\\']
    } else if c == '\n' {
        seq!['\\', 'n']
    } else if c == '\r' {
        seq!['\\', 'r']
    } else if c == '\t' {
        seq!['\\', 't']
    } else if (c as u32) < 0x20 {
        seq!['\\', 'u', '0', '0', hex_digit(((c as u32) / 16) as nat), hex_digit(((c as u32) % 16) as nat)]
    } else {
        seq![c]
    }
}

/// `s` escaped for embedding inside a JSON string literal.
pub open spec fn json_escaped(s: Seq<char>) -> Seq<char>
    decreases s.len(),
{
    if s.len() == 0 {
        Seq::empty()
    } else {
        json_escaped(s.drop_last()) + escape_char(s.last())
    }
}

/// `s` as a quoted JSON string literal.
pub open spec fn json_quoted(s: Seq<char>) -> Seq<char> {
    seq!['"'] + json_escaped(s) + seq!['"']
}

fn hex_char(d: u32) -> (r: char)
    requires
        d < 16,
    ensures
        r == hex_digit(d as nat),
{
    let code: u32 = if d < 10 {
        d + 48
    } else {
        d + 87
    };
    let b: u8 = code as u8;
    let r = b as char;
    proof {
        assert(r as u32 == code);
    }
    r
}

fn push_escaped_char(out: &mut Vec<char>, c: char)
    ensures
        final(out)@ == old(out)@ + escape_char(c),
{
    let ghost before = out@;
    if c == '"' {
        out.push('\\');
        out.push('"');
    } else if c == '\\' {
        out.push('\\');
        out.push('\\');
    } else if c == '\n' {
        out.push('\\');
        out.push('n');
    } else if c == '\r' {
        out.push('\\');
        out.push('r');
    } else if c == '\t' {
        out.push('\\');
        out.push('t');
    } else if (c as u32) < 0x20 {
        let v = c as u32;
        out.push('\\');
        out.push('u');
        out.push('0');
        out.push('0');
        out.push(hex_char(v / 16));
        out.push(hex_char(v % 16));
    } else {
        out.push(c);
    }
    proof {
        assert(out@ =~= before + escape_char(c));
    }
}

fn push_escaped(out: &mut Vec<char>, s: &Vec<char>)
    ensures
        final(out)@ == old(out)@ + json_escaped(s@),
{
    let ghost before = out@;
    let mut i: usize = 0;
    proof {
        assert(s@.subrange(0, 0) =~= Seq::<char>::empty());
        assert(out@ =~= before + json_escaped(s@.subrange(0, 0)));
    }
    while i < s.len()
        invariant
            0 <= i <= s@.len(),
            out@ == before + json_escaped(s@.subrange(0, i as int)),
        decreases s@.len() - i,
    {
        let ghost pre = s@.subrange(0, i + 1);
        proof {
            assert(pre.drop_last() =~= s@.subrange(0, i as int));
            assert(pre.last() == s@[i as int]);
        }
        push_escaped_char(out, s[i]);
        proof {
            assert(out@ =~= before + json_escaped(pre));
        }
        i = i + 1;
    }
    proof {
        assert(s@.subrange(0, s@.len() as int) =~= s@);
    }
}

pub fn push_quoted_chars(out: &mut Vec<char>, s: &Vec<char>)
    ensures
        final(out)@ == old(out)@ + json_quoted(s@),
{
    let ghost before = out@;
    out.push('"');
    push_escaped(out, s);
    out.push('"');
    proof {
        assert(out@ =~= before + json_quoted(s@));
    }
}

/// Escapes a string for embedding inside a JSON string literal (without
/// the surrounding quotes).
pub fn json_escape(s: &str) -> (r: String)
    ensures
        r@ == json_escaped(s@),
{
    let chars = str_chars(s);
    let mut out: Vec<char> = Vec::new();
    push_escaped(&mut out, &chars);
    proof {
        assert(out@ =~= json_escaped(s@));
    }
    string_from_chars(&out)
}

/// A quoted, escaped JSON string literal.
pub fn json_string(s: &str) -> (r: String)
    ensures
        r@ == json_quoted(s@),
{
    let chars = str_chars(s);
    let mut out: Vec<char> = Vec::new();
    push_quoted_chars(&mut out, &chars);
    proof {
        assert(out@ =~= json_quoted(s@));
    }
    string_from_chars(&out)
}

/// An escaped string holds no control char below U+0020: every such char
/// becomes an escape sequence of printable chars.
pub proof fn law_json_escaped_has_no_control_chars(s: Seq<char>)
    ensures
        forall|k: int| 0 <= k < json_escaped(s).len() ==> (#[trigger] json_escaped(s)[k] as u32) >= 0x20,
    decreases s.len(),
{
    if s.len() > 0 {
        law_json_escaped_has_no_control_chars(s.drop_last());
        let prev = json_escaped(s.drop_last());
        let e = escape_char(s.last());
        let c = s.last();
        if (c as u32) < 0x20 && c != '\n' && c != '\r' && c != '\t' {
            let v = c as u32;
            assert(v / 16 < 2);
            assert(v % 16 < 16);
        }
        assert forall|k: int| 0 <= k < e.len() implies (#[trigger] e[k] as u32) >= 0x20 by {
        }
        assert forall|k: int| 0 <= k < json_escaped(s).len() implies (#[trigger] json_escaped(s)[k] as u32) >= 0x20 by {
            if k < prev.len() {
                assert(json_escaped(s)[k] == prev[k]);
            } else {
                assert(json_escaped(s)[k] == e[k - prev.len()]);
            }
        }
    }
}

/// The value of a hexadecimal digit (either case), or -1.
pub open spec fn hex_value(c: char) -> int {
    let v = c as u32;
    if 48 <= v <= 57 {
        v - 48
    } else if 97 <= v <= 102 {
        v - 87
    } else if 65 <= v <= 70 {
        v - 55
    } else {
        -1
    }
}

/// The char a single-char JSON escape `\e` stands for.
pub open spec fn short_escape(e: char) -> Option<char> {
    if e == '"' {
        Some('"')
    } else if e == '\\' {
        Some('\\')
    } else if e == '/' {
        Some('/')
    } else if e == 'b' {
        Some(8u32 as char)
    } else if e == 'f' {
        Some(12u32 as char)
    } else if e == 'n' {
        Some('\n')
    } else if e == 'r' {
        Some('\r')
    } else if e == 't' {
        Some('\t')
    } else {
        None
    }
}

/// The code point of the `\uXXXX` escape whose four digits open `t`, when
/// they are hexadecimal digits naming a char outside the surrogate range.
pub open spec fn unicode_escape(t: Seq<char>) -> Option<char> {
    if t.len() >= 4 && hex_value(t[0]) >= 0 && hex_value(t[1]) >= 0 && hex_value(t[2]) >= 0 && hex_value(
        t[3],
    ) >= 0 {
        let v = hex_value(t[0]) * 4096 + hex_value(t[1]) * 256 + hex_value(t[2]) * 16 + hex_value(t[3]);
        if 0xD800 <= v <= 0xDFFF {
            None
        } else {
            Some((v as u32) as char)
        }
    } else {
        None
    }
}

/// Decodes the body of a JSON string literal (the text between its quotes):
/// the chars it stands for, or `None` when the body is not valid JSON (a
/// bare `"`, a control char below U+0020, a malformed escape; surrogate-pair
/// escapes are not read).
pub open spec fn json_unescaped(t: Seq<char>) -> Option<Seq<char>>
    decreases t.len(),
{
    if t.len() == 0 {
        Some(Seq::empty())
    } else if t[0] == '\\' {
        if t.len() < 2 {
            None
        } else {
            match short_escape(t[1]) {
                Some(c) => match json_unescaped(t.subrange(2, t.len() as int)) {
                    Some(r) => Some(seq![c] + r),
                    None => None,
                },
                None => if t[1] == 'u' && t.len() >= 6 {
                    match unicode_escape(t.subrange(2, 6)) {
                        Some(c) => match json_unescaped(t.subrange(6, t.len() as int)) {
                            Some(r) => Some(seq![c] + r),
                            None => None,
                        },
                        None => None,
                    }
                } else {
                    None
                },
            }
        }
    } else if t[0] == '"' || (t[0] as u32) < 0x20 {
        None
    } else {
        match json_unescaped(t.subrange(1, t.len() as int)) {
            Some(r) => Some(seq![t[0]] + r),
            None => None,
        }
    }
}

proof fn lemma_json_escaped_cons(c: char, s: Seq<char>)
    ensures
        json_escaped(seq![c] + s) == escape_char(c) + json_escaped(s),
    decreases s.len(),
{
    if s.len() == 0 {
        assert(seq![c] + s =~= seq![c]);
        assert(seq![c].drop_last() =~= Seq::<char>::empty());
        assert(seq![c].last() == c);
        assert(json_escaped(Seq::<char>::empty()) == Seq::<char>::empty());
        assert(json_escaped(seq![c]) == json_escaped(seq![c].drop_last()) + escape_char(c));
        assert(json_escaped(seq![c]) =~= escape_char(c));
    } else {
        let t = seq![c] + s;
        assert(t.drop_last() =~= seq![c] + s.drop_last());
        assert(t.last() == s.last());
        lemma_json_escaped_cons(c, s.drop_last());
        assert(json_escaped(t) =~= escape_char(c) + json_escaped(s));
    }
}

proof fn lemma_hex_digit_value(d: nat)
    requires
        d < 16,
    ensures
        hex_value(hex_digit(d)) == d,
{
}

proof fn lemma_unescape_escape_char(c: char, rest: Seq<char>)
    ensures
        json_unescaped(escape_char(c) + rest) == match json_unescaped(rest) {
            Some(r) => Some(seq![c] + r),
            None => None::<Seq<char>>,
        },
{
    let t = escape_char(c) + rest;
    let e = escape_char(c);
    if c == '"' || c == '\\' || c == '\n' || c == '\r' || c == '\t' {
        assert(t[0] == '\\');
        assert(t.subrange(2, t.len() as int) =~= rest);
    } else if (c as u32) < 0x20 {
        let v = c as u32;
        let hi: nat = (v / 16) as nat;
        let lo: nat = (v % 16) as nat;
        assert(hi < 2);
        lemma_hex_digit_value(0);
        lemma_hex_digit_value(hi);
        lemma_hex_digit_value(lo);
        assert(t[0] == '\\');
        assert(t[1] == 'u');
        assert(short_escape('u') is None);
        let q = t.subrange(2, 6);
        assert(q[0] == '0' && q[1] == '0' && q[2] == hex_digit(hi) && q[3] == hex_digit(lo));
        assert(hex_value('0') == 0);
        assert(hi * 16 + lo == v);
        assert(unicode_escape(q) == Some(c));
        assert(t.subrange(6, t.len() as int) =~= rest);
    } else {
        assert(e == seq![c]);
        assert(t[0] == c);
        assert(t.subrange(1, t.len() as int) =~= rest);
    }
}

/// Escaping is undone by JSON decoding: the body of the literal that
/// `json_quoted` writes decodes back to exactly the escaped text.
pub proof fn law_json_escaped_decodes_back(s: Seq<char>)
    ensures
        json_unescaped(json_escaped(s)) == Some(s),
    decreases s.len(),
{
    if s.len() > 0 {
        let c = s[0];
        let tail = s.drop_first();
        assert(s =~= seq![c] + tail);
        lemma_json_escaped_cons(c, tail);
        law_json_escaped_decodes_back(tail);
        lemma_unescape_escape_char(c, json_escaped(tail));
        assert(seq![c] + tail =~= s);
    } else {
        assert(json_escaped(s) =~= Seq::<char>::empty());
    }
}

/// The number of newlines in `p`.
pub open spec fn newlines(p: Seq<char>) -> nat
    decreases p.len(),
{
    if p.len() == 0 {
        0
    } else {
        newlines(p.drop_last()) + if p.last() == '\n' {
            1nat
        } else {
            0nat
        }
    }
}

/// The line `locate` reports is one more than the number of newlines before
/// the offset.
pub proof fn law_line_counts_newlines(p: Seq<char>)
    ensures
        line_col(p).0 == newlines(p) + 1,
    decreases p.len(),
{
    if p.len() > 0 {
        law_line_counts_newlines(p.drop_last());
    }
}

// ── Structured errors ────────────────────────────────────────────────────

/// A structured, machine-readable error for the `--json` CLI contract.
/// `message` is always the raw underlying error text; `code`/`kind` convey
/// the category.
pub struct ElixceeError {
    pub code: &'static str,
    pub kind: &'static str,
    pub message: String,
    /// Where in the source this happened -- `None` for failures that occur
    /// before or outside macro execution.
    pub location: Option<SourceLocation>,
}

pub open spec fn starts_with(s: Seq<char>, p: Seq<char>) -> bool {
    p.len() <= s.len() && s.subrange(0, p.len() as int) == p
}

pub open spec fn ends_with(s: Seq<char>, p: Seq<char>) -> bool {
    p.len() <= s.len() && s.subrange(s.len() - p.len(), s.len() as int) == p
}

/// The `(code, kind)` a runtime error message is classified as.
pub open spec fn classify(msg: Seq<char>) -> (Seq<char>, Seq<char>) {
    if starts_with(msg, "Undefined variable: '"@) {
        ("E1001"@, "undefined_variable"@)
    } else if starts_with(msg, "Sub/Function '"@) || starts_with(msg, "Unknown VBA function: '"@) || (
    starts_with(msg, "Sub '"@) && ends_with(msg, "' not found"@)) {
        ("E1002"@, "undefined_sub_or_function"@)
    } else if starts_with(msg, "Sheet '"@) && ends_with(msg, "' not found"@) {
        ("E1003"@, "sheet_not_found"@)
    } else if starts_with(msg, "MsgBox: "@) {
        ("E1004"@, "msgbox_blocked"@)
    } else {
        ("E1099"@, "runtime_error"@)
    }
}

pub(crate) fn has_prefix(s: &Vec<char>, p: &str) -> (r: bool)
    ensures
        r == starts_with(s@, p@),
{
    let pc = str_chars(p);
    if pc.len() > s.len() {
        return false;
    }
    let mut i: usize = 0;
    while i < pc.len()
        invariant
            0 <= i <= pc@.len() <= s@.len(),
            pc@ == p@,
            forall|k: int| 0 <= k < i ==> s@[k] == pc@[k],
        decreases pc@.len() - i,
    {
        if s[i] != pc[i] {
            proof {
                assert(s@.subrange(0, pc@.len() as int)[i as int] != pc@[i as int]);
            }
            return false;
        }
        i = i + 1;
    }
    proof {
        assert(s@.subrange(0, pc@.len() as int) =~= pc@);
    }
    true
}

fn has_suffix(s: &Vec<char>, p: &str) -> (r: bool)
    ensures
        r == ends_with(s@, p@),
{
    let pc = str_chars(p);
    if pc.len() > s.len() {
        return false;
    }
    let off = s.len() - pc.len();
    let mut i: usize = 0;
    while i < pc.len()
        invariant
            0 <= i <= pc@.len() <= s@.len(),
            off + pc@.len() == s.len(),
            pc@ == p@,
            forall|k: int| 0 <= k < i ==> s@[off + k] == pc@[k],
        decreases pc@.len() - i,
    {
        if s[off + i] != pc[i] {
            proof {
                assert(s@.subrange(off as int, s@.len() as int)[i as int] != pc@[i as int]);
            }
            return false;
        }
        i = i + 1;
    }
    proof {
        assert(s@.subrange(off as int, s@.len() as int) =~= pc@);
    }
    true
}

/// Classifies a runtime error message by its text into `(code, kind)`.
pub fn classify_runtime_error(msg: &str) -> (r: (&'static str, &'static str))
    ensures
        (r.0@, r.1@) == classify(msg@),
{
    let m = str_chars(msg);
    if has_prefix(&m, "Undefined variable: '") {
        return ("E1001", "undefined_variable");
    }
    if has_prefix(&m, "Sub/Function '") || has_prefix(&m, "Unknown VBA function: '") || (
    has_prefix(&m, "Sub '") && has_suffix(&m, "' not found")) {
        return ("E1002", "undefined_sub_or_function");
    }
    if has_prefix(&m, "Sheet '") && has_suffix(&m, "' not found") {
        return ("E1003", "sheet_not_found");
    }
    if has_prefix(&m, "MsgBox: ") {
        return ("E1004", "msgbox_blocked");
    }
    ("E1099", "runtime_error")
}

impl ElixceeError {
    /// File read/write failures.
    pub fn io_error(message: String) -> (r: Self)
        ensures
            r.code@ == "E3001"@,
            r.kind@ == "io_error"@,
            r.message@ == message@,
            r.location is None,
    {
        ElixceeError { code: "E3001", kind: "io_error", message, location: None }
    }

    /// Parse failures.
    pub fn parse_error(message: String) -> (r: Self)
        ensures
            r.code@ == "E2001"@,
            r.kind@ == "parse_error"@,
            r.message@ == message@,
            r.location is None,
    {
        ElixceeError { code: "E2001", kind: "parse_error", message, location: None }
    }

    /// Pre-execution `--sheet` resolution failures.
    pub fn sheet_setup_error(message: String) -> (r: Self)
        ensures
            r.code@ == "E3002"@,
            r.kind@ == "sheet_setup_error"@,
            r.message@ == message@,
            r.location is None,
    {
        ElixceeError { code: "E3002", kind: "sheet_setup_error", message, location: None }
    }

    /// Runtime failures, sub-classified by their message.
    pub fn runtime_error(message: String) -> (r: Self)
        ensures
            (r.code@, r.kind@) == classify(message@),
            r.message@ == message@,
            r.location is None,
    {
        let (code, kind) = classify_runtime_error(message.as_str());
        ElixceeError { code, kind, message, location: None }
    }

    /// Attaches a source location (or clears it).
    pub fn with_location(self, location: Option<SourceLocation>) -> (r: Self)
        ensures
            r.code == self.code,
            r.kind == self.kind,
            r.message == self.message,
            r.location == location,
    {
        let mut s = self;
        s.location = location;
        s
    }

    /// The `--json` error shape; `messages` carries any MsgBox text recorded
    /// before the failure.
    pub fn to_json(&self, messages: &[String]) -> (r: String)
        ensures
            r@ == error_json(
                self.code@,
                self.kind@,
                self.message@,
                location_view(self.location),
                strings_view(messages@),
            ),
    {
        let mut out: Vec<char> = Vec::new();
        push_str_chars(&mut out, "{\"schema_version\":1,\"ok\":false,\"error\":{\"code\":\"");
        push_str_chars(&mut out, self.code);
        push_str_chars(&mut out, "\",\"kind\":\"");
        push_str_chars(&mut out, self.kind);
        push_str_chars(&mut out, "\",\"message\":");
        push_quoted_chars(&mut out, &string_chars(&self.message));
        push_str_chars(&mut out, ",\"location\":");
        push_location_json(&mut out, &self.location);
        push_str_chars(&mut out, "},\"messages\":");
        push_messages_json(&mut out, messages);
        push_str_chars(&mut out, "}");
        proof {
            assert(out@ =~= error_json(
                self.code@,
                self.kind@,
                self.message@,
                location_view(self.location),
                strings_view(messages@),
            ));
        }
        string_from_chars(&out)
    }
}

/// The chars of each string.
pub open spec fn strings_view(ms: Seq<String>) -> Seq<Seq<char>> {
    ms.map_values(|m: String| m@)
}

/// The file, line and column of a location.
pub open spec fn location_view(loc: Option<SourceLocation>) -> Option<(Seq<char>, u32, u32)> {
    match loc {
        Some(l) => Some((l.file@, l.line, l.column)),
        None => None,
    }
}

/// `{"file":...,"line":...,"column":...}`, or `null`.
pub open spec fn location_json(loc: Option<(Seq<char>, u32, u32)>) -> Seq<char> {
    match loc {
        Some((file, line, column)) => "{\"file\":"@ + json_quoted(file) + ",\"line\":"@ + crate::text::decimal(
            line as nat,
        ) + ",\"column\":"@ + crate::text::decimal(column as nat) + "}"@,
        None => "null"@,
    }
}

/// A JSON array of quoted strings.
pub open spec fn string_array_json(ms: Seq<Seq<char>>) -> Seq<char> {
    seq!['['] + join_with(ms.map_values(|m: Seq<char>| json_quoted(m)), ',') + seq![']']
}

pub open spec fn error_json(
    code: Seq<char>,
    kind: Seq<char>,
    message: Seq<char>,
    loc: Option<(Seq<char>, u32, u32)>,
    messages: Seq<Seq<char>>,
) -> Seq<char> {
    "{\"schema_version\":1,\"ok\":false,\"error\":{\"code\":\""@ + code + "\",\"kind\":\""@ + kind
        + "\",\"message\":"@ + json_quoted(message) + ",\"location\":"@ + location_json(loc)
        + "},\"messages\":"@ + string_array_json(messages) + "}"@
}

pub fn push_location_json(out: &mut Vec<char>, loc: &Option<SourceLocation>)
    ensures
        final(out)@ == old(out)@ + location_json(location_view(*loc)),
{
    let ghost before = out@;
    match loc {
        Some(l) => {
            push_str_chars(out, "{\"file\":");
            push_quoted_chars(out, &string_chars(&l.file));
            push_str_chars(out, ",\"line\":");
            push_all(out, &fmt_u64(l.line as u64));
            push_str_chars(out, ",\"column\":");
            push_all(out, &fmt_u64(l.column as u64));
            push_str_chars(out, "}");
        },
        None => {
            push_str_chars(out, "null");
        },
    }
    proof {
        assert(out@ =~= before + location_json(location_view(*loc)));
    }
}

pub(crate) fn push_messages_json(out: &mut Vec<char>, messages: &[String])
    ensures
        final(out)@ == old(out)@ + string_array_json(strings_view(messages@)),
{
    let ghost before = out@;
    let ghost ms = strings_view(messages@);
    let ghost qs = ms.map_values(|m: Seq<char>| json_quoted(m));
    out.push('[');
    let mut i: usize = 0;
    proof {
        assert(qs.subrange(0, 0) =~= Seq::<Seq<char>>::empty());
        assert(out@ =~= before + seq!['['] + join_with(qs.subrange(0, 0), ','));
    }
    while i < messages.len()
        invariant
            0 <= i <= messages@.len(),
            ms == strings_view(messages@),
            qs == ms.map_values(|m: Seq<char>| json_quoted(m)),
            qs.len() == messages@.len(),
            out@ == before + seq!['['] + join_with(qs.subrange(0, i as int), ','),
        decreases messages@.len() - i,
    {
        let ghost pre = qs.subrange(0, i + 1);
        let ghost mid = out@;
        proof {
            assert(pre.drop_last() =~= qs.subrange(0, i as int));
            assert(pre.last() == json_quoted(messages@[i as int]@));
        }
        if i > 0 {
            out.push(',');
        }
        push_quoted_chars(out, &string_chars(&messages[i]));
        proof {
            if i == 0 {
                assert(pre.len() == 1);
                assert(out@ =~= before + seq!['['] + pre[0]);
            } else {
                assert(out@ =~= before + seq!['['] + (join_with(pre.drop_last(), ',') + seq![','] + pre.last()));
            }
        }
        i = i + 1;
    }
    out.push(']');
    proof {
        assert(qs.subrange(0, qs.len() as int) =~= qs);
        assert(out@ =~= before + string_array_json(ms));
    }
}

} // verus!
