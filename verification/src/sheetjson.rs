//! The workbook JSON handed to a JavaScript host: each worksheet's cells
//! (keyed by A1 reference, in row-then-column order), its `!ref`, merges,
//! hidden rows and columns, data validations, tables, charts, comments,
//! conditional formats and frozen panes, then the workbook's sheet names,
//! number formats, date system and defined names.
//!
//! Floating-point cell values arrive as the JSON number text they are
//! written as.

use vstd::prelude::*;
use crate::a1::{cell_ref_chars, cell_ref_text, push_rect_text, rect_text};
use crate::diagnostics::{json_quoted, push_quoted_chars};
use crate::text::{
    decimal, decimal_int, fmt_i64, fmt_u64, join_with, push_all, push_str_chars, str_chars, string_chars,
    string_from_chars,
};
use crate::types::{error_code, ExcelError};

verus! {

/// One interval as `[start,end]`.
pub open spec fn interval_pair_text(iv: (u32, u32)) -> Seq<char> {
    seq!['['] + decimal(iv.0 as nat) + seq![','] + decimal(iv.1 as nat) + seq![']']
}

/// The intervals as `[start,end]` pairs separated by `,`.
pub open spec fn interval_pairs_text(ivs: Seq<(u32, u32)>) -> Seq<char>
    decreases ivs.len(),
{
    if ivs.len() == 0 {
        Seq::empty()
    } else if ivs.len() == 1 {
        interval_pair_text(ivs[0])
    } else {
        interval_pairs_text(ivs.drop_last()) + seq![','] + interval_pair_text(ivs.last())
    }
}

/// What `write_hidden_intervals` appends: nothing for no intervals, else
/// `,"key":[[start,end],...]`.
pub open spec fn hidden_intervals_field(key: Seq<char>, ivs: Seq<(u32, u32)>) -> Seq<char> {
    if ivs.len() == 0 {
        Seq::empty()
    } else {
        seq![',', '"'] + key + seq!['"', ':', '['] + interval_pairs_text(ivs) + seq![']']
    }
}

/// Appends the 1-based inclusive `(start, end)` intervals under `key` as a
/// JSON field `,"key":[[start,end],...]`; appends nothing when there are
/// none.
pub fn write_hidden_intervals(out: &mut String, key: &str, intervals: &[(u32, u32)])
    ensures
        final(out)@ == old(out)@ + hidden_intervals_field(key@, intervals@),
{
    let mut v: Vec<char> = Vec::new();
    push_hidden_intervals(&mut v, key, intervals);
    proof {
        assert(v@ =~= hidden_intervals_field(key@, intervals@));
    }
    let text = string_from_chars(&v);
    out.append(text.as_str());
}

fn push_hidden_intervals(out: &mut Vec<char>, key: &str, intervals: &[(u32, u32)])
    ensures
        final(out)@ == old(out)@ + hidden_intervals_field(key@, intervals@),
{
    let ghost before = out@;
    if intervals.len() == 0 {
        proof {
            assert(before + hidden_intervals_field(key@, intervals@) =~= before);
        }
        return;
    }
    let ghost ivs = intervals@;
    let mut v: Vec<char> = Vec::new();
    v.push(',');
    v.push('"');
    push_all(&mut v, &str_chars(key));
    v.push('"');
    v.push(':');
    v.push('[');
    let ghost head = v@;
    let mut i: usize = 0;
    proof {
        assert(ivs.subrange(0, 0) =~= Seq::<(u32, u32)>::empty());
        assert(v@ =~= head + interval_pairs_text(ivs.subrange(0, 0)));
    }
    while i < intervals.len()
        invariant
            0 <= i <= ivs.len(),
            ivs == intervals@,
            v@ == head + interval_pairs_text(ivs.subrange(0, i as int)),
        decreases ivs.len() - i,
    {
        let ghost pre = ivs.subrange(0, i + 1);
        proof {
            assert(pre.drop_last() =~= ivs.subrange(0, i as int));
            assert(pre.last() == ivs[i as int]);
        }
        if i > 0 {
            v.push(',');
        }
        let (start, end) = intervals[i];
        v.push('[');
        push_all(&mut v, &fmt_u64(start as u64));
        v.push(',');
        push_all(&mut v, &fmt_u64(end as u64));
        v.push(']');
        proof {
            if i == 0 {
                assert(pre.len() == 1);
                assert(v@ =~= head + interval_pair_text(pre[0]));
            } else {
                assert(v@ =~= head + (interval_pairs_text(pre.drop_last()) + seq![','] + interval_pair_text(
                    pre.last(),
                )));
            }
        }
        i = i + 1;
    }
    v.push(']');
    proof {
        assert(ivs.subrange(0, ivs.len() as int) =~= ivs);
        assert(v@ =~= hidden_intervals_field(key@, intervals@));
    }
    push_all(out, &v);
}

// ── Lists ────────────────────────────────────────────────────────────────

proof fn lemma_cat3(a: Seq<char>, b: Seq<char>, c: Seq<char>)
    ensures
        a + (b + c) == (a + b) + c,
{
    assert(a + (b + c) =~= (a + b) + c);
}

proof fn lemma_join_step(items: Seq<Seq<char>>, k: int)
    requires
        0 <= k < items.len(),
    ensures
        join_with(items.subrange(0, k + 1), ',') == join_with(items.subrange(0, k), ',') + (if k == 0 {
            Seq::<char>::empty()
        } else {
            seq![',']
        }) + items[k],
{
    let pre = items.subrange(0, k + 1);
    assert(pre.drop_last() =~= items.subrange(0, k));
    if k == 0 {
        assert(pre.len() == 1);
        assert(Seq::<char>::empty() + Seq::<char>::empty() + items[0] =~= items[0]);
    }
}

/// `true` or `false`.
pub open spec fn bool_text(b: bool) -> Seq<char> {
    if b {
        "true"@
    } else {
        "false"@
    }
}

fn push_bool(out: &mut Vec<char>, b: bool)
    ensures
        final(out)@ == old(out)@ + bool_text(b),
{
    if b {
        push_str_chars(out, "true");
    } else {
        push_str_chars(out, "false");
    }
}

fn push_quoted_string(out: &mut Vec<char>, s: &String)
    ensures
        final(out)@ == old(out)@ + json_quoted(s@),
{
    push_quoted_chars(out, &string_chars(s));
}

fn push_u32(out: &mut Vec<char>, n: u32)
    ensures
        final(out)@ == old(out)@ + decimal(n as nat),
{
    push_all(out, &fmt_u64(n as u64));
}

/// The item `text` where `cond` holds; none otherwise.
pub open spec fn item_if(cond: bool, text: Seq<char>) -> Seq<Seq<char>> {
    if cond {
        seq![text]
    } else {
        Seq::empty()
    }
}

// ── Cells ────────────────────────────────────────────────────────────────

/// A cell's value as read from a worksheet. A floating-point value is held
/// as the JSON number text it is written as (`null` where it is not
/// finite).
pub enum SheetCell {
    Integer(i64),
    Float(String),
    Str(String),
    Bool(bool),
    Error(ExcelError),
}

/// The differential formatting of a cell that the host renders: font
/// flags and colour, fill colour, the four borders (style and colour) and
/// alignment.
pub struct CellStyleDef {
    pub bold: bool,
    pub italic: bool,
    pub underline: bool,
    pub font_color: Option<String>,
    pub fill_color: Option<String>,
    pub border_bottom: Option<String>,
    pub border_bottom_color: Option<String>,
    pub border_left: Option<String>,
    pub border_left_color: Option<String>,
    pub border_right: Option<String>,
    pub border_right_color: Option<String>,
    pub border_top: Option<String>,
    pub border_top_color: Option<String>,
    pub horizontal: Option<String>,
    pub vertical: Option<String>,
    pub wrap_text: Option<bool>,
}

/// One populated cell of a worksheet: its 1-based position, value, formula
/// text, number-format id and style, where it has them.
pub struct SheetJsonCell {
    pub row: u32,
    pub col: u32,
    pub value: SheetCell,
    pub formula: Option<String>,
    pub fmt_id: Option<u32>,
    pub style: Option<CellStyleDef>,
}

/// `{"t":...,"v":...` for a value (the object is closed by the caller).
pub open spec fn cell_value_text(v: SheetCell) -> Seq<char> {
    match v {
        SheetCell::Integer(n) => "{\"t\":\"n\",\"v\":"@ + decimal_int(n as int),
        SheetCell::Float(t) => "{\"t\":\"n\",\"v\":"@ + t@,
        SheetCell::Str(t) => "{\"t\":\"s\",\"v\":"@ + json_quoted(t@),
        SheetCell::Bool(b) => "{\"t\":\"b\",\"v\":"@ + bool_text(b),
        SheetCell::Error(e) => "{\"t\":\"e\",\"v\":"@ + decimal(error_code(e) as nat),
    }
}

/// `"color":{"rgb":"..."}`.
pub open spec fn rgb_item(key: Seq<char>, c: Seq<char>) -> Seq<char> {
    "\""@ + key + "\":{\"rgb\":"@ + json_quoted(c) + "}"@
}

/// The font items present: bold, italic, underline, colour.
pub open spec fn font_items(bold: bool, italic: bool, underline: bool, color: Option<String>) -> Seq<Seq<char>> {
    item_if(bold, "\"bold\":true"@) + item_if(italic, "\"italic\":true"@) + item_if(underline, "\"underline\":true"@)
        + match color {
        Some(c) => seq![rgb_item("color"@, c@)],
        None => Seq::empty(),
    }
}

/// `"fill":{"fgColor":{"rgb":"..."}}`.
pub open spec fn fill_text(c: Seq<char>) -> Seq<char> {
    "\"fill\":{\"fgColor\":{\"rgb\":"@ + json_quoted(c) + "}}"@
}

/// `,"color":{"rgb":"..."}` for a border colour; nothing without one.
pub open spec fn border_color_text(color: Option<String>) -> Seq<char> {
    match color {
        Some(c) => ",\"color\":{\"rgb\":"@ + json_quoted(c@) + "}"@,
        None => Seq::empty(),
    }
}

/// One border present: `"side":{"style":"..."}`, with its colour where it
/// has one.
pub open spec fn border_items(side: Seq<char>, border: Option<String>, color: Option<String>) -> Seq<Seq<char>> {
    match border {
        Some(b) => seq!["\""@ + side + "\":{\"style\":"@ + json_quoted(b@) + border_color_text(color) + "}"@],
        None => Seq::empty(),
    }
}

pub open spec fn all_border_items(s: CellStyleDef) -> Seq<Seq<char>> {
    border_items("bottom"@, s.border_bottom, s.border_bottom_color) + border_items("left"@, s.border_left, s.border_left_color)
        + border_items("right"@, s.border_right, s.border_right_color) + border_items(
        "top"@,
        s.border_top,
        s.border_top_color,
    )
}

pub open spec fn alignment_items(s: CellStyleDef) -> Seq<Seq<char>> {
    let h: Seq<Seq<char>> = match s.horizontal {
        Some(h) => seq!["\"horizontal\":"@ + json_quoted(h@)],
        None => Seq::empty(),
    };
    let v: Seq<Seq<char>> = match s.vertical {
        Some(v) => seq!["\"vertical\":"@ + json_quoted(v@)],
        None => Seq::empty(),
    };
    let w: Seq<Seq<char>> = match s.wrap_text {
        Some(w) => seq!["\"wrapText\":"@ + bool_text(w)],
        None => Seq::empty(),
    };
    h + v + w
}

pub open spec fn font_part(s: CellStyleDef) -> Seq<Seq<char>> {
    let font = font_items(s.bold, s.italic, s.underline, s.font_color);
    item_if(font.len() > 0, "\"font\":{"@ + join_with(font, ',') + "}"@)
}

pub open spec fn fill_part(s: CellStyleDef) -> Seq<Seq<char>> {
    match s.fill_color {
        Some(c) => seq![fill_text(c@)],
        None => Seq::empty(),
    }
}

pub open spec fn border_part(s: CellStyleDef) -> Seq<Seq<char>> {
    let borders = all_border_items(s);
    item_if(borders.len() > 0, "\"border\":{"@ + join_with(borders, ',') + "}"@)
}

pub open spec fn alignment_part(s: CellStyleDef) -> Seq<Seq<char>> {
    let align = alignment_items(s);
    item_if(align.len() > 0, "\"alignment\":{"@ + join_with(align, ',') + "}"@)
}

/// The style's parts present: font, fill, border, alignment.
pub open spec fn style_parts(s: CellStyleDef) -> Seq<Seq<char>> {
    font_part(s) + fill_part(s) + border_part(s) + alignment_part(s)
}

/// `,"s":{...}` for a style with any part; nothing otherwise.
#[verifier::opaque]
pub open spec fn style_text(style: Option<CellStyleDef>) -> Seq<char> {
    match style {
        Some(s) => if style_parts(s).len() > 0 {
            ",\"s\":{"@ + join_with(style_parts(s), ',') + "}"@
        } else {
            Seq::empty()
        },
        None => Seq::empty(),
    }
}

/// `,"f":"..."` for a formula; nothing without one.
pub open spec fn formula_text(f: Option<String>) -> Seq<char> {
    match f {
        Some(f) => ",\"f\":"@ + json_quoted(f@),
        None => Seq::empty(),
    }
}

/// `,"fmtId":N` for a number-format id; nothing without one.
pub open spec fn fmt_id_text(id: Option<u32>) -> Seq<char> {
    match id {
        Some(id) => ",\"fmtId\":"@ + decimal(id as nat),
        None => Seq::empty(),
    }
}

/// The JSON object of one cell: type and value, then the formula, the
/// number-format id and the style, each where present.
#[verifier::opaque]
pub open spec fn cell_json_text(c: SheetJsonCell) -> Seq<char> {
    cell_value_text(c.value) + formula_text(c.formula) + fmt_id_text(c.fmt_id) + style_text(c.style) + "}"@
}

/// Appends the items joined by `,`.
fn push_joined(out: &mut Vec<char>, items: &Vec<Vec<char>>)
    ensures
        final(out)@ == old(out)@ + join_with(items_view(items@), ','),
{
    let ghost iv = items_view(items@);
    let ghost head = out@;
    let mut k: usize = 0;
    proof {
        assert(iv.subrange(0, 0) =~= Seq::<Seq<char>>::empty());
        assert(out@ =~= head + join_with(iv.subrange(0, 0), ','));
    }
    while k < items.len()
        invariant
            0 <= k <= items@.len(),
            iv == items_view(items@),
            out@ == head + join_with(iv.subrange(0, k as int), ','),
        decreases items@.len() - k,
    {
        proof {
            lemma_join_step(iv, k as int);
        }
        if k > 0 {
            out.push(',');
        }
        push_all(out, &items[k]);
        proof {
            assert(iv[k as int] == items@[k as int]@);
        }
        k = k + 1;
    }
    proof {
        assert(iv.subrange(0, iv.len() as int) =~= iv);
    }
}

fn push_item(items: &mut Vec<Vec<char>>, v: Vec<char>)
    ensures
        final(items)@.map_values(|x: Vec<char>| x@) == old(items)@.map_values(|x: Vec<char>| x@).push(v@),
{
    let ghost before = items@;
    items.push(v);
    proof {
        assert(items@.map_values(|x: Vec<char>| x@) =~= before.map_values(|x: Vec<char>| x@).push(v@));
    }
}

fn rgb_chars(key: &str, c: &String) -> (r: Vec<char>)
    ensures
        r@ == rgb_item(key@, c@),
{
    let mut v: Vec<char> = Vec::new();
    push_str_chars(&mut v, "\"");
    push_str_chars(&mut v, key);
    push_str_chars(&mut v, "\":{\"rgb\":");
    push_quoted_string(&mut v, c);
    push_str_chars(&mut v, "}");
    proof {
        assert(v@ =~= rgb_item(key@, c@));
    }
    v
}

fn font_chars(bold: bool, italic: bool, underline: bool, color: &Option<String>) -> (r: Vec<Vec<char>>)
    ensures
        r@.map_values(|x: Vec<char>| x@) == font_items(bold, italic, underline, *color),
{
    let mut items: Vec<Vec<char>> = Vec::new();
    if bold {
        push_item(&mut items, str_chars("\"bold\":true"));
    }
    if italic {
        push_item(&mut items, str_chars("\"italic\":true"));
    }
    if underline {
        push_item(&mut items, str_chars("\"underline\":true"));
    }
    match color {
        Some(c) => push_item(&mut items, rgb_chars("color", c)),
        None => {},
    }
    proof {
        assert(items@.map_values(|x: Vec<char>| x@) =~= font_items(bold, italic, underline, *color));
    }
    items
}

fn push_border(items: &mut Vec<Vec<char>>, side: &str, border: &Option<String>, color: &Option<String>)
    ensures
        final(items)@.map_values(|x: Vec<char>| x@) == old(items)@.map_values(|x: Vec<char>| x@) + border_items(
            side@,
            *border,
            *color,
        ),
{
    let ghost before = items@.map_values(|x: Vec<char>| x@);
    match border {
        Some(b) => {
            let mut v: Vec<char> = Vec::new();
            push_str_chars(&mut v, "\"");
            push_str_chars(&mut v, side);
            push_str_chars(&mut v, "\":{\"style\":");
            push_quoted_string(&mut v, b);
            match color {
                Some(c) => {
                    push_str_chars(&mut v, ",\"color\":{\"rgb\":");
                    push_quoted_string(&mut v, c);
                    push_str_chars(&mut v, "}");
                },
                None => {},
            }
            push_str_chars(&mut v, "}");
            proof {
                assert(v@ =~= "\""@ + side@ + "\":{\"style\":"@ + json_quoted(b@) + border_color_text(*color) + "}"@);
                assert(border_items(side@, *border, *color) == seq![v@]);
            }
            push_item(items, v);
            proof {
                assert(items@.map_values(|x: Vec<char>| x@) =~= before + border_items(side@, *border, *color));
            }
        },
        None => {
            proof {
                assert(before + border_items(side@, *border, *color) =~= before);
            }
        },
    }
}

pub open spec fn items_view(items: Seq<Vec<char>>) -> Seq<Seq<char>> {
    items.map_values(|x: Vec<char>| x@)
}

fn push_font_part(parts: &mut Vec<Vec<char>>, s: &CellStyleDef)
    ensures
        items_view(final(parts)@) == items_view(old(parts)@) + font_part(*s),
{
    let ghost before = items_view(parts@);
    let font = font_chars(s.bold, s.italic, s.underline, &s.font_color);
    if font.len() > 0 {
        let mut v: Vec<char> = Vec::new();
        push_str_chars(&mut v, "\"font\":{");
        push_joined(&mut v, &font);
        push_str_chars(&mut v, "}");
        push_item(parts, v);
    }
    proof {
        assert(items_view(parts@) =~= before + font_part(*s));
    }
}

fn push_fill_part(parts: &mut Vec<Vec<char>>, s: &CellStyleDef)
    ensures
        items_view(final(parts)@) == items_view(old(parts)@) + fill_part(*s),
{
    let ghost before = items_view(parts@);
    match &s.fill_color {
        Some(c) => {
            let mut v: Vec<char> = Vec::new();
            push_str_chars(&mut v, "\"fill\":{\"fgColor\":{\"rgb\":");
            push_quoted_string(&mut v, c);
            push_str_chars(&mut v, "}}");
            push_item(parts, v);
        },
        None => {},
    }
    proof {
        assert(items_view(parts@) =~= before + fill_part(*s));
    }
}

fn push_border_part(parts: &mut Vec<Vec<char>>, s: &CellStyleDef)
    ensures
        items_view(final(parts)@) == items_view(old(parts)@) + border_part(*s),
{
    let ghost before = items_view(parts@);
    let mut borders: Vec<Vec<char>> = Vec::new();
    push_border(&mut borders, "bottom", &s.border_bottom, &s.border_bottom_color);
    push_border(&mut borders, "left", &s.border_left, &s.border_left_color);
    push_border(&mut borders, "right", &s.border_right, &s.border_right_color);
    push_border(&mut borders, "top", &s.border_top, &s.border_top_color);
    proof {
        assert(items_view(borders@) =~= all_border_items(*s));
    }
    if borders.len() > 0 {
        let mut v: Vec<char> = Vec::new();
        push_str_chars(&mut v, "\"border\":{");
        push_joined(&mut v, &borders);
        push_str_chars(&mut v, "}");
        push_item(parts, v);
    }
    proof {
        assert(items_view(parts@) =~= before + border_part(*s));
    }
}

fn push_alignment_part(parts: &mut Vec<Vec<char>>, s: &CellStyleDef)
    ensures
        items_view(final(parts)@) == items_view(old(parts)@) + alignment_part(*s),
{
    let ghost before = items_view(parts@);
    let mut align: Vec<Vec<char>> = Vec::new();
    match &s.horizontal {
        Some(h) => {
            let mut v: Vec<char> = Vec::new();
            push_str_chars(&mut v, "\"horizontal\":");
            push_quoted_string(&mut v, h);
            push_item(&mut align, v);
        },
        None => {},
    }
    match &s.vertical {
        Some(h) => {
            let mut v: Vec<char> = Vec::new();
            push_str_chars(&mut v, "\"vertical\":");
            push_quoted_string(&mut v, h);
            push_item(&mut align, v);
        },
        None => {},
    }
    match s.wrap_text {
        Some(w) => {
            let mut v: Vec<char> = Vec::new();
            push_str_chars(&mut v, "\"wrapText\":");
            push_bool(&mut v, w);
            push_item(&mut align, v);
        },
        None => {},
    }
    proof {
        assert(items_view(align@) =~= alignment_items(*s));
    }
    if align.len() > 0 {
        let mut v: Vec<char> = Vec::new();
        push_str_chars(&mut v, "\"alignment\":{");
        push_joined(&mut v, &align);
        push_str_chars(&mut v, "}");
        push_item(parts, v);
    }
    proof {
        assert(items_view(parts@) =~= before + alignment_part(*s));
    }
}

fn style_chars(s: &CellStyleDef) -> (r: Vec<Vec<char>>)
    ensures
        items_view(r@) == style_parts(*s),
{
    let mut parts: Vec<Vec<char>> = Vec::new();
    proof {
        assert(items_view(parts@) =~= Seq::<Seq<char>>::empty());
    }
    push_font_part(&mut parts, s);
    push_fill_part(&mut parts, s);
    push_border_part(&mut parts, s);
    push_alignment_part(&mut parts, s);
    proof {
        assert(items_view(parts@) =~= style_parts(*s));
    }
    parts
}

#[verifier::spinoff_prover]
fn push_cell_value(out: &mut Vec<char>, value: &SheetCell)
    ensures
        final(out)@ == old(out)@ + cell_value_text(*value),
{
    let ghost before = out@;
    match value {
        SheetCell::Integer(n) => {
            push_str_chars(out, "{\"t\":\"n\",\"v\":");
            push_all(out, &fmt_i64(*n));
        },
        SheetCell::Float(t) => {
            push_str_chars(out, "{\"t\":\"n\",\"v\":");
            push_all(out, &string_chars(t));
        },
        SheetCell::Str(t) => {
            push_str_chars(out, "{\"t\":\"s\",\"v\":");
            push_quoted_string(out, t);
        },
        SheetCell::Bool(b) => {
            push_str_chars(out, "{\"t\":\"b\",\"v\":");
            push_bool(out, *b);
        },
        SheetCell::Error(e) => {
            push_str_chars(out, "{\"t\":\"e\",\"v\":");
            push_all(out, &fmt_u64(e.biff_code() as u64));
        },
    }
    proof {
        assert(out@ =~= before + cell_value_text(*value));
    }
}

fn push_style_text(out: &mut Vec<char>, style: &Option<CellStyleDef>)
    ensures
        final(out)@ == old(out)@ + style_text(*style),
{
    proof {
        reveal(style_text);
    }
    let ghost before = out@;
    match style {
        Some(s) => {
            let parts = style_chars(s);
            if parts.len() > 0 {
                push_str_chars(out, ",\"s\":{");
                push_joined(out, &parts);
                push_str_chars(out, "}");
            }
        },
        None => {},
    }
    proof {
        assert(out@ =~= before + style_text(*style));
    }
}

#[verifier::spinoff_prover]
fn push_cell_json(out: &mut Vec<char>, c: &SheetJsonCell)
    ensures
        final(out)@ == old(out)@ + cell_json_text(*c),
{
    proof {
        reveal(cell_json_text);
    }
    let ghost before = out@;
    push_cell_value(out, &c.value);
    let ghost a = out@;
    match &c.formula {
        Some(f) => {
            push_str_chars(out, ",\"f\":");
            push_quoted_string(out, f);
        },
        None => {},
    }
    let ghost b = out@;
    proof {
        assert(b =~= a + formula_text(c.formula));
    }
    match c.fmt_id {
        Some(id) => {
            push_str_chars(out, ",\"fmtId\":");
            push_u32(out, id);
        },
        None => {},
    }
    let ghost d = out@;
    proof {
        assert(d =~= b + fmt_id_text(c.fmt_id));
    }
    push_style_text(out, &c.style);
    push_str_chars(out, "}");
    proof {
        let v = cell_value_text(c.value);
        let f = formula_text(c.formula);
        let i = fmt_id_text(c.fmt_id);
        let st = style_text(c.style);
        let z = "}"@;
        lemma_cat3(before, v + f + i + st, z);
        lemma_cat3(before, v + f + i, st);
        lemma_cat3(before, v + f, i);
        lemma_cat3(before, v, f);
    }
}

/// The JSON object of one cell: `{"t":"n","v":3,"f":"SUM(B1:B2)"}` and
/// the like, with its number-format id and style where present.
pub fn cell_json(c: &SheetJsonCell) -> (r: String)
    ensures
        r@ == cell_json_text(*c),
{
    let mut out: Vec<char> = Vec::new();
    push_cell_json(&mut out, c);
    proof {
        assert(out@ =~= cell_json_text(*c));
    }
    string_from_chars(&out)
}

// ── Sheet features ───────────────────────────────────────────────────────

/// The filter criteria of an autofilter column. A top-10 filter's value is
/// held as the text it is written as.
pub enum FilterCriteria {
    Values(Vec<String>),
    Blank,
    Custom { op1: String, val1: String, and: bool, op2: Option<String>, val2: Option<String> },
    Top10 { top: bool, percent: bool, val: String },
    DateGroup,
}

/// One autofilter column of a table.
pub struct FilterColumn {
    pub col_offset: u32,
    pub hidden_button: bool,
    pub show_button: bool,
    pub criteria: FilterCriteria,
}

pub struct TableColumn {
    pub name: String,
}

/// A table of a worksheet, with its range, autofilter and columns.
pub struct TableDef {
    pub name: String,
    pub display_name: String,
    pub ref_range: ((u32, u32), (u32, u32)),
    pub auto_filter_ref: Option<((u32, u32), (u32, u32))>,
    pub autofilter_columns: Vec<FilterColumn>,
    pub columns: Vec<TableColumn>,
    pub style_name: Option<String>,
}

/// A chart anchored on a worksheet.
pub struct ChartDef {
    pub ref_range: ((u32, u32), (u32, u32)),
    pub chart_type: String,
    pub title: String,
    pub x_axis_title: Option<String>,
    pub y_axis_title: Option<String>,
    pub legend: bool,
    pub series_colors: Vec<String>,
    pub width_cols: u32,
    pub height_rows: u32,
}

/// A cell comment.
pub struct CommentNote {
    pub cell: (u32, u32),
    pub author: String,
    pub text: String,
}

/// The formatting a conditional format applies.
pub struct DxfStyle {
    pub bold: bool,
    pub italic: bool,
    pub underline: bool,
    pub font_color: Option<String>,
    pub fill_color: Option<String>,
}

/// A conditional-format rule.
pub struct ConditionalFormatRule {
    pub rule_type: String,
    pub operator: Option<String>,
    pub sqref: Vec<((u32, u32), (u32, u32))>,
    pub formula1: String,
    pub formula2: Option<String>,
    pub priority: Option<u32>,
    pub stop_if_true: bool,
    pub dxf: Option<DxfStyle>,
}

/// A data-validation rule; the JSON carries its type and ranges.
pub struct DataValidationRule {
    pub validation_type: String,
    pub operator: Option<String>,
    pub formula1: Option<String>,
    pub formula2: Option<String>,
    pub allow_blank: bool,
    pub show_input_message: bool,
    pub prompt_title: Option<String>,
    pub prompt: Option<String>,
    pub show_error_message: bool,
    pub error_style: Option<String>,
    pub error_title: Option<String>,
    pub error: Option<String>,
    pub sqref: Vec<((u32, u32), (u32, u32))>,
    pub dirty: bool,
    pub raw_span: String,
}

/// Frozen rows and columns.
pub struct FreezePane {
    pub rows: u32,
    pub cols: u32,
}

/// `"..."` items of a list of strings.
pub open spec fn quoted_items(xs: Seq<String>) -> Seq<Seq<char>> {
    xs.map_values(|x: String| json_quoted(x@))
}

/// `"A1:B2"` items of a list of ranges.
pub open spec fn range_items(rs: Seq<((u32, u32), (u32, u32))>) -> Seq<Seq<char>> {
    rs.map_values(|r: ((u32, u32), (u32, u32))| json_quoted(rect_text(r)))
}

pub open spec fn custom_head_text(op1: String, val1: String, and: bool) -> Seq<char> {
    "{\"kind\":\"custom\",\"op1\":"@ + json_quoted(op1@) + ",\"val1\":"@ + json_quoted(val1@) + ",\"and\":"@
        + bool_text(and)
}

pub open spec fn custom_tail_text(op2: Option<String>, val2: Option<String>) -> Seq<char> {
    if op2 is Some && val2 is Some {
        ",\"op2\":"@ + json_quoted(op2->0@) + ",\"val2\":"@ + json_quoted(val2->0@)
    } else {
        Seq::empty()
    }
}

pub open spec fn top10_text(top: bool, percent: bool, val: String) -> Seq<char> {
    "{\"kind\":\"top10\",\"top\":"@ + bool_text(top) + ",\"percent\":"@ + bool_text(percent) + ",\"val\":"@
        + val@ + "}"@
}

#[verifier::opaque]
pub open spec fn criteria_text(c: FilterCriteria) -> Seq<char> {
    match c {
        FilterCriteria::Values(vs) => "{\"kind\":\"values\",\"values\":["@ + join_with(quoted_items(vs@), ',') + "]}"@,
        FilterCriteria::Blank => "{\"kind\":\"blank\"}"@,
        FilterCriteria::Custom { op1, val1, and, op2, val2 } => custom_head_text(op1, val1, and) + custom_tail_text(
            op2,
            val2,
        ) + "}"@,
        FilterCriteria::Top10 { top, percent, val } => top10_text(top, percent, val),
        FilterCriteria::DateGroup => "{\"kind\":\"dateGroup\"}"@,
    }
}

/// The JSON object of an autofilter column.
#[verifier::opaque]
pub open spec fn filter_column_text(c: FilterColumn) -> Seq<char> {
    "{\"colId\":"@ + decimal(c.col_offset as nat) + ",\"hiddenButton\":"@ + bool_text(c.hidden_button)
        + ",\"showButton\":"@ + bool_text(c.show_button) + ",\"criteria\":"@ + criteria_text(c.criteria) + "}"@
}

pub open spec fn opt_field(key: Seq<char>, v: Option<String>) -> Seq<char> {
    match v {
        Some(t) => ","@ + json_quoted(key) + ":"@ + json_quoted(t@),
        None => Seq::empty(),
    }
}

pub open spec fn table_autofilter_text(t: TableDef) -> Seq<char> {
    match t.auto_filter_ref {
        Some(r) => ",\"autoFilterRef\":"@ + json_quoted(rect_text(r)) + (if t.autofilter_columns@.len() > 0 {
            ",\"autoFilterColumns\":["@ + join_with(t.autofilter_columns@.map_values(|c: FilterColumn| filter_column_text(c)), ',')
                + "]"@
        } else {
            Seq::empty()
        }),
        None => Seq::empty(),
    }
}

pub open spec fn table_columns_text(t: TableDef) -> Seq<char> {
    if t.columns@.len() > 0 {
        ",\"columns\":["@ + join_with(t.columns@.map_values(|c: TableColumn| "{\"name\":"@ + json_quoted(c.name@) + "}"@), ',')
            + "]"@
    } else {
        Seq::empty()
    }
}

pub open spec fn table_head_text(t: TableDef) -> Seq<char> {
    "{\"name\":"@ + json_quoted(t.name@) + ",\"displayName\":"@ + json_quoted(t.display_name@) + ",\"ref\":"@
        + json_quoted(rect_text(t.ref_range))
}

/// The JSON object of a table.
#[verifier::opaque]
pub open spec fn table_text(t: TableDef) -> Seq<char> {
    table_head_text(t) + table_autofilter_text(t) + table_columns_text(t) + opt_field("styleName"@, t.style_name) + "}"@
}

pub open spec fn chart_head_text(c: ChartDef) -> Seq<char> {
    "{\"ref\":"@ + json_quoted(rect_text(c.ref_range)) + ",\"type\":"@ + json_quoted(c.chart_type@) + ",\"title\":"@
        + json_quoted(c.title@)
}

pub open spec fn chart_colors_text(c: ChartDef) -> Seq<char> {
    if c.series_colors@.len() > 0 {
        ",\"colors\":["@ + join_with(quoted_items(c.series_colors@), ',') + "]"@
    } else {
        Seq::empty()
    }
}

pub open spec fn chart_size_text(c: ChartDef) -> Seq<char> {
    ",\"widthCols\":"@ + decimal(c.width_cols as nat) + ",\"heightRows\":"@ + decimal(c.height_rows as nat) + "}"@
}

/// The JSON object of a chart.
#[verifier::opaque]
pub open spec fn chart_text(c: ChartDef) -> Seq<char> {
    chart_head_text(c) + opt_field("xAxisTitle"@, c.x_axis_title) + opt_field("yAxisTitle"@, c.y_axis_title)
        + ",\"legend\":"@ + bool_text(c.legend) + chart_colors_text(c) + chart_size_text(c)
}

/// The JSON object of a comment.
#[verifier::opaque]
pub open spec fn comment_text(c: CommentNote) -> Seq<char> {
    "{\"ref\":"@ + json_quoted(cell_ref_text(c.cell.0, c.cell.1)) + ",\"author\":"@ + json_quoted(c.author@)
        + ",\"text\":"@ + json_quoted(c.text@) + "}"@
}

/// The parts of a conditional format's formatting: its font, where it sets
/// any, and its fill.
pub open spec fn dxf_parts(d: DxfStyle) -> Seq<Seq<char>> {
    let font = font_items(d.bold, d.italic, d.underline, d.font_color);
    item_if(font.len() > 0, "\"font\":{"@ + join_with(font, ',') + "}"@) + match d.fill_color {
        Some(c) => seq![fill_text(c@)],
        None => Seq::empty(),
    }
}

pub open spec fn dxf_text(d: Option<DxfStyle>) -> Seq<char> {
    match d {
        Some(d) => ",\"dxf\":{"@ + join_with(dxf_parts(d), ',') + "}"@,
        None => Seq::empty(),
    }
}

pub open spec fn cf_head_text(r: ConditionalFormatRule) -> Seq<char> {
    "{\"type\":"@ + json_quoted(r.rule_type@) + opt_field("operator"@, r.operator) + ",\"sqref\":["@ + join_with(
        range_items(r.sqref@),
        ',',
    ) + "],\"formula\":"@ + json_quoted(r.formula1@) + opt_field("formula2"@, r.formula2)
}

pub open spec fn cf_flags_text(r: ConditionalFormatRule) -> Seq<char> {
    (match r.priority {
        Some(p) => ",\"priority\":"@ + decimal(p as nat),
        None => Seq::empty(),
    }) + (if r.stop_if_true {
        ",\"stopIfTrue\":true"@
    } else {
        Seq::empty()
    })
}

/// The JSON object of a conditional-format rule.
#[verifier::opaque]
pub open spec fn conditional_format_text(r: ConditionalFormatRule) -> Seq<char> {
    cf_head_text(r) + cf_flags_text(r) + dxf_text(r.dxf) + "}"@
}

/// The JSON object of a data-validation rule: its type and ranges.
#[verifier::opaque]
pub open spec fn validation_text(v: DataValidationRule) -> Seq<char> {
    "{\"type\":"@ + json_quoted(v.validation_type@) + ",\"sqref\":["@ + join_with(range_items(v.sqref@), ',') + "]}"@
}

fn quoted_list_items(xs: &Vec<String>) -> (r: Vec<Vec<char>>)
    ensures
        items_view(r@) == quoted_items(xs@),
{
    let mut items: Vec<Vec<char>> = Vec::new();
    let mut k: usize = 0;
    proof {
        assert(items_view(items@) =~= quoted_items(xs@.subrange(0, 0)));
    }
    while k < xs.len()
        invariant
            0 <= k <= xs@.len(),
            items_view(items@) == quoted_items(xs@.subrange(0, k as int)),
        decreases xs@.len() - k,
    {
        let mut v: Vec<char> = Vec::new();
        push_quoted_string(&mut v, &xs[k]);
        let ghost before = items_view(items@);
        push_item(&mut items, v);
        proof {
            assert(quoted_items(xs@.subrange(0, k + 1)) =~= before.push(json_quoted(xs@[k as int]@)));
        }
        k = k + 1;
    }
    proof {
        assert(xs@.subrange(0, xs@.len() as int) =~= xs@);
    }
    items
}

fn range_list_items(rs: &Vec<((u32, u32), (u32, u32))>) -> (r: Vec<Vec<char>>)
    ensures
        items_view(r@) == range_items(rs@),
{
    let mut items: Vec<Vec<char>> = Vec::new();
    let mut k: usize = 0;
    proof {
        assert(items_view(items@) =~= range_items(rs@.subrange(0, 0)));
    }
    while k < rs.len()
        invariant
            0 <= k <= rs@.len(),
            items_view(items@) == range_items(rs@.subrange(0, k as int)),
        decreases rs@.len() - k,
    {
        let mut t: Vec<char> = Vec::new();
        push_rect_text(&mut t, rs[k]);
        let mut v: Vec<char> = Vec::new();
        push_quoted_chars(&mut v, &t);
        let ghost before = items_view(items@);
        push_item(&mut items, v);
        proof {
            assert(range_items(rs@.subrange(0, k + 1)) =~= before.push(json_quoted(rect_text(rs@[k as int]))));
        }
        k = k + 1;
    }
    proof {
        assert(rs@.subrange(0, rs@.len() as int) =~= rs@);
    }
    items
}

fn push_quoted_rect(out: &mut Vec<char>, r: ((u32, u32), (u32, u32)))
    ensures
        final(out)@ == old(out)@ + json_quoted(rect_text(r)),
{
    let mut t: Vec<char> = Vec::new();
    push_rect_text(&mut t, r);
    proof {
        assert(t@ =~= rect_text(r));
    }
    push_quoted_chars(out, &t);
}

fn push_opt_field(out: &mut Vec<char>, key: &str, v: &Option<String>)
    ensures
        final(out)@ == old(out)@ + opt_field(key@, *v),
{
    let ghost before = out@;
    match v {
        Some(t) => {
            push_str_chars(out, ",");
            push_quoted_chars(out, &str_chars(key));
            push_str_chars(out, ":");
            push_quoted_string(out, t);
        },
        None => {},
    }
    proof {
        assert(out@ =~= before + opt_field(key@, *v));
    }
}

fn push_custom_head(out: &mut Vec<char>, op1: &String, val1: &String, and: bool)
    ensures
        final(out)@ == old(out)@ + custom_head_text(*op1, *val1, and),
{
    let ghost before = out@;
    push_str_chars(out, "{\"kind\":\"custom\",\"op1\":");
    push_quoted_string(out, op1);
    push_str_chars(out, ",\"val1\":");
    push_quoted_string(out, val1);
    push_str_chars(out, ",\"and\":");
    push_bool(out, and);
    proof {
        assert(out@ =~= before + custom_head_text(*op1, *val1, and));
    }
}

fn push_custom_tail(out: &mut Vec<char>, op2: &Option<String>, val2: &Option<String>)
    ensures
        final(out)@ == old(out)@ + custom_tail_text(*op2, *val2),
{
    let ghost before = out@;
    match (op2, val2) {
        (Some(o), Some(v)) => {
            push_str_chars(out, ",\"op2\":");
            push_quoted_string(out, o);
            push_str_chars(out, ",\"val2\":");
            push_quoted_string(out, v);
        },
        _ => {},
    }
    proof {
        assert(out@ =~= before + custom_tail_text(*op2, *val2));
    }
}

fn push_top10(out: &mut Vec<char>, top: bool, percent: bool, val: &String)
    ensures
        final(out)@ == old(out)@ + top10_text(top, percent, *val),
{
    let ghost before = out@;
    push_str_chars(out, "{\"kind\":\"top10\",\"top\":");
    push_bool(out, top);
    push_str_chars(out, ",\"percent\":");
    push_bool(out, percent);
    push_str_chars(out, ",\"val\":");
    push_all(out, &string_chars(val));
    push_str_chars(out, "}");
    proof {
        assert(out@ =~= before + top10_text(top, percent, *val));
    }
}

fn push_criteria(out: &mut Vec<char>, c: &FilterCriteria)
    ensures
        final(out)@ == old(out)@ + criteria_text(*c),
{
    proof {
        reveal(criteria_text);
    }
    let ghost before = out@;
    match c {
        FilterCriteria::Values(vs) => {
            push_str_chars(out, "{\"kind\":\"values\",\"values\":[");
            push_joined(out, &quoted_list_items(vs));
            push_str_chars(out, "]}");
        },
        FilterCriteria::Blank => {
            push_str_chars(out, "{\"kind\":\"blank\"}");
        },
        FilterCriteria::Custom { op1, val1, and, op2, val2 } => {
            push_custom_head(out, op1, val1, *and);
            push_custom_tail(out, op2, val2);
            push_str_chars(out, "}");
        },
        FilterCriteria::Top10 { top, percent, val } => {
            push_top10(out, *top, *percent, val);
        },
        FilterCriteria::DateGroup => {
            push_str_chars(out, "{\"kind\":\"dateGroup\"}");
        },
    }
    proof {
        assert(out@ =~= before + criteria_text(*c));
    }
}

#[verifier::spinoff_prover]
fn push_filter_column(out: &mut Vec<char>, c: &FilterColumn)
    ensures
        final(out)@ == old(out)@ + filter_column_text(*c),
{
    proof {
        reveal(filter_column_text);
    }
    let ghost before = out@;
    push_str_chars(out, "{\"colId\":");
    push_u32(out, c.col_offset);
    push_str_chars(out, ",\"hiddenButton\":");
    push_bool(out, c.hidden_button);
    push_str_chars(out, ",\"showButton\":");
    push_bool(out, c.show_button);
    push_str_chars(out, ",\"criteria\":");
    push_criteria(out, &c.criteria);
    push_str_chars(out, "}");
    proof {
        assert(out@ =~= before + filter_column_text(*c));
    }
}

/// The JSON object of one autofilter column: its offset in the table, its
/// button flags and its criteria.
pub fn table_filter_column_json(column: &FilterColumn) -> (r: String)
    ensures
        r@ == filter_column_text(*column),
{
    let mut out: Vec<char> = Vec::new();
    push_filter_column(&mut out, column);
    proof {
        assert(out@ =~= filter_column_text(*column));
    }
    string_from_chars(&out)
}

fn filter_column_items(cs: &Vec<FilterColumn>) -> (r: Vec<Vec<char>>)
    ensures
        items_view(r@) == cs@.map_values(|c: FilterColumn| filter_column_text(c)),
{
    let mut items: Vec<Vec<char>> = Vec::new();
    let mut k: usize = 0;
    proof {
        assert(items_view(items@) =~= cs@.subrange(0, 0).map_values(|c: FilterColumn| filter_column_text(c)));
    }
    while k < cs.len()
        invariant
            0 <= k <= cs@.len(),
            items_view(items@) == cs@.subrange(0, k as int).map_values(|c: FilterColumn| filter_column_text(c)),
        decreases cs@.len() - k,
    {
        let mut v: Vec<char> = Vec::new();
        push_filter_column(&mut v, &cs[k]);
        let ghost before = items_view(items@);
        push_item(&mut items, v);
        proof {
            assert(cs@.subrange(0, k + 1).map_values(|c: FilterColumn| filter_column_text(c)) =~= before.push(
                filter_column_text(cs@[k as int]),
            ));
        }
        k = k + 1;
    }
    proof {
        assert(cs@.subrange(0, cs@.len() as int) =~= cs@);
    }
    items
}

fn table_column_items(cs: &Vec<TableColumn>) -> (r: Vec<Vec<char>>)
    ensures
        items_view(r@) == cs@.map_values(|c: TableColumn| "{\"name\":"@ + json_quoted(c.name@) + "}"@),
{
    let mut items: Vec<Vec<char>> = Vec::new();
    let mut k: usize = 0;
    proof {
        assert(items_view(items@) =~= cs@.subrange(0, 0).map_values(
            |c: TableColumn| "{\"name\":"@ + json_quoted(c.name@) + "}"@,
        ));
    }
    while k < cs.len()
        invariant
            0 <= k <= cs@.len(),
            items_view(items@) == cs@.subrange(0, k as int).map_values(
                |c: TableColumn| "{\"name\":"@ + json_quoted(c.name@) + "}"@,
            ),
        decreases cs@.len() - k,
    {
        let mut v: Vec<char> = Vec::new();
        push_str_chars(&mut v, "{\"name\":");
        push_quoted_string(&mut v, &cs[k].name);
        push_str_chars(&mut v, "}");
        let ghost before = items_view(items@);
        push_item(&mut items, v);
        proof {
            assert(cs@.subrange(0, k + 1).map_values(|c: TableColumn| "{\"name\":"@ + json_quoted(c.name@) + "}"@)
                =~= before.push("{\"name\":"@ + json_quoted(cs@[k as int].name@) + "}"@));
        }
        k = k + 1;
    }
    proof {
        assert(cs@.subrange(0, cs@.len() as int) =~= cs@);
    }
    items
}

#[verifier::spinoff_prover]
fn push_table_head(out: &mut Vec<char>, t: &TableDef)
    ensures
        final(out)@ == old(out)@ + table_head_text(*t),
{
    let ghost before = out@;
    push_str_chars(out, "{\"name\":");
    push_quoted_string(out, &t.name);
    push_str_chars(out, ",\"displayName\":");
    push_quoted_string(out, &t.display_name);
    push_str_chars(out, ",\"ref\":");
    push_quoted_rect(out, t.ref_range);
    proof {
        assert(out@ =~= before + table_head_text(*t));
    }
}

fn push_table_autofilter(out: &mut Vec<char>, t: &TableDef)
    ensures
        final(out)@ == old(out)@ + table_autofilter_text(*t),
{
    let ghost before = out@;
    match t.auto_filter_ref {
        Some(r) => {
            push_str_chars(out, ",\"autoFilterRef\":");
            push_quoted_rect(out, r);
            if t.autofilter_columns.len() > 0 {
                push_str_chars(out, ",\"autoFilterColumns\":[");
                push_joined(out, &filter_column_items(&t.autofilter_columns));
                push_str_chars(out, "]");
            }
        },
        None => {},
    }
    proof {
        assert(out@ =~= before + table_autofilter_text(*t));
    }
}

fn push_table_columns(out: &mut Vec<char>, t: &TableDef)
    ensures
        final(out)@ == old(out)@ + table_columns_text(*t),
{
    let ghost before = out@;
    if t.columns.len() > 0 {
        push_str_chars(out, ",\"columns\":[");
        push_joined(out, &table_column_items(&t.columns));
        push_str_chars(out, "]");
    }
    proof {
        assert(out@ =~= before + table_columns_text(*t));
    }
}

fn push_table(out: &mut Vec<char>, t: &TableDef)
    ensures
        final(out)@ == old(out)@ + table_text(*t),
{
    proof {
        reveal(table_text);
    }
    let ghost before = out@;
    push_table_head(out, t);
    push_table_autofilter(out, t);
    push_table_columns(out, t);
    push_opt_field(out, "styleName", &t.style_name);
    push_str_chars(out, "}");
    proof {
        assert(out@ =~= before + table_text(*t));
    }
}

#[verifier::spinoff_prover]
fn push_chart_head(out: &mut Vec<char>, c: &ChartDef)
    ensures
        final(out)@ == old(out)@ + chart_head_text(*c),
{
    let ghost before = out@;
    push_str_chars(out, "{\"ref\":");
    push_quoted_rect(out, c.ref_range);
    push_str_chars(out, ",\"type\":");
    push_quoted_string(out, &c.chart_type);
    push_str_chars(out, ",\"title\":");
    push_quoted_string(out, &c.title);
    proof {
        assert(out@ =~= before + chart_head_text(*c));
    }
}

fn push_chart_colors(out: &mut Vec<char>, c: &ChartDef)
    ensures
        final(out)@ == old(out)@ + chart_colors_text(*c),
{
    let ghost before = out@;
    if c.series_colors.len() > 0 {
        push_str_chars(out, ",\"colors\":[");
        push_joined(out, &quoted_list_items(&c.series_colors));
        push_str_chars(out, "]");
    }
    proof {
        assert(out@ =~= before + chart_colors_text(*c));
    }
}

fn push_chart_size(out: &mut Vec<char>, c: &ChartDef)
    ensures
        final(out)@ == old(out)@ + chart_size_text(*c),
{
    let ghost before = out@;
    push_str_chars(out, ",\"widthCols\":");
    push_u32(out, c.width_cols);
    push_str_chars(out, ",\"heightRows\":");
    push_u32(out, c.height_rows);
    push_str_chars(out, "}");
    proof {
        assert(out@ =~= before + chart_size_text(*c));
    }
}

fn push_chart(out: &mut Vec<char>, c: &ChartDef)
    ensures
        final(out)@ == old(out)@ + chart_text(*c),
{
    proof {
        reveal(chart_text);
    }
    let ghost before = out@;
    push_chart_head(out, c);
    push_opt_field(out, "xAxisTitle", &c.x_axis_title);
    push_opt_field(out, "yAxisTitle", &c.y_axis_title);
    push_str_chars(out, ",\"legend\":");
    push_bool(out, c.legend);
    push_chart_colors(out, c);
    push_chart_size(out, c);
    proof {
        assert(out@ =~= before + chart_text(*c));
    }
}

#[verifier::spinoff_prover]
fn push_comment(out: &mut Vec<char>, c: &CommentNote)
    ensures
        final(out)@ == old(out)@ + comment_text(*c),
{
    proof {
        reveal(comment_text);
    }
    let ghost before = out@;
    push_str_chars(out, "{\"ref\":");
    push_quoted_chars(out, &cell_ref_chars(c.cell.0, c.cell.1));
    push_str_chars(out, ",\"author\":");
    push_quoted_string(out, &c.author);
    push_str_chars(out, ",\"text\":");
    push_quoted_string(out, &c.text);
    push_str_chars(out, "}");
    proof {
        assert(out@ =~= before + comment_text(*c));
    }
}

fn push_dxf(out: &mut Vec<char>, d: &Option<DxfStyle>)
    ensures
        final(out)@ == old(out)@ + dxf_text(*d),
{
    let ghost before = out@;
    match d {
        Some(d) => {
            let mut parts: Vec<Vec<char>> = Vec::new();
            let font = font_chars(d.bold, d.italic, d.underline, &d.font_color);
            if font.len() > 0 {
                let mut v: Vec<char> = Vec::new();
                push_str_chars(&mut v, "\"font\":{");
                push_joined(&mut v, &font);
                push_str_chars(&mut v, "}");
                push_item(&mut parts, v);
            }
            match &d.fill_color {
                Some(c) => {
                    let mut v: Vec<char> = Vec::new();
                    push_str_chars(&mut v, "\"fill\":{\"fgColor\":{\"rgb\":");
                    push_quoted_string(&mut v, c);
                    push_str_chars(&mut v, "}}");
                    push_item(&mut parts, v);
                },
                None => {},
            }
            proof {
                assert(items_view(parts@) =~= dxf_parts(*d));
            }
            push_str_chars(out, ",\"dxf\":{");
            push_joined(out, &parts);
            push_str_chars(out, "}");
        },
        None => {},
    }
    proof {
        assert(out@ =~= before + dxf_text(*d));
    }
}

#[verifier::spinoff_prover]
fn push_cf_head(out: &mut Vec<char>, r: &ConditionalFormatRule)
    ensures
        final(out)@ == old(out)@ + cf_head_text(*r),
{
    let ghost before = out@;
    push_str_chars(out, "{\"type\":");
    push_quoted_string(out, &r.rule_type);
    push_opt_field(out, "operator", &r.operator);
    push_str_chars(out, ",\"sqref\":[");
    push_joined(out, &range_list_items(&r.sqref));
    push_str_chars(out, "],\"formula\":");
    push_quoted_string(out, &r.formula1);
    push_opt_field(out, "formula2", &r.formula2);
    proof {
        assert(out@ =~= before + cf_head_text(*r));
    }
}

fn push_cf_flags(out: &mut Vec<char>, r: &ConditionalFormatRule)
    ensures
        final(out)@ == old(out)@ + cf_flags_text(*r),
{
    let ghost before = out@;
    match r.priority {
        Some(p) => {
            push_str_chars(out, ",\"priority\":");
            push_u32(out, p);
        },
        None => {},
    }
    if r.stop_if_true {
        push_str_chars(out, ",\"stopIfTrue\":true");
    }
    proof {
        assert(out@ =~= before + cf_flags_text(*r));
    }
}

fn push_conditional_format(out: &mut Vec<char>, r: &ConditionalFormatRule)
    ensures
        final(out)@ == old(out)@ + conditional_format_text(*r),
{
    proof {
        reveal(conditional_format_text);
    }
    let ghost before = out@;
    push_cf_head(out, r);
    push_cf_flags(out, r);
    push_dxf(out, &r.dxf);
    push_str_chars(out, "}");
    proof {
        assert(out@ =~= before + conditional_format_text(*r));
    }
}

fn push_validation(out: &mut Vec<char>, v: &DataValidationRule)
    ensures
        final(out)@ == old(out)@ + validation_text(*v),
{
    proof {
        reveal(validation_text);
    }
    let ghost before = out@;
    push_str_chars(out, "{\"type\":");
    push_quoted_string(out, &v.validation_type);
    push_str_chars(out, ",\"sqref\":[");
    push_joined(out, &range_list_items(&v.sqref));
    push_str_chars(out, "]}");
    proof {
        assert(out@ =~= before + validation_text(*v));
    }
}

// ── Row-then-column order ────────────────────────────────────────────────

/// Whether key `a` comes before key `b`: by first component, then second.
pub open spec fn key_before(a: (u32, u32), b: (u32, u32)) -> bool {
    a.0 < b.0 || (a.0 == b.0 && a.1 < b.1)
}

/// The place of index `x` in `order`: before the first index whose key
/// does not come before `x`'s.
pub open spec fn insertion_point(keys: Seq<(u32, u32)>, order: Seq<usize>, x: usize) -> int
    decreases order.len(),
{
    if order.len() == 0 {
        0
    } else if key_before(keys[order[0] as int], keys[x as int]) {
        1 + insertion_point(keys, order.drop_first(), x)
    } else {
        0
    }
}

/// The indices `0..n` in the order of their keys, each inserted in turn
/// at its place.
pub open spec fn key_order(keys: Seq<(u32, u32)>, n: nat) -> Seq<usize>
    decreases n,
{
    if n == 0 {
        Seq::empty()
    } else {
        let o = key_order(keys, (n - 1) as nat);
        o.insert(insertion_point(keys, o, (n - 1) as usize), (n - 1) as usize)
    }
}

proof fn lemma_insertion_point_suffix(keys: Seq<(u32, u32)>, order: Seq<usize>, x: usize, k: int)
    requires
        0 <= k <= order.len(),
        forall|j: int| 0 <= j < k ==> key_before(keys[#[trigger] order[j] as int], keys[x as int]),
    ensures
        insertion_point(keys, order, x) == k + insertion_point(keys, order.subrange(k, order.len() as int), x),
    decreases k,
{
    if k == 0 {
        assert(order.subrange(0, order.len() as int) =~= order);
    } else {
        assert(key_before(keys[order[0] as int], keys[x as int]));
        let rest = order.drop_first();
        assert forall|j: int| 0 <= j < k - 1 implies key_before(keys[#[trigger] rest[j] as int], keys[x as int]) by {
            assert(rest[j] == order[j + 1]);
        }
        lemma_insertion_point_suffix(keys, rest, x, k - 1);
        assert(rest.subrange(k - 1, rest.len() as int) =~= order.subrange(k, order.len() as int));
    }
}

/// The keys of `order` never decrease.
pub open spec fn keys_ascending(keys: Seq<(u32, u32)>, order: Seq<usize>) -> bool {
    forall|i: int, j: int|
        0 <= i < j < order.len() ==> !key_before(#[trigger] keys[order[j] as int], #[trigger] keys[order[i] as int])
}

proof fn lemma_insertion_point_facts(keys: Seq<(u32, u32)>, order: Seq<usize>, x: usize)
    ensures
        0 <= insertion_point(keys, order, x) <= order.len(),
        forall|j: int| 0 <= j < insertion_point(keys, order, x) ==> key_before(keys[#[trigger] order[j] as int], keys[x as int]),
        insertion_point(keys, order, x) < order.len() ==> !key_before(
            keys[order[insertion_point(keys, order, x)] as int],
            keys[x as int],
        ),
    decreases order.len(),
{
    if order.len() > 0 && key_before(keys[order[0] as int], keys[x as int]) {
        let rest = order.drop_first();
        lemma_insertion_point_facts(keys, rest, x);
        assert forall|j: int| 0 <= j < insertion_point(keys, order, x) implies key_before(
            keys[#[trigger] order[j] as int],
            keys[x as int],
        ) by {
            if j > 0 {
                assert(order[j] == rest[j - 1]);
            }
        }
        if insertion_point(keys, order, x) < order.len() {
            assert(order[insertion_point(keys, order, x)] == rest[insertion_point(keys, rest, x)]);
        }
    }
}

/// The cells (and number formats) are listed in order: `key_order` lists
/// each index below `n` exactly once, with keys that never decrease.
pub proof fn law_key_order_sorts(keys: Seq<(u32, u32)>, n: nat)
    requires
        n <= keys.len(),
        n <= usize::MAX,
    ensures
        key_order(keys, n).len() == n,
        key_order(keys, n).no_duplicates(),
        forall|x: usize| #[trigger] key_order(keys, n).contains(x) <==> x < n,
        keys_ascending(keys, key_order(keys, n)),
    decreases n,
{
    if n > 0 {
        let m = (n - 1) as nat;
        law_key_order_sorts(keys, m);
        let o = key_order(keys, m);
        let x = m as usize;
        let p = insertion_point(keys, o, x);
        lemma_insertion_point_facts(keys, o, x);
        let o2 = o.insert(p, x);
        assert(key_order(keys, n) == o2);
        assert forall|y: usize| #[trigger] o2.contains(y) <==> y < n by {
            if o2.contains(y) {
                let j = choose|j: int| 0 <= j < o2.len() && o2[j] == y;
                if j < p {
                    assert(o[j] == y);
                    assert(o.contains(y));
                } else if j > p {
                    assert(o[j - 1] == y);
                    assert(o.contains(y));
                }
            }
            if y < n {
                if y == x {
                    assert(o2[p] == y);
                } else {
                    assert(o.contains(y));
                    let j = choose|j: int| 0 <= j < o.len() && o[j] == y;
                    if j < p {
                        assert(o2[j] == y);
                    } else {
                        assert(o2[j + 1] == y);
                    }
                }
            }
        }
        assert(!o.contains(x));
        assert forall|i: int, j: int| 0 <= i < j < o2.len() implies o2[i] != o2[j] by {
            if i < p && j < p {
                assert(o2[i] == o[i] && o2[j] == o[j]);
            } else if i < p && j == p {
                assert(o2[i] == o[i]);
                assert(o.contains(o[i]));
            } else if i < p && j > p {
                assert(o2[i] == o[i] && o2[j] == o[j - 1]);
            } else if i == p {
                assert(o2[j] == o[j - 1]);
                assert(o.contains(o[j - 1]));
            } else {
                assert(o2[i] == o[i - 1] && o2[j] == o[j - 1]);
            }
        }
        assert forall|i: int, j: int| 0 <= i < j < o2.len() implies !key_before(
            #[trigger] keys[o2[j] as int],
            #[trigger] keys[o2[i] as int],
        ) by {
            if i < p && j < p {
                assert(o2[i] == o[i] && o2[j] == o[j]);
            } else if i < p && j == p {
                assert(o2[i] == o[i]);
                assert(key_before(keys[o[i] as int], keys[x as int]));
            } else if i < p && j > p {
                assert(o2[i] == o[i] && o2[j] == o[j - 1]);
                assert(!key_before(keys[o[j - 1] as int], keys[o[i] as int]));
            } else if i == p {
                assert(o2[j] == o[j - 1]);
                assert(!key_before(keys[o[p] as int], keys[x as int]));
                if j - 1 > p {
                    assert(!key_before(keys[o[j - 1] as int], keys[o[p] as int]));
                }
            } else {
                assert(o2[i] == o[i - 1] && o2[j] == o[j - 1]);
            }
        }
    }
}

fn key_less(a: (u32, u32), b: (u32, u32)) -> (r: bool)
    ensures
        r == key_before(a, b),
{
    a.0 < b.0 || (a.0 == b.0 && a.1 < b.1)
}

/// The indices of `keys` in the order of their keys (stable for equal
/// keys: a later one goes before an equal earlier one).
pub fn order_by_key(keys: &Vec<(u32, u32)>) -> (r: Vec<usize>)
    ensures
        r@ == key_order(keys@, keys@.len()),
        forall|j: int| 0 <= j < r@.len() ==> #[trigger] r@[j] < keys@.len(),
        r@.len() == keys@.len(),
{
    let mut order: Vec<usize> = Vec::new();
    let mut i: usize = 0;
    while i < keys.len()
        invariant
            0 <= i <= keys@.len(),
            order@ == key_order(keys@, i as nat),
            order@.len() == i,
            forall|j: int| 0 <= j < order@.len() ==> #[trigger] order@[j] < i,
        decreases keys@.len() - i,
    {
        let mut k: usize = 0;
        while k < order.len() && key_less(keys[order[k]], keys[i])
            invariant
                0 <= k <= order@.len(),
                i < keys@.len(),
                order@ == key_order(keys@, i as nat),
                forall|j: int| 0 <= j < order@.len() ==> #[trigger] order@[j] < i,
                forall|j: int| 0 <= j < k ==> key_before(keys@[#[trigger] order@[j] as int], keys@[i as int]),
            decreases order@.len() - k,
        {
            k = k + 1;
        }
        proof {
            lemma_insertion_point_suffix(keys@, order@, i, k as int);
            let rest = order@.subrange(k as int, order@.len() as int);
            if k < order@.len() {
                assert(rest[0] == order@[k as int]);
                assert(!key_before(keys@[rest[0] as int], keys@[i as int]));
            } else {
                assert(rest.len() == 0);
            }
            assert(insertion_point(keys@, order@, i) == k);
        }
        let ghost old_order = order@;
        order.insert(k, i);
        proof {
            assert(order@ == key_order(keys@, (i + 1) as nat));
            assert forall|j: int| 0 <= j < order@.len() implies #[trigger] order@[j] < i + 1 by {
                if j < k {
                    assert(order@[j] == old_order[j]);
                } else if j > k {
                    assert(order@[j] == old_order[j - 1]);
                }
            }
        }
        i = i + 1;
    }
    order
}

// ── Worksheets and workbooks ─────────────────────────────────────────────

/// A value written as one JSON item of a list.
pub trait JsonItem: Sized {
    spec fn json_text(&self) -> Seq<char>;

    fn push_json(&self, out: &mut Vec<char>)
        ensures
            final(out)@ == old(out)@ + self.json_text(),
    ;
}

impl JsonItem for DataValidationRule {
    open spec fn json_text(&self) -> Seq<char> {
        validation_text(*self)
    }

    fn push_json(&self, out: &mut Vec<char>) {
        push_validation(out, self);
    }
}

impl JsonItem for TableDef {
    open spec fn json_text(&self) -> Seq<char> {
        table_text(*self)
    }

    fn push_json(&self, out: &mut Vec<char>) {
        push_table(out, self);
    }
}

impl JsonItem for ChartDef {
    open spec fn json_text(&self) -> Seq<char> {
        chart_text(*self)
    }

    fn push_json(&self, out: &mut Vec<char>) {
        push_chart(out, self);
    }
}

impl JsonItem for CommentNote {
    open spec fn json_text(&self) -> Seq<char> {
        comment_text(*self)
    }

    fn push_json(&self, out: &mut Vec<char>) {
        push_comment(out, self);
    }
}

impl JsonItem for ConditionalFormatRule {
    open spec fn json_text(&self) -> Seq<char> {
        conditional_format_text(*self)
    }

    fn push_json(&self, out: &mut Vec<char>) {
        push_conditional_format(out, self);
    }
}

/// One 1-based merge rectangle as 0-based `{"s":{"r":..,"c":..},"e":{..}}`
/// (a 0 coordinate stays 0).
pub open spec fn merge_text(m: ((u32, u32), (u32, u32))) -> Seq<char> {
    "{\"s\":"@ + corner_text(m.0) + ",\"e\":"@ + corner_text(m.1) + "}"@
}

/// A 1-based corner as 0-based `{"r":..,"c":..}`.
pub open spec fn corner_text(p: (u32, u32)) -> Seq<char> {
    "{\"r\":"@ + decimal(zero_based(p.0)) + ",\"c\":"@ + decimal(zero_based(p.1)) + "}"@
}

fn push_corner(out: &mut Vec<char>, p: (u32, u32))
    ensures
        final(out)@ == old(out)@ + corner_text(p),
{
    let ghost before = out@;
    push_str_chars(out, "{\"r\":");
    push_u32(out, p.0.saturating_sub(1));
    push_str_chars(out, ",\"c\":");
    push_u32(out, p.1.saturating_sub(1));
    push_str_chars(out, "}");
    proof {
        assert(out@ =~= before + corner_text(p));
    }
}

/// `x - 1`, or 0 for 0.
pub open spec fn zero_based(x: u32) -> nat {
    if x == 0 {
        0
    } else {
        (x - 1) as nat
    }
}

impl JsonItem for ((u32, u32), (u32, u32)) {
    open spec fn json_text(&self) -> Seq<char> {
        merge_text(*self)
    }

    fn push_json(&self, out: &mut Vec<char>) {
        let ghost before = out@;
        push_str_chars(out, "{\"s\":");
        push_corner(out, self.0);
        push_str_chars(out, ",\"e\":");
        push_corner(out, self.1);
        push_str_chars(out, "}");
        proof {
            assert(out@ =~= before + merge_text(*self));
        }
    }
}

pub open spec fn json_items<T: JsonItem>(xs: Seq<T>) -> Seq<Seq<char>> {
    xs.map_values(|x: T| x.json_text())
}

fn json_item_chars<T: JsonItem>(xs: &Vec<T>) -> (r: Vec<Vec<char>>)
    ensures
        items_view(r@) == json_items(xs@),
{
    let mut items: Vec<Vec<char>> = Vec::new();
    let mut k: usize = 0;
    proof {
        assert(items_view(items@) =~= json_items(xs@.subrange(0, 0)));
    }
    while k < xs.len()
        invariant
            0 <= k <= xs@.len(),
            items_view(items@) == json_items(xs@.subrange(0, k as int)),
        decreases xs@.len() - k,
    {
        let mut v: Vec<char> = Vec::new();
        xs[k].push_json(&mut v);
        let ghost before = items_view(items@);
        push_item(&mut items, v);
        proof {
            assert(json_items(xs@.subrange(0, k + 1)) =~= before.push(xs@[k as int].json_text()));
        }
        k = k + 1;
    }
    proof {
        assert(xs@.subrange(0, xs@.len() as int) =~= xs@);
    }
    items
}

/// `,"key":[item,...]` for a list with items; nothing for an empty one.
pub open spec fn list_field(key: Seq<char>, items: Seq<Seq<char>>) -> Seq<char> {
    if items.len() == 0 {
        Seq::empty()
    } else {
        ",\""@ + key + "\":["@ + join_with(items, ',') + "]"@
    }
}

fn push_list_field<T: JsonItem>(out: &mut Vec<char>, key: &str, xs: &Vec<T>)
    ensures
        final(out)@ == old(out)@ + list_field(key@, json_items(xs@)),
{
    let ghost before = out@;
    if xs.len() > 0 {
        push_str_chars(out, ",\"");
        push_str_chars(out, key);
        push_str_chars(out, "\":[");
        push_joined(out, &json_item_chars(xs));
        push_str_chars(out, "]");
    }
    proof {
        assert(out@ =~= before + list_field(key@, json_items(xs@)));
    }
}

/// A worksheet as its JSON reads it: its name, populated cells, the trusted
/// `<dimension>` where there is one, merges, hidden row and column
/// intervals, data validations, tables, charts, comments, conditional
/// formats and frozen panes.
pub struct BufferSheet {
    pub name: String,
    pub cells: Vec<SheetJsonCell>,
    pub dimension: Option<((u32, u32), (u32, u32))>,
    pub merged_ranges: Vec<((u32, u32), (u32, u32))>,
    pub hidden_rows: Vec<(u32, u32)>,
    pub hidden_columns: Vec<(u32, u32)>,
    pub data_validations: Vec<DataValidationRule>,
    pub tables: Vec<TableDef>,
    pub charts: Vec<ChartDef>,
    pub comment_notes: Vec<CommentNote>,
    pub conditional_formats: Vec<ConditionalFormatRule>,
    pub freeze_pane: Option<FreezePane>,
}

/// The positions of the cells.
pub open spec fn cell_keys(cs: Seq<SheetJsonCell>) -> Seq<(u32, u32)> {
    cs.map_values(|c: SheetJsonCell| (c.row, c.col))
}

/// No two cells share a position: the cells of a sheet form a map keyed
/// by `(row, col)`.
pub open spec fn cells_distinct(cs: Seq<SheetJsonCell>) -> bool {
    forall|i: int, j: int|
        0 <= i < j < cs.len() ==> (#[trigger] cs[i].row, cs[i].col) != (#[trigger] cs[j].row, cs[j].col)
}

/// `"A1":{...}` for a cell.
pub open spec fn cell_entry_text(c: SheetJsonCell) -> Seq<char> {
    json_quoted(cell_ref_text(c.row, c.col)) + ":"@ + cell_json_text(c)
}

/// The cell entries in row-then-column order.
pub open spec fn cell_entries(cs: Seq<SheetJsonCell>) -> Seq<Seq<char>> {
    key_order(cell_keys(cs), cs.len()).map_values(|i: usize| cell_entry_text(cs[i as int]))
}

pub open spec fn min_u32(a: u32, b: u32) -> u32 {
    if a <= b {
        a
    } else {
        b
    }
}

pub open spec fn max_u32(a: u32, b: u32) -> u32 {
    if a >= b {
        a
    } else {
        b
    }
}

/// The smallest rectangle holding every cell (the corner values of no
/// cells are `u32::MAX` and 0).
pub open spec fn bounding_box(cs: Seq<SheetJsonCell>) -> ((u32, u32), (u32, u32))
    decreases cs.len(),
{
    if cs.len() == 0 {
        ((u32::MAX, u32::MAX), (0, 0))
    } else {
        let b = bounding_box(cs.drop_last());
        let c = cs.last();
        ((min_u32(b.0.0, c.row), min_u32(b.0.1, c.col)), (max_u32(b.1.0, c.row), max_u32(b.1.1, c.col)))
    }
}

/// The sheet's `!ref`: its `<dimension>` where trusted, else the bounding
/// box of its cells, else none.
pub open spec fn sheet_ref(bs: BufferSheet) -> Option<((u32, u32), (u32, u32))> {
    match bs.dimension {
        Some(d) => Some(d),
        None => if bs.cells@.len() > 0 {
            Some(bounding_box(bs.cells@))
        } else {
            None
        },
    }
}

pub open spec fn ref_text(r: Option<((u32, u32), (u32, u32))>) -> Seq<char> {
    match r {
        Some(r) => ",\"!ref\":"@ + json_quoted(rect_text(r)),
        None => Seq::empty(),
    }
}

pub open spec fn freeze_text(p: Option<FreezePane>) -> Seq<char> {
    match p {
        Some(p) => ",\"!freezePane\":{\"rows\":"@ + decimal(p.rows as nat) + ",\"cols\":"@ + decimal(p.cols as nat) + "}"@,
        None => Seq::empty(),
    }
}

/// The cells, `!ref`, merges and hidden intervals of a worksheet's JSON.
#[verifier::opaque]
pub open spec fn worksheet_grid_text(bs: BufferSheet) -> Seq<char> {
    "{"@ + join_with(cell_entries(bs.cells@), ',') + ref_text(sheet_ref(bs)) + list_field(
        "!merges"@,
        json_items(bs.merged_ranges@),
    ) + hidden_intervals_field("!hiddenRows"@, bs.hidden_rows@) + hidden_intervals_field("!hiddenCols"@, bs.hidden_columns@)
}

/// The data validations, tables, charts, comments, conditional formats and
/// frozen panes of a worksheet's JSON.
#[verifier::opaque]
pub open spec fn worksheet_features_text(bs: BufferSheet) -> Seq<char> {
    list_field("!dataValidations"@, json_items(bs.data_validations@)) + list_field("!tables"@, json_items(bs.tables@))
        + list_field("!charts"@, json_items(bs.charts@)) + list_field("!comments"@, json_items(bs.comment_notes@))
        + list_field("!conditionalFormats"@, json_items(bs.conditional_formats@)) + freeze_text(bs.freeze_pane)
}

/// A worksheet's JSON object.
#[verifier::opaque]
pub open spec fn worksheet_text(bs: BufferSheet) -> Seq<char> {
    worksheet_grid_text(bs) + worksheet_features_text(bs) + "}"@
}

#[verifier::spinoff_prover]
fn push_cell_entries(out: &mut Vec<char>, cells: &Vec<SheetJsonCell>)
    ensures
        final(out)@ == old(out)@ + join_with(cell_entries(cells@), ','),
{
    let mut keys: Vec<(u32, u32)> = Vec::new();
    let mut i: usize = 0;
    while i < cells.len()
        invariant
            0 <= i <= cells@.len(),
            keys@ == cell_keys(cells@.subrange(0, i as int)),
        decreases cells@.len() - i,
    {
        keys.push((cells[i].row, cells[i].col));
        proof {
            assert(cell_keys(cells@.subrange(0, i + 1)) =~= cell_keys(cells@.subrange(0, i as int)).push(
                (cells@[i as int].row, cells@[i as int].col),
            ));
        }
        i = i + 1;
    }
    proof {
        assert(cells@.subrange(0, cells@.len() as int) =~= cells@);
    }
    let order = order_by_key(&keys);
    let ghost entries = cell_entries(cells@);
    let ghost head = out@;
    let mut k: usize = 0;
    proof {
        assert(entries.subrange(0, 0) =~= Seq::<Seq<char>>::empty());
        assert(out@ =~= head + join_with(entries.subrange(0, 0), ','));
    }
    while k < order.len()
        invariant
            0 <= k <= order@.len(),
            order@.len() == cells@.len(),
            keys@ == cell_keys(cells@),
            order@ == key_order(keys@, keys@.len()),
            forall|j: int| 0 <= j < order@.len() ==> #[trigger] order@[j] < cells@.len(),
            entries == cell_entries(cells@),
            entries.len() == order@.len(),
            out@ == head + join_with(entries.subrange(0, k as int), ','),
        decreases order@.len() - k,
    {
        proof {
            lemma_join_step(entries, k as int);
        }
        if k > 0 {
            out.push(',');
        }
        let ghost mid = out@;
        let idx = order[k];
        let c = &cells[idx];
        push_quoted_chars(out, &cell_ref_chars(c.row, c.col));
        push_str_chars(out, ":");
        push_cell_json(out, c);
        proof {
            assert(entries[k as int] == cell_entry_text(cells@[idx as int]));
            assert(out@ =~= mid + cell_entry_text(cells@[idx as int]));
        }
        k = k + 1;
    }
    proof {
        assert(entries.subrange(0, entries.len() as int) =~= entries);
    }
}

fn bounding_box_exec(cells: &Vec<SheetJsonCell>) -> (r: ((u32, u32), (u32, u32)))
    ensures
        r == bounding_box(cells@),
{
    let mut min_r: u32 = u32::MAX;
    let mut min_c: u32 = u32::MAX;
    let mut max_r: u32 = 0;
    let mut max_c: u32 = 0;
    let mut i: usize = 0;
    while i < cells.len()
        invariant
            0 <= i <= cells@.len(),
            ((min_r, min_c), (max_r, max_c)) == bounding_box(cells@.subrange(0, i as int)),
        decreases cells@.len() - i,
    {
        proof {
            assert(cells@.subrange(0, i + 1).drop_last() =~= cells@.subrange(0, i as int));
        }
        let c = &cells[i];
        if c.row < min_r {
            min_r = c.row;
        }
        if c.col < min_c {
            min_c = c.col;
        }
        if c.row > max_r {
            max_r = c.row;
        }
        if c.col > max_c {
            max_c = c.col;
        }
        i = i + 1;
    }
    proof {
        assert(cells@.subrange(0, cells@.len() as int) =~= cells@);
    }
    ((min_r, min_c), (max_r, max_c))
}

#[verifier::spinoff_prover]
fn push_worksheet_grid(out: &mut Vec<char>, bs: &BufferSheet)
    ensures
        final(out)@ == old(out)@ + worksheet_grid_text(*bs),
{
    proof {
        reveal(worksheet_grid_text);
    }
    let ghost before = out@;
    push_str_chars(out, "{");
    push_cell_entries(out, &bs.cells);
    let ghost a = out@;
    let r = match bs.dimension {
        Some(d) => Some(d),
        None => if bs.cells.len() > 0 {
            Some(bounding_box_exec(&bs.cells))
        } else {
            None
        },
    };
    match r {
        Some(r) => {
            push_str_chars(out, ",\"!ref\":");
            push_quoted_rect(out, r);
        },
        None => {},
    }
    proof {
        assert(out@ =~= a + ref_text(sheet_ref(*bs)));
    }
    push_list_field(out, "!merges", &bs.merged_ranges);
    push_hidden_intervals(out, "!hiddenRows", bs.hidden_rows.as_slice());
    push_hidden_intervals(out, "!hiddenCols", bs.hidden_columns.as_slice());
    proof {
        let g0 = "{"@;
        let g1 = join_with(cell_entries(bs.cells@), ',');
        let g2 = ref_text(sheet_ref(*bs));
        let g3 = list_field("!merges"@, json_items(bs.merged_ranges@));
        let g4 = hidden_intervals_field("!hiddenRows"@, bs.hidden_rows@);
        let g5 = hidden_intervals_field("!hiddenCols"@, bs.hidden_columns@);
        lemma_cat3(before, g0 + g1 + g2 + g3 + g4, g5);
        lemma_cat3(before, g0 + g1 + g2 + g3, g4);
        lemma_cat3(before, g0 + g1 + g2, g3);
        lemma_cat3(before, g0 + g1, g2);
        lemma_cat3(before, g0, g1);
    }
}

#[verifier::spinoff_prover]
fn push_worksheet_features(out: &mut Vec<char>, bs: &BufferSheet)
    ensures
        final(out)@ == old(out)@ + worksheet_features_text(*bs),
{
    proof {
        reveal(worksheet_features_text);
    }
    let ghost before = out@;
    push_list_field(out, "!dataValidations", &bs.data_validations);
    push_list_field(out, "!tables", &bs.tables);
    push_list_field(out, "!charts", &bs.charts);
    push_list_field(out, "!comments", &bs.comment_notes);
    push_list_field(out, "!conditionalFormats", &bs.conditional_formats);
    let ghost a = out@;
    match &bs.freeze_pane {
        Some(p) => {
            push_str_chars(out, ",\"!freezePane\":{\"rows\":");
            push_u32(out, p.rows);
            push_str_chars(out, ",\"cols\":");
            push_u32(out, p.cols);
            push_str_chars(out, "}");
        },
        None => {},
    }
    proof {
        assert(out@ =~= a + freeze_text(bs.freeze_pane));
        let f0 = list_field("!dataValidations"@, json_items(bs.data_validations@));
        let f1 = list_field("!tables"@, json_items(bs.tables@));
        let f2 = list_field("!charts"@, json_items(bs.charts@));
        let f3 = list_field("!comments"@, json_items(bs.comment_notes@));
        let f4 = list_field("!conditionalFormats"@, json_items(bs.conditional_formats@));
        let f5 = freeze_text(bs.freeze_pane);
        lemma_cat3(before, f0 + f1 + f2 + f3 + f4, f5);
        lemma_cat3(before, f0 + f1 + f2 + f3, f4);
        lemma_cat3(before, f0 + f1 + f2, f3);
        lemma_cat3(before, f0 + f1, f2);
        lemma_cat3(before, f0, f1);
    }
}

fn push_worksheet(out: &mut Vec<char>, bs: &BufferSheet)
    ensures
        final(out)@ == old(out)@ + worksheet_text(*bs),
{
    proof {
        reveal(worksheet_text);
    }
    let ghost before = out@;
    push_worksheet_grid(out, bs);
    push_worksheet_features(out, bs);
    push_str_chars(out, "}");
    proof {
        lemma_cat3(before, worksheet_grid_text(*bs) + worksheet_features_text(*bs), "}"@);
        lemma_cat3(before, worksheet_grid_text(*bs), worksheet_features_text(*bs));
    }
}

/// A worksheet's JSON object: its cells keyed by A1 reference in
/// row-then-column order; `!ref` (the trusted `<dimension>`, else the
/// bounding box of the cells, a single cell written without `:`); 0-based
/// `!merges`; the hidden row and column intervals; data validations,
/// tables, charts, comments and conditional formats where there are any;
/// and the frozen panes where set.
pub fn worksheet_json(bs: &BufferSheet) -> (r: String)
    requires
        cells_distinct(bs.cells@),
    ensures
        r@ == worksheet_text(*bs),
{
    let mut out: Vec<char> = Vec::new();
    push_worksheet(&mut out, bs);
    proof {
        assert(out@ =~= worksheet_text(*bs));
    }
    string_from_chars(&out)
}

/// A defined name of the workbook: its name, the sheet index it is local
/// to where it is, and its reference text.
pub struct XlsxDefinedName {
    pub name: String,
    pub local_sheet_id: Option<u32>,
    pub raw_text: String,
}

/// A workbook as its JSON reads it: its sheets in order, its custom number
/// formats by id, its date system and its defined names.
pub struct BufferWorkbook {
    pub sheets: Vec<BufferSheet>,
    pub number_formats: Vec<(u32, String)>,
    pub date1904: bool,
    pub defined_names: Vec<XlsxDefinedName>,
}

impl JsonItem for XlsxDefinedName {
    open spec fn json_text(&self) -> Seq<char> {
        "{\"Name\":"@ + json_quoted(self.name@) + ",\"Ref\":"@ + json_quoted(self.raw_text@) + (match self.local_sheet_id {
            Some(s) => ",\"Sheet\":"@ + decimal(s as nat),
            None => Seq::empty(),
        }) + "}"@
    }

    fn push_json(&self, out: &mut Vec<char>) {
        let ghost before = out@;
        push_str_chars(out, "{\"Name\":");
        push_quoted_string(out, &self.name);
        push_str_chars(out, ",\"Ref\":");
        push_quoted_string(out, &self.raw_text);
        match self.local_sheet_id {
            Some(sid) => {
                push_str_chars(out, ",\"Sheet\":");
                push_u32(out, sid);
            },
            None => {},
        }
        push_str_chars(out, "}");
        proof {
            assert(out@ =~= before + self.json_text());
        }
    }
}

impl JsonItem for BufferSheet {
    open spec fn json_text(&self) -> Seq<char> {
        json_quoted(self.name@) + ":"@ + worksheet_text(*self)
    }

    fn push_json(&self, out: &mut Vec<char>) {
        let ghost before = out@;
        push_quoted_string(out, &self.name);
        push_str_chars(out, ":");
        push_worksheet(out, self);
        proof {
            assert(out@ =~= before + self.json_text());
        }
    }
}

/// The quoted names of the sheets.
pub open spec fn sheet_name_items(ss: Seq<BufferSheet>) -> Seq<Seq<char>> {
    ss.map_values(|s: BufferSheet| json_quoted(s.name@))
}

/// The ids of the number formats, as sort keys.
pub open spec fn num_fmt_keys(fs: Seq<(u32, String)>) -> Seq<(u32, u32)> {
    fs.map_values(|f: (u32, String)| (f.0, 0u32))
}

/// `"id":"format"` entries in increasing id order.
pub open spec fn num_fmt_items(fs: Seq<(u32, String)>) -> Seq<Seq<char>> {
    key_order(num_fmt_keys(fs), fs.len()).map_values(
        |i: usize| json_quoted(decimal(fs[i as int].0 as nat)) + ":"@ + json_quoted(fs[i as int].1@),
    )
}

pub open spec fn num_fmts_text(fs: Seq<(u32, String)>) -> Seq<char> {
    if fs.len() == 0 {
        Seq::empty()
    } else {
        ",\"!numFmts\":{"@ + join_with(num_fmt_items(fs), ',') + "}"@
    }
}

pub open spec fn defined_names_text(ds: Seq<XlsxDefinedName>) -> Seq<char> {
    if ds.len() == 0 {
        Seq::empty()
    } else {
        ",\"Workbook\":{\"Names\":["@ + join_with(json_items(ds), ',') + "]}"@
    }
}

/// The workbook's JSON object: `SheetNames`, `Sheets` (each worksheet's
/// object under its name), `!numFmts` where there are any, `!date1904`,
/// and `Workbook.Names` where there are defined names.
pub open spec fn workbook_text(wb: BufferWorkbook) -> Seq<char> {
    "{\"SheetNames\":["@ + join_with(sheet_name_items(wb.sheets@), ',') + "],\"Sheets\":{"@ + join_with(
        json_items(wb.sheets@),
        ',',
    ) + "}"@ + num_fmts_text(wb.number_formats@) + ",\"!date1904\":"@ + bool_text(wb.date1904) + defined_names_text(
        wb.defined_names@,
    ) + "}"@
}

fn sheet_name_chars(ss: &Vec<BufferSheet>) -> (r: Vec<Vec<char>>)
    ensures
        items_view(r@) == sheet_name_items(ss@),
{
    let mut items: Vec<Vec<char>> = Vec::new();
    let mut k: usize = 0;
    proof {
        assert(items_view(items@) =~= sheet_name_items(ss@.subrange(0, 0)));
    }
    while k < ss.len()
        invariant
            0 <= k <= ss@.len(),
            items_view(items@) == sheet_name_items(ss@.subrange(0, k as int)),
        decreases ss@.len() - k,
    {
        let mut v: Vec<char> = Vec::new();
        push_quoted_string(&mut v, &ss[k].name);
        let ghost before = items_view(items@);
        push_item(&mut items, v);
        proof {
            assert(sheet_name_items(ss@.subrange(0, k + 1)) =~= before.push(json_quoted(ss@[k as int].name@)));
        }
        k = k + 1;
    }
    proof {
        assert(ss@.subrange(0, ss@.len() as int) =~= ss@);
    }
    items
}

#[verifier::spinoff_prover]
fn push_num_fmts(out: &mut Vec<char>, fs: &Vec<(u32, String)>)
    ensures
        final(out)@ == old(out)@ + num_fmts_text(fs@),
{
    let ghost before = out@;
    if fs.len() == 0 {
        proof {
            assert(out@ =~= before + num_fmts_text(fs@));
        }
        return;
    }
    let mut keys: Vec<(u32, u32)> = Vec::new();
    let mut i: usize = 0;
    while i < fs.len()
        invariant
            0 <= i <= fs@.len(),
            keys@ == num_fmt_keys(fs@.subrange(0, i as int)),
        decreases fs@.len() - i,
    {
        keys.push((fs[i].0, 0u32));
        proof {
            assert(num_fmt_keys(fs@.subrange(0, i + 1)) =~= num_fmt_keys(fs@.subrange(0, i as int)).push(
                (fs@[i as int].0, 0u32),
            ));
        }
        i = i + 1;
    }
    proof {
        assert(fs@.subrange(0, fs@.len() as int) =~= fs@);
    }
    let order = order_by_key(&keys);
    let ghost items = num_fmt_items(fs@);
    push_str_chars(out, ",\"!numFmts\":{");
    let ghost head = out@;
    let mut k: usize = 0;
    proof {
        assert(items.subrange(0, 0) =~= Seq::<Seq<char>>::empty());
        assert(out@ =~= head + join_with(items.subrange(0, 0), ','));
    }
    while k < order.len()
        invariant
            0 <= k <= order@.len(),
            order@.len() == fs@.len(),
            keys@ == num_fmt_keys(fs@),
            order@ == key_order(keys@, keys@.len()),
            forall|j: int| 0 <= j < order@.len() ==> #[trigger] order@[j] < fs@.len(),
            items == num_fmt_items(fs@),
            items.len() == order@.len(),
            out@ == head + join_with(items.subrange(0, k as int), ','),
        decreases order@.len() - k,
    {
        proof {
            lemma_join_step(items, k as int);
        }
        if k > 0 {
            out.push(',');
        }
        let ghost mid = out@;
        let idx = order[k];
        push_quoted_chars(out, &fmt_u64(fs[idx].0 as u64));
        push_str_chars(out, ":");
        push_quoted_string(out, &fs[idx].1);
        proof {
            assert(out@ =~= mid + items[k as int]);
        }
        k = k + 1;
    }
    proof {
        assert(items.subrange(0, items.len() as int) =~= items);
    }
    push_str_chars(out, "}");
    proof {
        assert(out@ =~= before + num_fmts_text(fs@));
    }
}

fn push_defined_names(out: &mut Vec<char>, ds: &Vec<XlsxDefinedName>)
    ensures
        final(out)@ == old(out)@ + defined_names_text(ds@),
{
    let ghost before = out@;
    if ds.len() > 0 {
        push_str_chars(out, ",\"Workbook\":{\"Names\":[");
        push_joined(out, &json_item_chars(ds));
        push_str_chars(out, "]}");
    }
    proof {
        assert(out@ =~= before + defined_names_text(ds@));
    }
}

/// The workbook's JSON object handed to the host: `SheetNames`, every
/// worksheet's object under `Sheets`, the custom number formats by
/// increasing id under `!numFmts` where there are any, `!date1904`, and
/// the defined names under `Workbook.Names` where there are any.
#[verifier::spinoff_prover]
pub fn workbook_json(wb: &BufferWorkbook) -> (r: String)
    requires
        forall|i: int| 0 <= i < wb.sheets@.len() ==> cells_distinct(#[trigger] wb.sheets@[i].cells@),
    ensures
        r@ == workbook_text(*wb),
{
    let mut out: Vec<char> = Vec::new();
    push_str_chars(&mut out, "{\"SheetNames\":[");
    push_joined(&mut out, &sheet_name_chars(&wb.sheets));
    push_str_chars(&mut out, "],\"Sheets\":{");
    push_joined(&mut out, &json_item_chars(&wb.sheets));
    push_str_chars(&mut out, "}");
    let ghost a = out@;
    push_num_fmts(&mut out, &wb.number_formats);
    push_str_chars(&mut out, ",\"!date1904\":");
    push_bool(&mut out, wb.date1904);
    push_defined_names(&mut out, &wb.defined_names);
    push_str_chars(&mut out, "}");
    proof {
        let w0 = "{\"SheetNames\":["@ + join_with(sheet_name_items(wb.sheets@), ',') + "],\"Sheets\":{"@ + join_with(
            json_items(wb.sheets@),
            ',',
        ) + "}"@;
        assert(a =~= w0);
        let w1 = num_fmts_text(wb.number_formats@);
        let w2 = ",\"!date1904\":"@;
        let w3 = bool_text(wb.date1904);
        let w4 = defined_names_text(wb.defined_names@);
        let w5 = "}"@;
        assert(out@ == w0 + w1 + w2 + w3 + w4 + w5);
    }
    string_from_chars(&out)
}

} // verus!
