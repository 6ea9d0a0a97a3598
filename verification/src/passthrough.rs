//! What a save decides before it writes: the parts it copies through from
//! its source package (every part it does not regenerate itself, except a
//! macro project in a macro-free output and the parts only deleted sheets
//! led to), the content type it declares for each, whether the output
//! keeps a macro project, the worksheet part numbers a new sheet must not
//! reuse, and the shared-string table of its cells. Everything is listed
//! in an order fixed by names and positions, so a save's output does not
//! depend on the order in which the source was read.

use vstd::prelude::*;
use crate::diagnostics::{has_prefix, starts_with};
use crate::formula::deps::{lemma_text_lt_irreflexive, lemma_text_lt_transitive, text_less, text_lt};
use crate::formula::workbook::{last_index_of, last_index_of_exec};
use crate::package::{is_writer_owned_part, parse_sheet_part_number, sheet_part_number, writer_owned};
use crate::relgraph::names_view;
use crate::sheetjson::{key_order, order_by_key};
use crate::sheetxml::SavedCellValue;
use crate::text::{chars_eq, push_all, slice_chars, str_chars, string_chars, string_from_chars};

verus! {

// ── Text order ───────────────────────────────────────────────────────────

/// The place of index `x` in `order`: before the first index whose text
/// comes after `x`'s, so that equal texts keep their order.
pub open spec fn text_insertion_point(keys: Seq<Seq<char>>, order: Seq<usize>, x: usize) -> int
    decreases order.len(),
{
    if order.len() == 0 {
        0
    } else if !text_lt(keys[x as int], keys[order[0] as int]) {
        1 + text_insertion_point(keys, order.drop_first(), x)
    } else {
        0
    }
}

/// The indices `0..n` in the order of their texts (equal texts in index
/// order), each inserted in turn at its place.
pub open spec fn text_order(keys: Seq<Seq<char>>, n: nat) -> Seq<usize>
    decreases n,
{
    if n == 0 {
        Seq::empty()
    } else {
        let o = text_order(keys, (n - 1) as nat);
        o.insert(text_insertion_point(keys, o, (n - 1) as usize), (n - 1) as usize)
    }
}

proof fn lemma_text_insertion_point_suffix(keys: Seq<Seq<char>>, order: Seq<usize>, x: usize, k: int)
    requires
        0 <= k <= order.len(),
        forall|j: int| 0 <= j < k ==> !text_lt(keys[x as int], keys[#[trigger] order[j] as int]),
    ensures
        text_insertion_point(keys, order, x) == k + text_insertion_point(keys, order.subrange(k, order.len() as int), x),
    decreases k,
{
    if k == 0 {
        assert(order.subrange(0, order.len() as int) =~= order);
    } else {
        assert(!text_lt(keys[x as int], keys[order[0] as int]));
        let rest = order.drop_first();
        assert forall|j: int| 0 <= j < k - 1 implies !text_lt(keys[x as int], keys[#[trigger] rest[j] as int]) by {
            assert(rest[j] == order[j + 1]);
        }
        lemma_text_insertion_point_suffix(keys, rest, x, k - 1);
        assert(rest.subrange(k - 1, rest.len() as int) =~= order.subrange(k, order.len() as int));
    }
}

/// The texts of `order` never decrease.
pub open spec fn texts_ascending(keys: Seq<Seq<char>>, order: Seq<usize>) -> bool {
    forall|i: int, j: int|
        0 <= i < j < order.len() ==> !text_lt(#[trigger] keys[order[j] as int], #[trigger] keys[order[i] as int])
}

proof fn lemma_text_insertion_point_facts(keys: Seq<Seq<char>>, order: Seq<usize>, x: usize)
    ensures
        0 <= text_insertion_point(keys, order, x) <= order.len(),
        forall|j: int|
            0 <= j < text_insertion_point(keys, order, x) ==> !text_lt(keys[x as int], keys[#[trigger] order[j] as int]),
        text_insertion_point(keys, order, x) < order.len() ==> text_lt(
            keys[x as int],
            keys[order[text_insertion_point(keys, order, x)] as int],
        ),
    decreases order.len(),
{
    if order.len() > 0 && !text_lt(keys[x as int], keys[order[0] as int]) {
        let rest = order.drop_first();
        lemma_text_insertion_point_facts(keys, rest, x);
        assert forall|j: int| 0 <= j < text_insertion_point(keys, order, x) implies !text_lt(
            keys[x as int],
            keys[#[trigger] order[j] as int],
        ) by {
            if j > 0 {
                assert(order[j] == rest[j - 1]);
            }
        }
        if text_insertion_point(keys, order, x) < order.len() {
            assert(order[text_insertion_point(keys, order, x)] == rest[text_insertion_point(keys, rest, x)]);
        }
    }
}

/// Parts and relationships are listed in order: `text_order` lists each
/// index below `n` exactly once, with texts that never decrease (and equal
/// texts in index order).
pub proof fn law_text_order_sorts(keys: Seq<Seq<char>>, n: nat)
    requires
        n <= keys.len(),
        n <= usize::MAX,
    ensures
        text_order(keys, n).len() == n,
        text_order(keys, n).no_duplicates(),
        forall|x: usize| #[trigger] text_order(keys, n).contains(x) <==> x < n,
        texts_ascending(keys, text_order(keys, n)),
    decreases n,
{
    if n > 0 {
        let m = (n - 1) as nat;
        law_text_order_sorts(keys, m);
        let o = text_order(keys, m);
        let x = m as usize;
        let p = text_insertion_point(keys, o, x);
        lemma_text_insertion_point_facts(keys, o, x);
        let o2 = o.insert(p, x);
        assert(text_order(keys, n) == o2);
        assert forall|y: usize| #[trigger] o2.contains(y) <==> y < n by {
            if o2.contains(y) {
                let j = choose|j: int| 0 <= j < o2.len() && o2[j] == y;
                if j < p {
                    assert(o[j] == y);
                    assert(o.contains(y));
                } else if j > p {
                    assert(o[j - 1] == y);
                    assert(o.contains(y));
                }
            }
            if y < n {
                if y == x {
                    assert(o2[p] == y);
                } else {
                    assert(o.contains(y));
                    let j = choose|j: int| 0 <= j < o.len() && o[j] == y;
                    if j < p {
                        assert(o2[j] == y);
                    } else {
                        assert(o2[j + 1] == y);
                    }
                }
            }
        }
        assert(!o.contains(x));
        assert forall|i: int, j: int| 0 <= i < j < o2.len() implies o2[i] != o2[j] by {
            if i < p && j < p {
                assert(o2[i] == o[i] && o2[j] == o[j]);
            } else if i < p && j == p {
                assert(o2[i] == o[i]);
                assert(o.contains(o[i]));
            } else if i < p && j > p {
                assert(o2[i] == o[i] && o2[j] == o[j - 1]);
            } else if i == p {
                assert(o2[j] == o[j - 1]);
                assert(o.contains(o[j - 1]));
            } else {
                assert(o2[i] == o[i - 1] && o2[j] == o[j - 1]);
            }
        }
        assert forall|i: int, j: int| 0 <= i < j < o2.len() implies !text_lt(
            #[trigger] keys[o2[j] as int],
            #[trigger] keys[o2[i] as int],
        ) by {
            if i < p && j < p {
                assert(o2[i] == o[i] && o2[j] == o[j]);
            } else if i < p && j == p {
                assert(o2[i] == o[i]);
            } else if i < p && j > p {
                assert(o2[i] == o[i] && o2[j] == o[j - 1]);
            } else if i == p {
                assert(o2[j] == o[j - 1]);
                let kx = keys[x as int];
                let kp = keys[o[p] as int];
                let kj = keys[o[j - 1] as int];
                assert(text_lt(kx, kp));
                if text_lt(kj, kx) {
                    lemma_text_lt_transitive(kj, kx, kp);
                    if j - 1 > p {
                        assert(!text_lt(kj, kp));
                    } else {
                        lemma_text_lt_irreflexive(kp);
                    }
                }
            } else {
                assert(o2[i] == o[i - 1] && o2[j] == o[j - 1]);
            }
        }
    }
}

pub open spec fn chars_views(v: Seq<Vec<char>>) -> Seq<Seq<char>> {
    v.map_values(|x: Vec<char>| x@)
}

/// The indices of `keys` in the order of their texts; equal texts keep
/// their order.
pub fn order_by_text(keys: &Vec<Vec<char>>) -> (r: Vec<usize>)
    ensures
        r@ == text_order(chars_views(keys@), keys@.len()),
        r@.len() == keys@.len(),
        forall|j: int| 0 <= j < r@.len() ==> #[trigger] r@[j] < keys@.len(),
{
    let ghost kv = chars_views(keys@);
    let mut order: Vec<usize> = Vec::new();
    let mut i: usize = 0;
    while i < keys.len()
        invariant
            0 <= i <= keys@.len(),
            kv == chars_views(keys@),
            order@ == text_order(kv, i as nat),
            order@.len() == i,
            forall|j: int| 0 <= j < order@.len() ==> #[trigger] order@[j] < i,
        decreases keys@.len() - i,
    {
        let mut k: usize = 0;
        while k < order.len() && !text_less(&keys[i], &keys[order[k]])
            invariant
                0 <= k <= order@.len(),
                i < keys@.len(),
                kv == chars_views(keys@),
                order@ == text_order(kv, i as nat),
                forall|j: int| 0 <= j < order@.len() ==> #[trigger] order@[j] < i,
                forall|j: int| 0 <= j < k ==> !text_lt(kv[i as int], kv[#[trigger] order@[j] as int]),
            decreases order@.len() - k,
        {
            proof {
                assert(kv[order@[k as int] as int] == keys@[order@[k as int] as int]@);
                assert(kv[i as int] == keys@[i as int]@);
            }
            k = k + 1;
        }
        proof {
            lemma_text_insertion_point_suffix(kv, order@, i, k as int);
            let rest = order@.subrange(k as int, order@.len() as int);
            if k < order@.len() {
                assert(rest[0] == order@[k as int]);
                assert(kv[order@[k as int] as int] == keys@[order@[k as int] as int]@);
                assert(kv[i as int] == keys@[i as int]@);
            } else {
                assert(rest.len() == 0);
            }
            assert(text_insertion_point(kv, order@, i) == k);
        }
        let ghost old_order = order@;
        order.insert(k, i);
        proof {
            assert(order@ == text_order(kv, (i + 1) as nat));
            assert forall|j: int| 0 <= j < order@.len() implies #[trigger] order@[j] < i + 1 by {
                if j < k {
                    assert(order@[j] == old_order[j]);
                } else if j > k {
                    assert(order@[j] == old_order[j - 1]);
                }
            }
        }
        i = i + 1;
    }
    order
}

// ── The plan ─────────────────────────────────────────────────────────────

/// Whether a save copies the source part `name` through: it is not one the
/// save regenerates, not a macro project of a macro-free output, and not a
/// part that only deleted sheets led to.
pub open spec fn copied_through(name: Seq<char>, prunable: Seq<Seq<char>>, is_xlsm_output: bool) -> bool {
    &&& !writer_owned(name)
    &&& !(!is_xlsm_output && starts_with(name, "xl/vbaProject"@))
    &&& !prunable.contains(name)
}

/// The indices of the first `n` entries copied through, in the source's
/// order.
pub open spec fn kept_indices(
    es: Seq<(String, Vec<u8>)>,
    prunable: Seq<Seq<char>>,
    is_xlsm_output: bool,
    n: nat,
) -> Seq<usize>
    decreases n,
{
    if n == 0 {
        Seq::empty()
    } else {
        let k = kept_indices(es, prunable, is_xlsm_output, (n - 1) as nat);
        if copied_through(es[n - 1].0@, prunable, is_xlsm_output) {
            k.push((n - 1) as usize)
        } else {
            k
        }
    }
}

/// The indices of the entries copied through, ordered by part name.
pub open spec fn plan_order(es: Seq<(String, Vec<u8>)>, prunable: Seq<Seq<char>>, is_xlsm_output: bool) -> Seq<usize> {
    let kept = kept_indices(es, prunable, is_xlsm_output, es.len());
    text_order(kept.map_values(|i: usize| es[i as int].0@), kept.len()).map_values(|k: usize| kept[k as int])
}

/// The extension of a part name: what follows its last `.`, or the whole
/// name when it has none.
pub open spec fn extension_of(name: Seq<char>) -> Seq<char> {
    match last_index_of(name, '.') {
        Some(i) => name.subrange(i + 1, name.len() as int),
        None => name,
    }
}

/// The value of the first pair keyed `key`.
pub open spec fn first_value(pairs: Seq<(String, String)>, key: Seq<char>) -> Option<Seq<char>>
    decreases pairs.len(),
{
    if pairs.len() == 0 {
        None
    } else if pairs[0].0@ == key {
        Some(pairs[0].1@)
    } else {
        first_value(pairs.drop_first(), key)
    }
}

/// The content type declared for a part copied through: the source's
/// `Override` for `/name`; else, for an extension other than `xml` and
/// `rels` (which the writer's own defaults cover), the source's `Default`
/// for the extension; else, for a macro project part, the macro project
/// type; else none.
pub open spec fn declared_type(
    name: Seq<char>,
    defaults: Seq<(String, String)>,
    overrides: Seq<(String, String)>,
) -> Option<Seq<char>> {
    match first_value(overrides, "/"@ + name) {
        Some(t) => Some(t),
        None => {
            let ext = extension_of(name);
            let by_default = if ext == "xml"@ || ext == "rels"@ {
                None
            } else {
                first_value(defaults, ext)
            };
            match by_default {
                Some(t) => Some(t),
                None => if starts_with(name, "xl/vbaProject"@) {
                    Some("application/vnd.ms-office.vbaProject"@)
                } else {
                    None
                },
            }
        },
    }
}

/// The `(/name, type)` content-type overrides of the listed entries that
/// have a declared type, in order.
pub open spec fn declared_types(
    es: Seq<(String, Vec<u8>)>,
    idxs: Seq<usize>,
    defaults: Seq<(String, String)>,
    overrides: Seq<(String, String)>,
) -> Seq<(Seq<char>, Seq<char>)>
    decreases idxs.len(),
{
    if idxs.len() == 0 {
        Seq::empty()
    } else {
        let rest = declared_types(es, idxs.drop_last(), defaults, overrides);
        let name = es[idxs.last() as int].0@;
        match declared_type(name, defaults, overrides) {
            Some(t) => rest.push(("/"@ + name, t)),
            None => rest,
        }
    }
}

pub open spec fn entries_view(es: Seq<(String, Vec<u8>)>) -> Seq<(Seq<char>, Seq<u8>)> {
    es.map_values(|e: (String, Vec<u8>)| (e.0@, e.1@))
}

/// The parts a save copies through, by name, and the content-type
/// overrides it declares for them.
pub struct PassthroughPlan {
    pub parts: Vec<(String, Vec<u8>)>,
    pub content_types: Vec<(String, String)>,
}

fn first_value_exec(pairs: &[(String, String)], key: &Vec<char>) -> (r: Option<Vec<char>>)
    ensures
        match r {
            Some(v) => first_value(pairs@, key@) == Some(v@),
            None => first_value(pairs@, key@) is None,
        },
{
    let mut i: usize = 0;
    proof {
        assert(pairs@.subrange(0, pairs@.len() as int) =~= pairs@);
    }
    while i < pairs.len()
        invariant
            0 <= i <= pairs@.len(),
            first_value(pairs@, key@) == first_value(pairs@.subrange(i as int, pairs@.len() as int), key@),
        decreases pairs@.len() - i,
    {
        proof {
            let rest = pairs@.subrange(i as int, pairs@.len() as int);
            assert(rest[0] == pairs@[i as int]);
            assert(rest.drop_first() =~= pairs@.subrange(i + 1, pairs@.len() as int));
        }
        if chars_eq(&string_chars(&pairs[i].0), key) {
            return Some(string_chars(&pairs[i].1));
        }
        i = i + 1;
    }
    None
}

fn declared_type_exec(name: &Vec<char>, defaults: &[(String, String)], overrides: &[(String, String)]) -> (r: Option<Vec<char>>)
    ensures
        match r {
            Some(v) => declared_type(name@, defaults@, overrides@) == Some(v@),
            None => declared_type(name@, defaults@, overrides@) is None,
        },
{
    let mut part: Vec<char> = str_chars("/");
    push_all(&mut part, name);
    match first_value_exec(overrides, &part) {
        Some(t) => {
            return Some(t);
        },
        None => {},
    }
    let li = last_index_of_exec(name, '.');
    let n = name.len();
    let ext = match li {
        Some(i) => {
            assert(i < n);
            slice_chars(name, i + 1, n)
        },
        None => slice_chars(name, 0, name.len()),
    };
    proof {
        assert(name@.subrange(0, name@.len() as int) =~= name@);
    }
    let by_default = if chars_eq(&ext, &str_chars("xml")) || chars_eq(&ext, &str_chars("rels")) {
        None
    } else {
        first_value_exec(defaults, &ext)
    };
    match by_default {
        Some(t) => Some(t),
        None => if has_prefix(name, "xl/vbaProject") {
            Some(str_chars("application/vnd.ms-office.vbaProject"))
        } else {
            None
        },
    }
}

fn clone_bytes(b: &Vec<u8>) -> (r: Vec<u8>)
    ensures
        r@ == b@,
{
    let r = b.clone();
    proof {
        assert(r@ =~= b@);
    }
    r
}

/// What a save copies through from its source package (`raw_entries`,
/// each part's name and bytes): every part except those it regenerates
/// itself, a macro project when the output is not macro-enabled, and the
/// `prunable` parts of deleted sheets, ordered by name; with, for each
/// part that has one, the content type it declares (the source's
/// `Override`, else its `Default` for the extension, else the macro
/// project type for a macro project part), also by name. `defaults` and
/// `overrides` are the source's `[Content_Types].xml` entries.
pub fn plan_passthrough(
    raw_entries: &[(String, Vec<u8>)],
    prunable: &[String],
    is_xlsm_output: bool,
    defaults: &[(String, String)],
    overrides: &[(String, String)],
) -> (r: PassthroughPlan)
    ensures
        entries_view(r.parts@) == plan_order(raw_entries@, names_view(prunable@), is_xlsm_output).map_values(
            |i: usize| (raw_entries@[i as int].0@, raw_entries@[i as int].1@),
        ),
        crate::package::pairs_view(r.content_types@) == declared_types(
            raw_entries@,
            plan_order(raw_entries@, names_view(prunable@), is_xlsm_output),
            defaults@,
            overrides@,
        ),
{
    let ghost es = raw_entries@;
    let ghost pr = names_view(prunable@);
    let mut kept: Vec<usize> = Vec::new();
    let mut kept_names: Vec<Vec<char>> = Vec::new();
    let mut i: usize = 0;
    while i < raw_entries.len()
        invariant
            0 <= i <= raw_entries@.len(),
            es == raw_entries@,
            pr == names_view(prunable@),
            kept@ == kept_indices(es, pr, is_xlsm_output, i as nat),
            chars_views(kept_names@) == kept@.map_values(|k: usize| es[k as int].0@),
            forall|j: int| 0 <= j < kept@.len() ==> #[trigger] kept@[j] < i,
        decreases raw_entries@.len() - i,
    {
        let name = string_chars(&raw_entries[i].0);
        let copy = !is_writer_owned_part(raw_entries[i].0.as_str()) && !(!is_xlsm_output && has_prefix(
            &name,
            "xl/vbaProject",
        )) && !crate::relgraph::contains_name(prunable, &raw_entries[i].0);
        if copy {
            let ghost kv = kept@;
            let ghost nv = kept_names@;
            let ghost nm = name@;
            kept.push(i);
            kept_names.push(name);
            proof {
                assert(nm == es[i as int].0@);
                assert(chars_views(kept_names@) =~= chars_views(nv).push(nm));
                assert(kept@.map_values(|k: usize| es[k as int].0@) =~= kv.map_values(|k: usize| es[k as int].0@).push(
                    es[i as int].0@,
                ));
            }
        }
        i = i + 1;
    }
    let order = order_by_text(&kept_names);
    let ghost plan = plan_order(es, pr, is_xlsm_output);
    proof {
        assert(plan == order@.map_values(|k: usize| kept@[k as int]));
    }
    let mut parts: Vec<(String, Vec<u8>)> = Vec::new();
    let mut types: Vec<(String, String)> = Vec::new();
    let mut k: usize = 0;
    proof {
        assert(entries_view(parts@) =~= plan.subrange(0, 0).map_values(
            |i: usize| (raw_entries@[i as int].0@, raw_entries@[i as int].1@),
        ));
        assert(plan.subrange(0, 0) =~= Seq::<usize>::empty());
        assert(crate::package::pairs_view(types@) =~= declared_types(es, plan.subrange(0, 0), defaults@, overrides@));
    }
    while k < order.len()
        invariant
            0 <= k <= order@.len(),
            es == raw_entries@,
            order@.len() == kept@.len(),
            forall|j: int| 0 <= j < order@.len() ==> #[trigger] order@[j] < kept@.len(),
            forall|j: int| 0 <= j < kept@.len() ==> #[trigger] kept@[j] < raw_entries@.len(),
            plan == order@.map_values(|x: usize| kept@[x as int]),
            entries_view(parts@) == plan.subrange(0, k as int).map_values(
                |i: usize| (raw_entries@[i as int].0@, raw_entries@[i as int].1@),
            ),
            crate::package::pairs_view(types@) == declared_types(es, plan.subrange(0, k as int), defaults@, overrides@),
        decreases order@.len() - k,
    {
        let idx = kept[order[k]];
        let ghost pre = plan.subrange(0, k + 1);
        proof {
            assert(plan[k as int] == idx);
            assert(pre.drop_last() =~= plan.subrange(0, k as int));
            assert(pre.last() == idx);
        }
        let e = &raw_entries[idx];
        let ghost before_parts = parts@;
        let item = (e.0.clone(), clone_bytes(&e.1));
        proof {
            assert(item.0@ == e.0@ && item.1@ == e.1@);
        }
        parts.push(item);
        proof {
            assert(entries_view(parts@) =~= entries_view(before_parts).push((e.0@, e.1@)));
            assert(plan.subrange(0, k + 1).map_values(|i: usize| (raw_entries@[i as int].0@, raw_entries@[i as int].1@))
                =~= plan.subrange(0, k as int).map_values(
                |i: usize| (raw_entries@[i as int].0@, raw_entries@[i as int].1@),
            ).push((e.0@, e.1@)));
        }
        let name = string_chars(&e.0);
        match declared_type_exec(&name, defaults, overrides) {
            Some(t) => {
                let mut part: Vec<char> = str_chars("/");
                push_all(&mut part, &name);
                let ghost before_types = types@;
                types.push((string_from_chars(&part), string_from_chars(&t)));
                proof {
                    assert(crate::package::pairs_view(types@) =~= crate::package::pairs_view(before_types).push(
                        ("/"@ + e.0@, t@),
                    ));
                }
            },
            None => {},
        }
        k = k + 1;
    }
    proof {
        assert(plan.subrange(0, plan.len() as int) =~= plan);
    }
    PassthroughPlan { parts, content_types: types }
}

/// Whether the output keeps a macro project: it is macro-enabled and the
/// source has a part under `xl/vbaProject`.
pub fn output_has_vba(raw_entries: &[(String, Vec<u8>)], is_xlsm_output: bool) -> (r: bool)
    ensures
        r == (is_xlsm_output && exists|i: int|
            0 <= i < raw_entries@.len() && starts_with(#[trigger] raw_entries@[i].0@, "xl/vbaProject"@)),
{
    if !is_xlsm_output {
        return false;
    }
    let mut i: usize = 0;
    while i < raw_entries.len()
        invariant
            0 <= i <= raw_entries@.len(),
            is_xlsm_output,
            forall|j: int| 0 <= j < i ==> !starts_with(#[trigger] raw_entries@[j].0@, "xl/vbaProject"@),
        decreases raw_entries@.len() - i,
    {
        if has_prefix(&string_chars(&raw_entries[i].0), "xl/vbaProject") {
            proof {
                let w = i as int;
                assert(starts_with(raw_entries@[w].0@, "xl/vbaProject"@));
                assert(0 <= w < raw_entries@.len());
            }
            return true;
        }
        i = i + 1;
    }
    false
}

/// The worksheet part numbers (`N` of `xl/worksheets/sheetN.xml`) present
/// in the source, in its order: a new sheet's part never takes one of them.
pub open spec fn part_numbers(es: Seq<(String, Vec<u8>)>) -> Seq<u32>
    decreases es.len(),
{
    if es.len() == 0 {
        Seq::empty()
    } else {
        let rest = part_numbers(es.drop_last());
        match sheet_part_number(es.last().0@) {
            Some(n) => rest.push(n),
            None => rest,
        }
    }
}

pub fn reserved_sheet_part_numbers(raw_entries: &[(String, Vec<u8>)]) -> (r: Vec<u32>)
    ensures
        r@ == part_numbers(raw_entries@),
{
    let mut out: Vec<u32> = Vec::new();
    let mut i: usize = 0;
    while i < raw_entries.len()
        invariant
            0 <= i <= raw_entries@.len(),
            out@ == part_numbers(raw_entries@.subrange(0, i as int)),
        decreases raw_entries@.len() - i,
    {
        proof {
            assert(raw_entries@.subrange(0, i + 1).drop_last() =~= raw_entries@.subrange(0, i as int));
        }
        match parse_sheet_part_number(raw_entries[i].0.as_str()) {
            Some(n) => out.push(n),
            None => {},
        }
        i = i + 1;
    }
    proof {
        assert(raw_entries@.subrange(0, raw_entries@.len() as int) =~= raw_entries@);
    }
    out
}

/// The relationships in the order of their targets; equal targets keep
/// their order.
pub open spec fn sorted_by_target(rels: Seq<(String, String)>) -> Seq<(Seq<char>, Seq<char>)> {
    text_order(rels.map_values(|p: (String, String)| p.1@), rels.len()).map_values(
        |i: usize| (rels[i as int].0@, rels[i as int].1@),
    )
}

/// The `(Type, Target)` relationships carried over, ordered by target, as
/// a save writes them.
pub fn sort_rels_by_target(rels: &Vec<(String, String)>) -> (r: Vec<(String, String)>)
    ensures
        crate::package::pairs_view(r@) == sorted_by_target(rels@),
{
    let mut targets: Vec<Vec<char>> = Vec::new();
    let mut i: usize = 0;
    while i < rels.len()
        invariant
            0 <= i <= rels@.len(),
            chars_views(targets@) == rels@.subrange(0, i as int).map_values(|p: (String, String)| p.1@),
        decreases rels@.len() - i,
    {
        let ghost before = targets@;
        targets.push(string_chars(&rels[i].1));
        proof {
            assert(chars_views(targets@) =~= chars_views(before).push(rels@[i as int].1@));
            assert(rels@.subrange(0, i + 1).map_values(|p: (String, String)| p.1@) =~= rels@.subrange(
                0,
                i as int,
            ).map_values(|p: (String, String)| p.1@).push(rels@[i as int].1@));
        }
        i = i + 1;
    }
    proof {
        assert(rels@.subrange(0, rels@.len() as int) =~= rels@);
    }
    let order = order_by_text(&targets);
    let ghost want = sorted_by_target(rels@);
    let mut out: Vec<(String, String)> = Vec::new();
    let mut k: usize = 0;
    proof {
        assert(crate::package::pairs_view(out@) =~= want.subrange(0, 0));
    }
    while k < order.len()
        invariant
            0 <= k <= order@.len(),
            order@.len() == rels@.len(),
            order@ == text_order(rels@.map_values(|p: (String, String)| p.1@), rels@.len()),
            forall|j: int| 0 <= j < order@.len() ==> #[trigger] order@[j] < rels@.len(),
            want == sorted_by_target(rels@),
            crate::package::pairs_view(out@) == want.subrange(0, k as int),
        decreases order@.len() - k,
    {
        let idx = order[k];
        let p = &rels[idx];
        let ghost before = out@;
        out.push((p.0.clone(), p.1.clone()));
        proof {
            assert(want.len() == order@.len());
            assert(want[k as int] == (rels@[idx as int].0@, rels@[idx as int].1@));
            assert(crate::package::pairs_view(out@) =~= crate::package::pairs_view(before).push(
                (rels@[idx as int].0@, rels@[idx as int].1@),
            ));
            assert(want.subrange(0, k + 1) =~= want.subrange(0, k as int).push(want[k as int]));
        }
        k = k + 1;
    }
    proof {
        assert(want.subrange(0, want.len() as int) =~= want);
    }
    out
}

// ── Shared strings ───────────────────────────────────────────────────────

/// The positions of the cells, as sort keys.
pub open spec fn value_keys(cs: Seq<((u32, u32), SavedCellValue)>) -> Seq<(u32, u32)> {
    cs.map_values(|c: ((u32, u32), SavedCellValue)| c.0)
}

/// The string values of the listed cells, in list order.
pub open spec fn strings_of(cs: Seq<((u32, u32), SavedCellValue)>, idxs: Seq<usize>) -> Seq<Seq<char>>
    decreases idxs.len(),
{
    if idxs.len() == 0 {
        Seq::empty()
    } else {
        let rest = strings_of(cs, idxs.drop_last());
        match cs[idxs.last() as int].1 {
            SavedCellValue::Str(s) => rest.push(s@),
            _ => rest,
        }
    }
}

/// The string values of the first `n` sheets, sheet by sheet, each sheet's
/// cells in row-then-column order.
pub open spec fn sheet_strings(sheets: Seq<Vec<((u32, u32), SavedCellValue)>>, n: nat) -> Seq<Seq<char>>
    decreases n,
{
    if n == 0 || n > sheets.len() {
        Seq::empty()
    } else {
        let cs = sheets[n - 1]@;
        sheet_strings(sheets, (n - 1) as nat) + strings_of(cs, key_order(value_keys(cs), cs.len()))
    }
}

/// The texts with each one's later repeats removed.
pub open spec fn first_occurrences(s: Seq<Seq<char>>) -> Seq<Seq<char>>
    decreases s.len(),
{
    if s.len() == 0 {
        Seq::empty()
    } else {
        let rest = first_occurrences(s.drop_last());
        if rest.contains(s.last()) {
            rest
        } else {
            rest.push(s.last())
        }
    }
}

/// Each shared string with its index.
pub open spec fn indexed_strings(s: Seq<Seq<char>>) -> Seq<(Seq<char>, usize)> {
    Seq::new(s.len(), |i: int| (s[i], i as usize))
}

pub open spec fn index_view(v: Seq<(String, usize)>) -> Seq<(Seq<char>, usize)> {
    v.map_values(|p: (String, usize)| (p.0@, p.1))
}

/// The shared-string table of a save, and the index of each string: every
/// string value of the sheets' cells (an error value is no string), sheet
/// by sheet in the order given, each sheet's cells in row-then-column
/// order, each text once, where it first occurs.
pub fn collect_shared_strings(sheets: &Vec<Vec<((u32, u32), SavedCellValue)>>) -> (r: (Vec<String>, Vec<(String, usize)>))
    ensures
        names_view(r.0@) == first_occurrences(sheet_strings(sheets@, sheets@.len())),
        index_view(r.1@) == indexed_strings(names_view(r.0@)),
{
    let mut shared: Vec<String> = Vec::new();
    let mut index: Vec<(String, usize)> = Vec::new();
    let mut n: usize = 0;
    proof {
        assert(names_view(shared@) =~= first_occurrences(sheet_strings(sheets@, 0)));
        assert(index_view(index@) =~= indexed_strings(names_view(shared@)));
    }
    while n < sheets.len()
        invariant
            0 <= n <= sheets@.len(),
            names_view(shared@) == first_occurrences(sheet_strings(sheets@, n as nat)),
            index_view(index@) == indexed_strings(names_view(shared@)),
        decreases sheets@.len() - n,
    {
        let cs = &sheets[n];
        let mut keys: Vec<(u32, u32)> = Vec::new();
        let mut i: usize = 0;
        while i < cs.len()
            invariant
                0 <= i <= cs@.len(),
                keys@ == value_keys(cs@.subrange(0, i as int)),
            decreases cs@.len() - i,
        {
            keys.push(cs[i].0);
            proof {
                assert(value_keys(cs@.subrange(0, i + 1)) =~= value_keys(cs@.subrange(0, i as int)).push(cs@[i as int].0));
            }
            i = i + 1;
        }
        proof {
            assert(cs@.subrange(0, cs@.len() as int) =~= cs@);
        }
        let order = order_by_key(&keys);
        let ghost base = sheet_strings(sheets@, n as nat);
        let mut k: usize = 0;
        proof {
            assert(order@.subrange(0, 0) =~= Seq::<usize>::empty());
            assert(base + strings_of(cs@, order@.subrange(0, 0)) =~= base);
        }
        while k < order.len()
            invariant
                0 <= k <= order@.len(),
                order@.len() == cs@.len(),
                forall|j: int| 0 <= j < order@.len() ==> #[trigger] order@[j] < cs@.len(),
                names_view(shared@) == first_occurrences(base + strings_of(cs@, order@.subrange(0, k as int))),
                index_view(index@) == indexed_strings(names_view(shared@)),
            decreases order@.len() - k,
        {
            let idx = order[k];
            let ghost pre = order@.subrange(0, k + 1);
            proof {
                assert(pre.drop_last() =~= order@.subrange(0, k as int));
                assert(pre.last() == idx);
            }
            match &cs[idx].1 {
                SavedCellValue::Str(s) => {
                    let ghost before = base + strings_of(cs@, order@.subrange(0, k as int));
                    proof {
                        assert(base + strings_of(cs@, pre) =~= before.push(s@));
                        assert((before.push(s@)).drop_last() =~= before);
                    }
                    if !crate::relgraph::contains_name(shared.as_slice(), s) {
                        let ghost old_shared = shared@;
                        let ghost old_index = index@;
                        let pos = shared.len();
                        shared.push(s.clone());
                        index.push((s.clone(), pos));
                        proof {
                            assert(names_view(shared@) =~= names_view(old_shared).push(s@));
                            assert(index_view(index@) =~= index_view(old_index).push((s@, pos)));
                            assert(index_view(index@) =~= indexed_strings(names_view(shared@)));
                        }
                    }
                },
                _ => {
                    proof {
                        assert(base + strings_of(cs@, pre) =~= base + strings_of(cs@, order@.subrange(0, k as int)));
                    }
                },
            }
            k = k + 1;
        }
        proof {
            assert(order@.subrange(0, order@.len() as int) =~= order@);
            assert(sheet_strings(sheets@, (n + 1) as nat) == base + strings_of(cs@, key_order(value_keys(cs@), cs@.len())));
        }
        n = n + 1;
    }
    (shared, index)
}

/// Whether a save carries the source's `<definedNames>` over: only when
/// every sheet the workbook was read with is still written (a deleted
/// sheet shifts every later `localSheetId`) and no sheet was moved or
/// renamed since (`names_may_be_stale`).
pub fn keeps_defined_names(original_keys: &[String], sheet_order: &[String], names_may_be_stale: bool) -> (r: bool)
    ensures
        r == (!names_may_be_stale && forall|i: int|
            0 <= i < original_keys@.len() ==> names_view(sheet_order@).contains(#[trigger] original_keys@[i]@)),
{
    if names_may_be_stale {
        return false;
    }
    let mut i: usize = 0;
    while i < original_keys.len()
        invariant
            0 <= i <= original_keys@.len(),
            forall|j: int| 0 <= j < i ==> names_view(sheet_order@).contains(#[trigger] original_keys@[j]@),
        decreases original_keys@.len() - i,
    {
        if !crate::relgraph::contains_name(sheet_order, &original_keys[i]) {
            return false;
        }
        i = i + 1;
    }
    true
}

} // verus!
