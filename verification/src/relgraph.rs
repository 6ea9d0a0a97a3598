//! The relationship graph of a source package, walked to find the parts
//! that belong only to sheets a save no longer writes.
//!
//! Each part's relationships live in its `.rels` sibling
//! (`xl/worksheets/sheet1.xml` -> `xl/worksheets/_rels/sheet1.xml.rels`).
//! The `(Type, Target)` pairs of every relationships part come in already
//! parsed, one list per package entry.

use vstd::prelude::*;
use crate::package::{
    normalize_part_path, normalized_part_path, pairs_view, part_rels_name, rels_dir_of,
    rels_name_of, rels_target_dir, WorksheetOrigin,
};
use crate::text::{push_all, str_chars, string_chars, string_from_chars};

verus! {

/// One entry of a source package: its part name and, where it is a
/// relationships part whose bytes decode as text, the `(Type, Target)`
/// pairs that it declares (none for any other entry).
pub struct SourcePart {
    pub name: String,
    pub rels: Vec<(String, String)>,
}

/// The texts of a list of strings.
pub open spec fn names_view(v: Seq<String>) -> Seq<Seq<char>> {
    v.map_values(|s: String| s@)
}

/// Whether the package has an entry named `name`.
pub open spec fn has_part(ps: Seq<SourcePart>, name: Seq<char>) -> bool {
    exists|i: int| 0 <= i < ps.len() && #[trigger] ps[i].name@ == name
}

/// The pairs declared by the first entry named `name`; none where the
/// package has no such entry.
pub open spec fn decls_of(ps: Seq<SourcePart>, name: Seq<char>) -> Seq<(Seq<char>, Seq<char>)>
    decreases ps.len(),
{
    if ps.len() == 0 {
        Seq::empty()
    } else if ps[0].name@ == name {
        pairs_view(ps[0].rels@)
    } else {
        decls_of(ps.drop_first(), name)
    }
}

/// A target declared by the relationships part `rels_name`, resolved
/// against that part's directory.
pub open spec fn resolved_target(rels_name: Seq<char>, target: Seq<char>) -> Seq<char> {
    normalized_part_path(rels_dir_of(rels_name) + target)
}

/// The resolved targets that the relationships part `rels_name` declares,
/// in order.
pub open spec fn rel_targets(ps: Seq<SourcePart>, rels_name: Seq<char>) -> Seq<Seq<char>> {
    decls_of(ps, rels_name).map_values(|d: (Seq<char>, Seq<char>)| resolved_target(rels_name, d.1))
}

proof fn lemma_decls_of_suffix(ps: Seq<SourcePart>, name: Seq<char>, i: int)
    requires
        0 <= i < ps.len(),
    ensures
        decls_of(ps.subrange(i, ps.len() as int), name) == (if ps[i].name@ == name {
            pairs_view(ps[i].rels@)
        } else {
            decls_of(ps.subrange(i + 1, ps.len() as int), name)
        }),
{
    let s = ps.subrange(i, ps.len() as int);
    assert(s[0] == ps[i]);
    assert(s.drop_first() =~= ps.subrange(i + 1, ps.len() as int));
}

/// The index of the first entry named `name`.
fn find_part(parts: &[SourcePart], name: &String) -> (r: Option<usize>)
    ensures
        match r {
            Some(i) => {
                &&& i < parts@.len()
                &&& parts@[i as int].name@ == name@
                &&& has_part(parts@, name@)
                &&& decls_of(parts@, name@) == pairs_view(parts@[i as int].rels@)
            },
            None => !has_part(parts@, name@) && decls_of(parts@, name@) == Seq::<(Seq<char>, Seq<char>)>::empty(),
        },
{
    let mut i: usize = 0;
    proof {
        assert(parts@.subrange(0, parts@.len() as int) =~= parts@);
    }
    while i < parts.len()
        invariant
            0 <= i <= parts@.len(),
            forall|j: int| 0 <= j < i ==> parts@[j].name@ != name@,
            decls_of(parts@, name@) == decls_of(parts@.subrange(i as int, parts@.len() as int), name@),
        decreases parts@.len() - i,
    {
        proof {
            lemma_decls_of_suffix(parts@, name@, i as int);
        }
        if parts[i].name == *name {
            return Some(i);
        }
        i = i + 1;
    }
    proof {
        assert(parts@.subrange(i as int, parts@.len() as int).len() == 0);
    }
    None
}

/// Whether `name` is among `names`.
pub(crate) fn contains_name(names: &[String], name: &String) -> (r: bool)
    ensures
        r == names_view(names@).contains(name@),
{
    let mut i: usize = 0;
    while i < names.len()
        invariant
            0 <= i <= names@.len(),
            forall|j: int| 0 <= j < i ==> names@[j]@ != name@,
        decreases names@.len() - i,
    {
        if names[i] == *name {
            proof {
                assert(names_view(names@)[i as int] == name@);
            }
            return true;
        }
        i = i + 1;
    }
    proof {
        if names_view(names@).contains(name@) {
            let j = choose|j: int| 0 <= j < names_view(names@).len() && names_view(names@)[j] == name@;
            assert(names@[j]@ == name@);
        }
    }
    false
}

/// The targets that the relationships part `rels_name` declares, each
/// resolved against the part's directory (`xl/_rels/workbook.xml.rels`
/// declaring `worksheets/sheet1.xml` gives `xl/worksheets/sheet1.xml`);
/// none where the package has no such part. External targets are kept:
/// they name no entry of the package.
pub fn direct_rel_targets(parts: &[SourcePart], rels_name: &str) -> (r: Vec<String>)
    ensures
        names_view(r@) == rel_targets(parts@, rels_name@),
{
    let key = string_from_chars(&str_chars(rels_name));
    let mut out: Vec<String> = Vec::new();
    match find_part(parts, &key) {
        None => {
            proof {
                assert(names_view(out@) =~= rel_targets(parts@, rels_name@));
            }
            out
        },
        Some(idx) => {
            let base = string_chars(&rels_target_dir(rels_name));
            let decls = &parts[idx].rels;
            let ghost want = rel_targets(parts@, rels_name@);
            let mut k: usize = 0;
            while k < decls.len()
                invariant
                    0 <= k <= decls@.len(),
                    idx < parts@.len(),
                    decls == &parts@[idx as int].rels,
                    base@ == rels_dir_of(rels_name@),
                    want == pairs_view(decls@).map_values(
                        |d: (Seq<char>, Seq<char>)| resolved_target(rels_name@, d.1),
                    ),
                    out@.len() == k,
                    want.len() == decls@.len(),
                    names_view(out@) == want.subrange(0, k as int),
                decreases decls@.len() - k,
            {
                let mut joined: Vec<char> = Vec::new();
                push_all(&mut joined, &base);
                push_all(&mut joined, &string_chars(&decls[k].1));
                let j = string_from_chars(&joined);
                let t = normalize_part_path(j.as_str());
                let ghost before = out@;
                out.push(t);
                proof {
                    assert(pairs_view(decls@)[k as int].1 == decls@[k as int].1@);
                    assert(want[k as int] == resolved_target(rels_name@, decls@[k as int].1@));
                    assert(out@[k as int]@ == want[k as int]);
                    assert(names_view(out@) =~= want.subrange(0, k + 1)) by {
                        assert(forall|x: int| 0 <= x < k ==> out@[x] == before[x]);
                    }
                }
                k = k + 1;
            }
            proof {
                assert(want.subrange(0, decls@.len() as int) =~= want);
            }
            out
        },
    }
}

// ── Walking the graph ────────────────────────────────────────────────────

/// One step of the walk from `p` stays within `s`: `p`'s relationships part
/// is in `s`, and so is every target that part declares, unless excluded.
pub open spec fn step_within(ps: Seq<SourcePart>, s: Set<Seq<char>>, exclude: Set<Seq<char>>, p: Seq<char>) -> bool {
    &&& s.contains(rels_name_of(p))
    &&& forall|k: int|
        0 <= k < rel_targets(ps, rels_name_of(p)).len() && !exclude.contains(
            #[trigger] rel_targets(ps, rels_name_of(p))[k],
        ) ==> s.contains(rel_targets(ps, rels_name_of(p))[k])
}

/// Every member of `s` whose relationships part is in the package takes
/// one step of the walk within `s`.
pub open spec fn walk_closed(ps: Seq<SourcePart>, s: Set<Seq<char>>, exclude: Set<Seq<char>>) -> bool {
    forall|p: Seq<char>| #[trigger] s.contains(p) && has_part(ps, rels_name_of(p)) ==> step_within(ps, s, exclude, p)
}

/// Every root that is not excluded is in `s`.
pub open spec fn holds_roots(s: Set<Seq<char>>, roots: Seq<Seq<char>>, exclude: Set<Seq<char>>) -> bool {
    forall|i: int| 0 <= i < roots.len() && !exclude.contains(#[trigger] roots[i]) ==> s.contains(roots[i])
}

/// `x` is reached by the walk from `roots`: it lies in every set that holds
/// the roots and is closed under the walk.
pub open spec fn reached(ps: Seq<SourcePart>, roots: Seq<Seq<char>>, exclude: Set<Seq<char>>, x: Seq<char>) -> bool {
    forall|s: Set<Seq<char>>| #[trigger] walk_closed(ps, s, exclude) && holds_roots(s, roots, exclude) ==> s.contains(x)
}

/// No relationships part of the package has a relationships part of its
/// own (as in every package that Excel writes).
pub open spec fn rels_unnested(ps: Seq<SourcePart>) -> bool {
    forall|p: Seq<char>| #[trigger] has_part(ps, rels_name_of(p)) ==> !has_part(ps, rels_name_of(rels_name_of(p)))
}

/// The targets declared by the first `n` entries, in order.
spec fn targets_upto(ps: Seq<SourcePart>, n: int) -> Seq<Seq<char>>
    decreases n,
{
    if n <= 0 {
        Seq::empty()
    } else {
        targets_upto(ps, n - 1) + rel_targets(ps, ps[n - 1].name@)
    }
}

/// Every name that the walk can meet: the roots, the entries and their
/// declared targets.
spec fn walk_universe(ps: Seq<SourcePart>, roots: Seq<Seq<char>>) -> Set<Seq<char>> {
    (roots + ps.map_values(|p: SourcePart| p.name@) + targets_upto(ps, ps.len() as int)).to_set()
}

proof fn lemma_targets_upto_contains(ps: Seq<SourcePart>, n: int, i: int, k: int)
    requires
        0 <= i < n <= ps.len(),
        0 <= k < rel_targets(ps, ps[i].name@).len(),
    ensures
        targets_upto(ps, n).contains(rel_targets(ps, ps[i].name@)[k]),
    decreases n,
{
    let t = rel_targets(ps, ps[i].name@)[k];
    if i == n - 1 {
        let prev = targets_upto(ps, n - 1);
        assert(targets_upto(ps, n)[prev.len() + k] == t);
    } else {
        lemma_targets_upto_contains(ps, n - 1, i, k);
        let prev = targets_upto(ps, n - 1);
        let j = choose|j: int| 0 <= j < prev.len() && prev[j] == t;
        assert(targets_upto(ps, n)[j] == t);
    }
}

/// The walk meets only names of its universe.
proof fn lemma_in_universe(ps: Seq<SourcePart>, roots: Seq<Seq<char>>, name: Seq<char>, k: int)
    requires
        has_part(ps, name),
    ensures
        walk_universe(ps, roots).contains(name),
        0 <= k < rel_targets(ps, name).len() ==> walk_universe(ps, roots).contains(rel_targets(ps, name)[k]),
{
    let names = ps.map_values(|p: SourcePart| p.name@);
    let all = roots + names + targets_upto(ps, ps.len() as int);
    let i = choose|i: int| 0 <= i < ps.len() && #[trigger] ps[i].name@ == name;
    assert(all[roots.len() + i] == name);
    if 0 <= k < rel_targets(ps, name).len() {
        lemma_targets_upto_contains(ps, ps.len() as int, i, k);
        let tu = targets_upto(ps, ps.len() as int);
        let j = choose|j: int| 0 <= j < tu.len() && tu[j] == rel_targets(ps, name)[k];
        assert(all[roots.len() + names.len() + j] == rel_targets(ps, name)[k]);
    }
}

proof fn lemma_root_in_universe(ps: Seq<SourcePart>, roots: Seq<Seq<char>>, i: int)
    requires
        0 <= i < roots.len(),
    ensures
        walk_universe(ps, roots).contains(roots[i]),
{
    let all = roots + ps.map_values(|p: SourcePart| p.name@) + targets_upto(ps, ps.len() as int);
    assert(all[i] == roots[i]);
}

/// A list without repeats, all of whose items lie in a finite set, is no
/// longer than the set is large.
proof fn lemma_distinct_within(v: Seq<Seq<char>>, u: Set<Seq<char>>)
    requires
        v.no_duplicates(),
        u.finite(),
        forall|x: Seq<char>| v.contains(x) ==> u.contains(x),
    ensures
        v.len() <= u.len(),
{
    v.unique_seq_to_set();
    assert(v.to_set().subset_of(u));
    vstd::set_lib::lemma_len_subset(v.to_set(), u);
}

/// `x` is the relationships part of some part and is in the package.
pub open spec fn owned_rels_part(ps: Seq<SourcePart>, x: Seq<char>) -> bool {
    has_part(ps, x) && exists|p: Seq<char>| rels_name_of(p) == x
}

proof fn lemma_names_push(v: Seq<String>, s: String)
    ensures
        names_view(v.push(s)) == names_view(v).push(s@),
        forall|x: Seq<char>| #[trigger] names_view(v.push(s)).contains(x) <==> (names_view(v).contains(x) || x == s@),
        names_view(v.push(s)).contains(s@),
        names_view(v).no_duplicates() && !names_view(v).contains(s@) ==> names_view(v.push(s)).no_duplicates(),
{
    let a = names_view(v);
    let b = names_view(v.push(s));
    assert(b =~= a.push(s@));
    assert forall|x: Seq<char>| b.contains(x) <==> (a.contains(x) || x == s@) by {
        if b.contains(x) {
            let j = choose|j: int| 0 <= j < b.len() && b[j] == x;
            if j < a.len() {
                assert(a[j] == x);
            }
        }
        if a.contains(x) {
            let j = choose|j: int| 0 <= j < a.len() && a[j] == x;
            assert(b[j] == x);
        }
        if x == s@ {
            assert(b[a.len() as int] == x);
        }
    }
}

proof fn lemma_names_pop(v: Seq<String>)
    requires
        v.len() > 0,
    ensures
        forall|x: Seq<char>| names_view(v).contains(x) ==> names_view(v.subrange(0, v.len() - 1)).contains(x) || x == v[v.len() - 1]@,
        forall|x: Seq<char>| names_view(v.subrange(0, v.len() - 1)).contains(x) ==> names_view(v).contains(x),
{
    let a = names_view(v);
    let b = names_view(v.subrange(0, v.len() - 1));
    assert forall|x: Seq<char>| a.contains(x) implies b.contains(x) || x == v[v.len() - 1]@ by {
        let j = choose|j: int| 0 <= j < a.len() && a[j] == x;
        if j < v.len() - 1 {
            assert(b[j] == x);
        }
    }
    assert forall|x: Seq<char>| b.contains(x) implies a.contains(x) by {
        let j = choose|j: int| 0 <= j < b.len() && b[j] == x;
        assert(a[j] == x);
    }
}

/// A reached part's relationships part is reached.
proof fn lemma_rels_reached(ps: Seq<SourcePart>, roots: Seq<Seq<char>>, exclude: Set<Seq<char>>, p: Seq<char>)
    requires
        reached(ps, roots, exclude, p),
        has_part(ps, rels_name_of(p)),
    ensures
        reached(ps, roots, exclude, rels_name_of(p)),
{
    assert forall|s: Set<Seq<char>>| #[trigger] walk_closed(ps, s, exclude) && holds_roots(s, roots, exclude) implies s.contains(
        rels_name_of(p),
    ) by {
        assert(s.contains(p));
    }
}

/// A target that a reached part's relationships part declares is reached,
/// unless excluded.
proof fn lemma_target_reached(ps: Seq<SourcePart>, roots: Seq<Seq<char>>, exclude: Set<Seq<char>>, p: Seq<char>, k: int)
    requires
        reached(ps, roots, exclude, p),
        has_part(ps, rels_name_of(p)),
        0 <= k < rel_targets(ps, rels_name_of(p)).len(),
        !exclude.contains(rel_targets(ps, rels_name_of(p))[k]),
    ensures
        reached(ps, roots, exclude, rel_targets(ps, rels_name_of(p))[k]),
{
    assert forall|s: Set<Seq<char>>| #[trigger] walk_closed(ps, s, exclude) && holds_roots(s, roots, exclude) implies s.contains(
        rel_targets(ps, rels_name_of(p))[k],
    ) by {
        assert(s.contains(p));
        assert(step_within(ps, s, exclude, p));
    }
}

/// A root that is not excluded is reached.
proof fn lemma_root_reached(ps: Seq<SourcePart>, roots: Seq<Seq<char>>, exclude: Set<Seq<char>>, i: int)
    requires
        0 <= i < roots.len(),
        !exclude.contains(roots[i]),
    ensures
        reached(ps, roots, exclude, roots[i]),
{
    assert forall|s: Set<Seq<char>>| #[trigger] walk_closed(ps, s, exclude) && holds_roots(s, roots, exclude) implies s.contains(
        roots[i],
    ) by {
    }
}

/// Adding a reached name of the universe, not yet listed, keeps the list
/// of met names sound, free of repeats and within the universe's size.
proof fn lemma_push_sound(
    ps: Seq<SourcePart>,
    rv: Seq<Seq<char>>,
    ex: Set<Seq<char>>,
    univ: Set<Seq<char>>,
    v: Seq<String>,
    s: String,
)
    requires
        forall|x: Seq<char>| #[trigger] names_view(v).contains(x) ==> reached(ps, rv, ex, x) && univ.contains(x),
        reached(ps, rv, ex, s@),
        univ.contains(s@),
        univ.finite(),
        names_view(v).no_duplicates(),
        !names_view(v).contains(s@),
    ensures
        forall|x: Seq<char>| #[trigger]
            names_view(v.push(s)).contains(x) ==> reached(ps, rv, ex, x) && univ.contains(x),
        names_view(v.push(s)).no_duplicates(),
        v.push(s).len() <= univ.len(),
        names_view(v).to_set().subset_of(names_view(v.push(s)).to_set()),
        forall|x: Seq<char>| #[trigger] names_view(v.push(s)).contains(x) <==> (names_view(v).contains(x) || x == s@),
        names_view(v.push(s)).contains(s@),
{
    lemma_names_push(v, s);
    assert forall|x: Seq<char>| #[trigger] names_view(v.push(s)).contains(x) implies reached(ps, rv, ex, x) && univ.contains(
        x,
    ) by {
        if x != s@ {
            assert(names_view(v).contains(x));
        }
    }
    lemma_distinct_within(names_view(v.push(s)), univ);
}

proof fn lemma_step_mono(ps: Seq<SourcePart>, s1: Set<Seq<char>>, s2: Set<Seq<char>>, ex: Set<Seq<char>>, p: Seq<char>)
    requires
        step_within(ps, s1, ex, p),
        s1.subset_of(s2),
    ensures
        step_within(ps, s2, ex, p),
{
}

proof fn lemma_roots_mono(s1: Set<Seq<char>>, s2: Set<Seq<char>>, rv: Seq<Seq<char>>, ex: Set<Seq<char>>)
    requires
        holds_roots(s1, rv, ex),
        s1.subset_of(s2),
    ensures
        holds_roots(s2, rv, ex),
{
}

/// What the walk keeps true of the names met (`seen`), those still to
/// expand (`queue`) and those expanded (`done`), apart from `cur`, the part
/// being expanded.
spec fn walk_state(
    ps: Seq<SourcePart>,
    rv: Seq<Seq<char>>,
    ex: Set<Seq<char>>,
    seen: Seq<String>,
    queue: Seq<String>,
    done: Set<Seq<char>>,
    cur: Option<Seq<char>>,
) -> bool {
    &&& forall|j: int| 0 <= j < queue.len() ==> names_view(seen).contains(#[trigger] queue[j]@)
    &&& holds_roots(names_view(seen).to_set(), rv, ex)
    &&& forall|x: Seq<char>| #[trigger]
        names_view(seen).contains(x) ==> names_view(queue).contains(x) || done.contains(x) || owned_rels_part(ps, x)
            || cur == Some(x)
    &&& forall|p: Seq<char>| #[trigger]
        done.contains(p) ==> (has_part(ps, rels_name_of(p)) ==> step_within(ps, names_view(seen).to_set(), ex, p))
}

/// Listing `s` as met, and queueing it where `queued`, keeps the walk's
/// state when `s` is queued or is a relationships part in the package.
proof fn lemma_state_push(
    ps: Seq<SourcePart>,
    rv: Seq<Seq<char>>,
    ex: Set<Seq<char>>,
    seen: Seq<String>,
    queue: Seq<String>,
    done: Set<Seq<char>>,
    cur: Option<Seq<char>>,
    s: String,
    queued: bool,
)
    requires
        walk_state(ps, rv, ex, seen, queue, done, cur),
        queued || owned_rels_part(ps, s@),
    ensures
        walk_state(ps, rv, ex, seen.push(s), if queued { queue.push(s) } else { queue }, done, cur),
{
    let nq = if queued { queue.push(s) } else { queue };
    lemma_names_push(seen, s);
    lemma_names_push(queue, s);
    let s1 = names_view(seen).to_set();
    let s2 = names_view(seen.push(s)).to_set();
    assert(s1.subset_of(s2));
    lemma_roots_mono(s1, s2, rv, ex);
    assert forall|p: Seq<char>| #[trigger] done.contains(p) implies (has_part(ps, rels_name_of(p)) ==> step_within(
        ps,
        s2,
        ex,
        p,
    )) by {
        if has_part(ps, rels_name_of(p)) {
            lemma_step_mono(ps, s1, s2, ex, p);
        }
    }
    assert forall|j: int| 0 <= j < nq.len() implies names_view(seen.push(s)).contains(#[trigger] nq[j]@) by {
        if j < queue.len() {
            assert(nq[j] == queue[j]);
            assert(names_view(seen).contains(queue[j]@));
            assert(names_view(seen.push(s)).contains(queue[j]@));
        } else {
            assert(queued);
            assert(nq[j] == s);
            assert(names_view(seen.push(s)).contains(s@));
        }
    }
    assert forall|x: Seq<char>| #[trigger] names_view(seen.push(s)).contains(x) implies names_view(nq).contains(x)
        || done.contains(x) || owned_rels_part(ps, x) || cur == Some(x) by {
        if x != s@ {
            assert(names_view(seen).contains(x));
        }
    }
}

/// An excluded part that is no part's relationships part is never reached,
/// by whatever path: exclusion holds at every step of the walk, not only at
/// the roots.
pub proof fn law_excluded_part_never_reached(
    ps: Seq<SourcePart>,
    roots: Seq<Seq<char>>,
    exclude: Set<Seq<char>>,
    x: Seq<char>,
)
    requires
        exclude.contains(x),
        forall|p: Seq<char>| rels_name_of(p) != x,
    ensures
        !reached(ps, roots, exclude, x),
{
    let s = Set::new(|y: Seq<char>| y != x);
    assert(walk_closed(ps, s, exclude));
    assert(holds_roots(s, roots, exclude));
    assert(!s.contains(x));
}

/// Every part reached from `roots` by the walk through the package's
/// relationships: each root that is not excluded, and, from each part met,
/// its relationships part (where the package has one) and every target
/// that part declares, unless excluded. Exclusion applies at every step,
/// so an excluded part is never met through another path either.
///
/// Each part met is listed once. What is listed is always reached; where no
/// relationships part has one of its own, everything reached is listed.
pub fn reachable_closure(parts: &[SourcePart], roots: &[String], exclude: &[String]) -> (r: Vec<String>)
    ensures
        names_view(r@).no_duplicates(),
        holds_roots(names_view(r@).to_set(), names_view(roots@), names_view(exclude@).to_set()),
        forall|x: Seq<char>| #[trigger]
            names_view(r@).contains(x) ==> reached(parts@, names_view(roots@), names_view(exclude@).to_set(), x),
        rels_unnested(parts@) ==> walk_closed(parts@, names_view(r@).to_set(), names_view(exclude@).to_set()),
        rels_unnested(parts@) ==> forall|x: Seq<char>|
            reached(parts@, names_view(roots@), names_view(exclude@).to_set(), x) ==> #[trigger] names_view(r@).contains(x),
{
    let ghost ps = parts@;
    let ghost rv = names_view(roots@);
    let ghost ex = names_view(exclude@).to_set();
    let ghost univ = walk_universe(ps, rv);
    proof {
        vstd::seq_lib::seq_to_set_is_finite(rv + ps.map_values(|p: SourcePart| p.name@) + targets_upto(ps, ps.len() as int));
    }
    let mut seen: Vec<String> = Vec::new();
    let mut queue: Vec<String> = Vec::new();
    let mut i: usize = 0;
    while i < roots.len()
        invariant
            0 <= i <= roots@.len(),
            rv == names_view(roots@),
            ex == names_view(exclude@).to_set(),
            univ == walk_universe(ps, rv),
            ps == parts@,
            univ.finite(),
            seen@.len() <= univ.len(),
            names_view(seen@).no_duplicates(),
            queue@ == seen@,
            forall|j: int| 0 <= j < i && !ex.contains(rv[j]) ==> names_view(seen@).contains(#[trigger] rv[j]),
            forall|x: Seq<char>| #[trigger]
                names_view(seen@).contains(x) ==> reached(ps, rv, ex, x) && univ.contains(x),
        decreases roots@.len() - i,
    {
        let r = &roots[i];
        let skip = contains_name(exclude, r) || contains_name(seen.as_slice(), r);
        proof {
            assert(rv[i as int] == r@);
        }
        if !skip {
            let ghost old_seen = seen@;
            proof {
                lemma_root_reached(ps, rv, ex, i as int);
                lemma_root_in_universe(ps, rv, i as int);
                lemma_push_sound(ps, rv, ex, univ, seen@, *r);
            }
            seen.push(r.clone());
            queue.push(r.clone());
            proof {
                assert forall|j: int| 0 <= j <= i && !ex.contains(rv[j]) implies names_view(seen@).contains(
                    #[trigger] rv[j],
                ) by {
                    if j < i {
                        assert(names_view(old_seen).contains(rv[j]));
                    }
                }
            }
        }
        i = i + 1;
    }
    let ghost mut done: Set<Seq<char>> = Set::empty();
    proof {
        assert forall|j: int| 0 <= j < queue@.len() implies names_view(seen@).contains(#[trigger] queue@[j]@) by {
            assert(names_view(seen@)[j] == queue@[j]@);
        }
        assert forall|x: Seq<char>| #[trigger] names_view(seen@).contains(x) implies names_view(queue@).contains(x) by {
        }
        assert(holds_roots(names_view(seen@).to_set(), rv, ex));
        assert(walk_state(ps, rv, ex, seen@, queue@, done, None));
    }
    while queue.len() > 0
        invariant
            rv == names_view(roots@),
            ex == names_view(exclude@).to_set(),
            univ == walk_universe(ps, rv),
            ps == parts@,
            univ.finite(),
            seen@.len() <= univ.len(),
            names_view(seen@).no_duplicates(),
            forall|x: Seq<char>| #[trigger]
                names_view(seen@).contains(x) ==> reached(ps, rv, ex, x) && univ.contains(x),
            walk_state(ps, rv, ex, seen@, queue@, done, None),
        decreases 2 * (univ.len() - seen@.len()) + queue@.len(),
    {
        let ghost m0 = 2 * (univ.len() - seen@.len()) + queue@.len();
        let ghost q0 = queue@;
        proof {
            lemma_names_pop(q0);
        }
        let part = queue.pop().unwrap();
        let ghost pv = part@;
        proof {
            assert(pv == q0[q0.len() - 1]@);
            assert(names_view(seen@).contains(pv));
            assert forall|x: Seq<char>| #[trigger] names_view(seen@).contains(x) implies names_view(queue@).contains(x)
                || done.contains(x) || owned_rels_part(ps, x) || Some(pv) == Some(x) by {
                if names_view(q0).contains(x) {
                }
            }
            assert forall|j: int| 0 <= j < queue@.len() implies names_view(seen@).contains(#[trigger] queue@[j]@) by {
                assert(queue@[j] == q0[j]);
            }
            assert(walk_state(ps, rv, ex, seen@, queue@, done, Some(pv)));
        }
        let rels = part_rels_name(part.as_str());
        if find_part(parts, &rels).is_some() {
            proof {
                lemma_rels_reached(ps, rv, ex, pv);
                lemma_in_universe(ps, rv, rels@, 0);
            }
            if !contains_name(seen.as_slice(), &rels) {
                proof {
                    lemma_push_sound(ps, rv, ex, univ, seen@, rels);
                    lemma_state_push(ps, rv, ex, seen@, queue@, done, Some(pv), rels, false);
                }
                seen.push(rels.clone());
            }
            let targets = direct_rel_targets(parts, rels.as_str());
            let ghost tv = names_view(targets@);
            let mut k: usize = 0;
            while k < targets.len()
                invariant
                    rv == names_view(roots@),
                    ex == names_view(exclude@).to_set(),
                    univ == walk_universe(ps, rv),
                    ps == parts@,
                    univ.finite(),
                    seen@.len() <= univ.len(),
                    0 <= k <= targets@.len(),
                    tv == names_view(targets@),
                    tv == rel_targets(ps, rels_name_of(pv)),
                    rels@ == rels_name_of(pv),
                    has_part(ps, rels@),
                    reached(ps, rv, ex, pv),
                    2 * (univ.len() - seen@.len()) + queue@.len() < m0,
                    names_view(seen@).contains(rels@),
                    forall|j: int| 0 <= j < k && !ex.contains(tv[j]) ==> names_view(seen@).contains(#[trigger] tv[j]),
                    names_view(seen@).no_duplicates(),
                    forall|x: Seq<char>| #[trigger]
                        names_view(seen@).contains(x) ==> reached(ps, rv, ex, x) && univ.contains(x),
                    walk_state(ps, rv, ex, seen@, queue@, done, Some(pv)),
                decreases targets@.len() - k,
            {
                let t = &targets[k];
                let skip = contains_name(exclude, t) || contains_name(seen.as_slice(), t);
                proof {
                    assert(tv[k as int] == t@);
                }
                if !skip {
                    let ghost old_seen = seen@;
                    proof {
                        lemma_target_reached(ps, rv, ex, pv, k as int);
                        lemma_in_universe(ps, rv, rels@, k as int);
                        lemma_push_sound(ps, rv, ex, univ, seen@, *t);
                        lemma_state_push(ps, rv, ex, seen@, queue@, done, Some(pv), *t, true);
                    }
                    seen.push(t.clone());
                    queue.push(t.clone());
                    proof {
                        assert forall|j: int| 0 <= j <= k && !ex.contains(tv[j]) implies names_view(seen@).contains(
                            #[trigger] tv[j],
                        ) by {
                            if j < k {
                                assert(names_view(old_seen).contains(tv[j]));
                            }
                        }
                    }
                }
                k = k + 1;
            }
            proof {
                let s2 = names_view(seen@).to_set();
                assert(step_within(ps, s2, ex, pv));
            }
        }
        proof {
            let s2 = names_view(seen@).to_set();
            let d2 = done.insert(pv);
            assert forall|x: Seq<char>| #[trigger] names_view(seen@).contains(x) implies names_view(queue@).contains(x)
                || d2.contains(x) || owned_rels_part(ps, x) || None::<Seq<char>> == Some(x) by {
            }
            done = d2;
            assert(walk_state(ps, rv, ex, seen@, queue@, done, None));
        }
    }
    proof {
        if rels_unnested(ps) {
            assert forall|p: Seq<char>| #[trigger]
                names_view(seen@).to_set().contains(p) && has_part(ps, rels_name_of(p)) implies step_within(
                ps,
                names_view(seen@).to_set(),
                ex,
                p,
            ) by {
                assert(names_view(seen@).contains(p));
                if !done.contains(p) {
                    assert(owned_rels_part(ps, p));
                    let q = choose|q: Seq<char>| rels_name_of(q) == p;
                    assert(has_part(ps, rels_name_of(q)));
                }
            }
            assert(walk_closed(ps, names_view(seen@).to_set(), ex));
        }
    }
    seen
}

// ── Parts of deleted sheets ──────────────────────────────────────────────

/// The source part names of the worksheets whose key is (`kept`) or is not
/// (`!kept`) in `order`, in the order of `origins`.
pub open spec fn origin_parts(origins: Seq<(String, WorksheetOrigin)>, order: Seq<Seq<char>>, kept: bool) -> Seq<Seq<char>>
    decreases origins.len(),
{
    if origins.len() == 0 {
        Seq::empty()
    } else {
        let rest = origin_parts(origins.drop_last(), order, kept);
        let last = origins.last();
        match last.1.original_part_name {
            Some(n) => if order.contains(last.0@) == kept {
                rest.push(n@)
            } else {
                rest
            },
            None => rest,
        }
    }
}

/// Where the walk for what survives starts: the parts of the sheets still
/// written, and the targets of the workbook's and of the package's own
/// relationships parts.
pub open spec fn elsewhere_roots(
    ps: Seq<SourcePart>,
    origins: Seq<(String, WorksheetOrigin)>,
    order: Seq<Seq<char>>,
) -> Seq<Seq<char>> {
    origin_parts(origins, order, true) + rel_targets(ps, "xl/_rels/workbook.xml.rels"@) + rel_targets(
        ps,
        "_rels/.rels"@,
    )
}

/// The source part names of the worksheets whose key is (`kept`) or is not
/// (`!kept`) in `sheet_order`.
fn collect_origin_parts(origins: &Vec<(String, WorksheetOrigin)>, sheet_order: &[String], kept: bool) -> (r: Vec<String>)
    ensures
        names_view(r@) == origin_parts(origins@, names_view(sheet_order@), kept),
{
    let ghost order = names_view(sheet_order@);
    let mut out: Vec<String> = Vec::new();
    let mut i: usize = 0;
    while i < origins.len()
        invariant
            0 <= i <= origins@.len(),
            order == names_view(sheet_order@),
            names_view(out@) == origin_parts(origins@.subrange(0, i as int), order, kept),
        decreases origins@.len() - i,
    {
        let ghost before = out@;
        proof {
            assert(origins@.subrange(0, i + 1).drop_last() =~= origins@.subrange(0, i as int));
            assert(origins@.subrange(0, i + 1).last() == origins@[i as int]);
        }
        match &origins[i].1.original_part_name {
            Some(n) => {
                if contains_name(sheet_order, &origins[i].0) == kept {
                    proof {
                        lemma_names_push(before, *n);
                    }
                    out.push(n.clone());
                }
            },
            None => {},
        }
        i = i + 1;
    }
    proof {
        assert(origins@.subrange(0, origins@.len() as int) =~= origins@);
    }
    out
}

/// The parts of the source package that a save drops because only sheets
/// it no longer writes lead to them: reached from a deleted sheet's part
/// (its `.rels`, what that declares, and so on), not reached from anything
/// that survives (a sheet still written, or a target of
/// `xl/_rels/workbook.xml.rels` or `_rels/.rels`, without passing through a
/// deleted sheet's part), and present in the package. None when no sheet
/// was deleted. A part that a surviving sheet or the workbook also leads
/// to is kept, however many deleted sheets shared it.
pub fn deleted_sheet_prunable_parts(
    parts: &[SourcePart],
    worksheet_origins: &Vec<(String, WorksheetOrigin)>,
    sheet_order: &[String],
) -> (r: Vec<String>)
    ensures
        names_view(r@).no_duplicates(),
        origin_parts(worksheet_origins@, names_view(sheet_order@), false).len() == 0 ==> r@.len() == 0,
        forall|x: Seq<char>| #[trigger] names_view(r@).contains(x) ==> {
            &&& has_part(parts@, x)
            &&& reached(
                parts@,
                origin_parts(worksheet_origins@, names_view(sheet_order@), false),
                Set::empty(),
                x,
            )
            &&& !(elsewhere_roots(parts@, worksheet_origins@, names_view(sheet_order@)).contains(x)
                && !origin_parts(worksheet_origins@, names_view(sheet_order@), false).contains(x))
        },
        rels_unnested(parts@) ==> forall|x: Seq<char>| #[trigger]
            names_view(r@).contains(x) <==> {
                &&& has_part(parts@, x)
                &&& reached(
                    parts@,
                    origin_parts(worksheet_origins@, names_view(sheet_order@), false),
                    Set::empty(),
                    x,
                )
                &&& !reached(
                    parts@,
                    elsewhere_roots(parts@, worksheet_origins@, names_view(sheet_order@)),
                    origin_parts(worksheet_origins@, names_view(sheet_order@), false).to_set(),
                    x,
                )
            },
{
    let ghost ps = parts@;
    let ghost order = names_view(sheet_order@);
    let deleted = collect_origin_parts(worksheet_origins, sheet_order, false);
    let ghost dv = names_view(deleted@);
    if deleted.len() == 0 {
        proof {
            let none = Set::<Seq<char>>::empty();
            assert(walk_closed(ps, none, none));
            assert(holds_roots(none, dv, none));
            assert forall|x: Seq<char>| !reached(ps, dv, none, x) by {
                assert(!none.contains(x));
            }
        }
        return Vec::new();
    }
    let mut elsewhere = collect_origin_parts(worksheet_origins, sheet_order, true);
    let mut wb = direct_rel_targets(parts, "xl/_rels/workbook.xml.rels");
    let mut root = direct_rel_targets(parts, "_rels/.rels");
    let ghost e0 = elsewhere@;
    let ghost w0 = wb@;
    let ghost r0 = root@;
    elsewhere.append(&mut wb);
    elsewhere.append(&mut root);
    proof {
        assert(names_view(elsewhere@) =~= names_view(e0) + names_view(w0) + names_view(r0));
    }
    let ghost ev = names_view(elsewhere@);
    let reachable_elsewhere = reachable_closure(parts, elsewhere.as_slice(), deleted.as_slice());
    let nothing: Vec<String> = Vec::new();
    let from_deleted = reachable_closure(parts, deleted.as_slice(), nothing.as_slice());
    proof {
        assert(names_view(nothing@).to_set() =~= Set::<Seq<char>>::empty());
    }
    let ghost rd = names_view(from_deleted@);
    let ghost re = names_view(reachable_elsewhere@);
    let mut out: Vec<String> = Vec::new();
    let mut i: usize = 0;
    while i < from_deleted.len()
        invariant
            0 <= i <= from_deleted@.len(),
            rd == names_view(from_deleted@),
            re == names_view(reachable_elsewhere@),
            ps == parts@,
            rd.no_duplicates(),
            names_view(out@).no_duplicates(),
            forall|x: Seq<char>| #[trigger]
                names_view(out@).contains(x) <==> (exists|j: int| 0 <= j < i && rd[j] == x) && !re.contains(x) && has_part(
                    ps,
                    x,
                ),
        decreases from_deleted@.len() - i,
    {
        let x = &from_deleted[i];
        proof {
            assert(rd[i as int] == x@);
        }
        let keep = !contains_name(reachable_elsewhere.as_slice(), x) && find_part(parts, x).is_some();
        let ghost before = out@;
        if keep {
            proof {
                lemma_names_push(before, *x);
                assert(!names_view(before).contains(x@)) by {
                    if names_view(before).contains(x@) {
                        let j = choose|j: int| 0 <= j < i && rd[j] == x@;
                        assert(rd[j] == rd[i as int]);
                    }
                }
            }
            out.push(x.clone());
        }
        proof {
            if !keep {
                assert forall|y: Seq<char>| #[trigger]
                    names_view(out@).contains(y) <==> (exists|j: int| 0 <= j < i + 1 && rd[j] == y) && !re.contains(y)
                        && has_part(ps, y) by {
                    if (exists|j: int| 0 <= j < i + 1 && rd[j] == y) && !re.contains(y) && has_part(ps, y) {
                        let j = choose|j: int| 0 <= j < i + 1 && rd[j] == y;
                        if j < i {
                        }
                    }
                }
            } else {
                assert forall|y: Seq<char>| #[trigger]
                    names_view(out@).contains(y) <==> (exists|j: int| 0 <= j < i + 1 && rd[j] == y) && !re.contains(y)
                        && has_part(ps, y) by {
                    if (exists|j: int| 0 <= j < i + 1 && rd[j] == y) && !re.contains(y) && has_part(ps, y) {
                        let j = choose|j: int| 0 <= j < i + 1 && rd[j] == y;
                        if j < i {
                        }
                    }
                    if y == x@ {
                        assert(rd[i as int] == y);
                    }
                }
            }
        }
        i = i + 1;
    }
    proof {
        assert forall|x: Seq<char>| #[trigger] names_view(out@).contains(x) implies rd.contains(x) by {
            let j = choose|j: int| 0 <= j < rd.len() && rd[j] == x;
        }
        assert forall|x: Seq<char>| rd.contains(x) && !re.contains(x) && has_part(ps, x) implies #[trigger] names_view(
            out@,
        ).contains(x) by {
            let j = choose|j: int| 0 <= j < rd.len() && rd[j] == x;
        }
        assert forall|x: Seq<char>| #[trigger] names_view(out@).contains(x) implies !(ev.contains(x) && !dv.contains(x)) by {
            if ev.contains(x) && !dv.contains(x) {
                let j = choose|j: int| 0 <= j < ev.len() && ev[j] == x;
                assert(!dv.to_set().contains(ev[j]));
            }
        }
    }
    out
}

// ── Relationships carried over ───────────────────────────────────────────

/// The names of the parts copied through.
pub open spec fn passthrough_names(entries: Seq<(String, Vec<u8>)>) -> Seq<Seq<char>> {
    entries.map_values(|e: (String, Vec<u8>)| e.0@)
}

/// The declared `(Type, Target)` pairs kept, in order: those whose type is
/// not skipped and whose target, resolved against `base`, names a part in
/// `kept`.
pub open spec fn carried_decls(
    ds: Seq<(Seq<char>, Seq<char>)>,
    base: Seq<char>,
    kept: Seq<Seq<char>>,
    skip: Seq<Seq<char>>,
) -> Seq<(Seq<char>, Seq<char>)>
    decreases ds.len(),
{
    if ds.len() == 0 {
        Seq::empty()
    } else {
        let rest = carried_decls(ds.drop_last(), base, kept, skip);
        let d = ds.last();
        if !skip.contains(d.0) && kept.contains(normalized_part_path(base + d.1)) {
            rest.push(d)
        } else {
            rest
        }
    }
}

/// Whether `s` is among `items`.
fn contains_text(items: &[&str], s: &String) -> (r: bool)
    ensures
        r == items@.map_values(|t: &str| t@).contains(s@),
{
    let ghost iv = items@.map_values(|t: &str| t@);
    let sv = string_chars(s);
    let mut i: usize = 0;
    while i < items.len()
        invariant
            0 <= i <= items@.len(),
            iv == items@.map_values(|t: &str| t@),
            sv@ == s@,
            forall|j: int| 0 <= j < i ==> iv[j] != s@,
        decreases items@.len() - i,
    {
        if crate::text::chars_eq(&str_chars(items[i]), &sv) {
            proof {
                assert(iv[i as int] == s@);
            }
            return true;
        }
        proof {
            assert(iv[i as int] == items@[i as int]@);
        }
        i = i + 1;
    }
    false
}

/// Whether a part named `name` is copied through.
fn in_passthrough(passthrough: &[(String, Vec<u8>)], name: &String) -> (r: bool)
    ensures
        r == passthrough_names(passthrough@).contains(name@),
{
    let ghost pv = passthrough_names(passthrough@);
    let mut i: usize = 0;
    while i < passthrough.len()
        invariant
            0 <= i <= passthrough@.len(),
            pv == passthrough_names(passthrough@),
            forall|j: int| 0 <= j < i ==> pv[j] != name@,
        decreases passthrough@.len() - i,
    {
        if passthrough[i].0 == *name {
            proof {
                assert(pv[i as int] == name@);
            }
            return true;
        }
        proof {
            assert(pv[i as int] == passthrough@[i as int].0@);
        }
        i = i + 1;
    }
    false
}

/// The relationships of the source's part `rels_part` that a regenerated
/// copy of it must carry over: every `(Type, Target)` pair whose type is
/// not one the writer declares itself (`skip_types`) and whose target,
/// resolved against `target_base`, is a part copied through. None where the
/// source has no such part.
pub fn carry_over_rels(
    parts: &[SourcePart],
    rels_part: &str,
    target_base: &str,
    passthrough: &[(String, Vec<u8>)],
    skip_types: &[&str],
) -> (r: Vec<(String, String)>)
    ensures
        pairs_view(r@) == carried_decls(
            decls_of(parts@, rels_part@),
            target_base@,
            passthrough_names(passthrough@),
            skip_types@.map_values(|t: &str| t@),
        ),
{
    let ghost kept = passthrough_names(passthrough@);
    let ghost skip = skip_types@.map_values(|t: &str| t@);
    let key = string_from_chars(&str_chars(rels_part));
    let mut out: Vec<(String, String)> = Vec::new();
    match find_part(parts, &key) {
        None => {
            proof {
                assert(pairs_view(out@) =~= Seq::<(Seq<char>, Seq<char>)>::empty());
            }
            out
        },
        Some(idx) => {
            let base = str_chars(target_base);
            let decls = &parts[idx].rels;
            let ghost dv = pairs_view(decls@);
            let mut k: usize = 0;
            proof {
                assert(dv.subrange(0, 0) =~= Seq::<(Seq<char>, Seq<char>)>::empty());
            }
            while k < decls.len()
                invariant
                    0 <= k <= decls@.len(),
                    idx < parts@.len(),
                    decls == &parts@[idx as int].rels,
                    dv == pairs_view(decls@),
                    base@ == target_base@,
                    kept == passthrough_names(passthrough@),
                    skip == skip_types@.map_values(|t: &str| t@),
                    pairs_view(out@) == carried_decls(dv.subrange(0, k as int), target_base@, kept, skip),
                decreases decls@.len() - k,
            {
                let mut joined: Vec<char> = Vec::new();
                push_all(&mut joined, &base);
                push_all(&mut joined, &string_chars(&decls[k].1));
                let j = string_from_chars(&joined);
                let resolved = normalize_part_path(j.as_str());
                let take = !contains_text(skip_types, &decls[k].0) && in_passthrough(passthrough, &resolved);
                let ghost before = out@;
                proof {
                    assert(dv.subrange(0, k + 1).drop_last() =~= dv.subrange(0, k as int));
                    assert(dv.subrange(0, k + 1).last() == dv[k as int]);
                    assert(dv[k as int] == (decls@[k as int].0@, decls@[k as int].1@));
                }
                if take {
                    out.push((decls[k].0.clone(), decls[k].1.clone()));
                    proof {
                        assert(pairs_view(out@) =~= pairs_view(before).push(dv[k as int]));
                    }
                }
                k = k + 1;
            }
            proof {
                assert(dv.subrange(0, decls@.len() as int) =~= dv);
            }
            out
        },
    }
}

} // verus!
