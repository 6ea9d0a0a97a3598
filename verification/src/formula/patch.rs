//! Splicing replacement texts into char spans of a formula, and the ordering
//! facts that make a list of span patches safe to splice.

use vstd::prelude::*;
use crate::text::{push_all, slice_chars};
use super::grammar::{ref_begin, ref_end, ref_spans_ordered, refs_ordered, RefV};

verus! {

/// A replacement of the chars `[start, end)` by `text`.
pub struct Patch {
    pub start: usize,
    pub end: usize,
    pub text: Vec<char>,
}

pub type PatchV = (int, int, Seq<char>);

impl Patch {
    pub open spec fn view(&self) -> PatchV {
        (self.start as int, self.end as int, self.text@)
    }
}

pub open spec fn view_patches(ps: Seq<Patch>) -> Seq<PatchV> {
    ps.map_values(|p: Patch| p.view())
}

/// The patches are in text order, do not overlap, and lie within `[lo, hi]`.
pub open spec fn patches_within(ps: Seq<PatchV>, lo: int, hi: int) -> bool {
    &&& forall|i: int| 0 <= i < ps.len() ==> lo <= (#[trigger] ps[i]).0 <= ps[i].1 <= hi
    &&& forall|i: int, j: int| 0 <= i < j < ps.len() ==> (#[trigger] ps[i]).1 <= (#[trigger] ps[j]).0
}

/// `input` with each patch's span replaced by its text, starting to copy at
/// `cursor`.
pub open spec fn splice_from(input: Seq<char>, ps: Seq<PatchV>, cursor: int) -> Seq<char>
    decreases ps.len(),
{
    if ps.len() == 0 {
        input.subrange(cursor, input.len() as int)
    } else {
        input.subrange(cursor, ps[0].0) + ps[0].2 + splice_from(
            input,
            ps.subrange(1, ps.len() as int),
            ps[0].1,
        )
    }
}

/// `input` with each patch's span replaced by its text.
pub open spec fn splice(input: Seq<char>, ps: Seq<PatchV>) -> Seq<char> {
    splice_from(input, ps, 0)
}

/// The patches of every reference, in order.
pub open spec fn collect_patches(refs: Seq<RefV>, f: spec_fn(RefV) -> Seq<PatchV>) -> Seq<PatchV>
    decreases refs.len(),
{
    if refs.len() == 0 {
        Seq::empty()
    } else {
        collect_patches(refs.drop_last(), f) + f(refs.last())
    }
}

pub proof fn lemma_patches_concat(a: Seq<PatchV>, b: Seq<PatchV>, lo: int, mid: int, hi: int)
    requires
        patches_within(a, lo, mid),
        patches_within(b, mid, hi),
        lo <= mid <= hi,
    ensures
        patches_within(a + b, lo, hi),
{
    let c = a + b;
    assert forall|i: int, j: int| 0 <= i < j < c.len() implies (#[trigger] c[i]).1 <= (
    #[trigger] c[j]).0 by {
        if j < a.len() {
        } else if i >= a.len() {
            assert(c[i] == b[i - a.len()]);
            assert(c[j] == b[j - a.len()]);
        } else {
            assert(c[i] == a[i]);
            assert(c[j] == b[j - a.len()]);
        }
    }
    assert forall|i: int| 0 <= i < c.len() implies lo <= (#[trigger] c[i]).0 <= c[i].1 <= hi by {
        if i < a.len() {
            assert(c[i] == a[i]);
        } else {
            assert(c[i] == b[i - a.len()]);
        }
    }
}

pub proof fn lemma_patches_widen(a: Seq<PatchV>, lo: int, hi: int, lo2: int, hi2: int)
    requires
        patches_within(a, lo, hi),
        lo2 <= lo,
        hi <= hi2,
    ensures
        patches_within(a, lo2, hi2),
{
}

/// Per-reference patches that stay inside the reference's own text give
/// ordered patches for the whole reference list.
pub proof fn lemma_collect_patches_within(
    refs: Seq<RefV>,
    f: spec_fn(RefV) -> Seq<PatchV>,
    bound: int,
)
    requires
        refs_ordered(refs, bound),
        forall|r: RefV|
            ref_spans_ordered(r) ==> #[trigger] patches_within(f(r), ref_begin(r), ref_end(r)),
    ensures
        patches_within(collect_patches(refs, f), 0, bound),
    decreases refs.len(),
{
    if refs.len() > 0 {
        let init = refs.drop_last();
        let last = refs.last();
        let k = refs.len() - 1;
        assert(refs[k] == last);
        assert forall|i: int| 0 <= i < init.len() implies ref_end(#[trigger] init[i])
            <= ref_begin(last) by {
            assert(init[i] == refs[i]);
        }
        assert(refs_ordered(init, ref_begin(last))) by {
            assert forall|i: int, j: int| 0 <= i < j < init.len() implies ref_end(
                #[trigger] init[i],
            ) <= ref_begin(#[trigger] init[j]) by {
                assert(init[i] == refs[i]);
                assert(init[j] == refs[j]);
            }
            assert forall|i: int| 0 <= i < init.len() implies #[trigger] ref_spans_ordered(
                init[i],
            ) by {
                assert(init[i] == refs[i]);
            }
        }
        lemma_collect_patches_within(init, f, ref_begin(last));
        assert(ref_spans_ordered(refs[k]));
        assert(patches_within(f(last), ref_begin(last), ref_end(last)));
        assert(ref_begin(last) <= ref_end(last) <= bound);
        assert(ref_begin(last) >= 0) by {
            match last {
                RefV::Cell { span, sheet, .. } => {},
                RefV::Range { span, sheet, .. } => {},
            }
        }
        lemma_patches_widen(collect_patches(init, f), 0, ref_begin(last), 0, ref_begin(last));
        lemma_patches_concat(collect_patches(init, f), f(last), 0, ref_begin(last), bound);
    }
}

/// Splices non-overlapping, ordered patches (char-offset spans, half-open)
/// into `input`.
pub fn apply_patches(input: &Vec<char>, patches: &Vec<Patch>) -> (r: Vec<char>)
    requires
        patches_within(view_patches(patches@), 0, input@.len() as int),
    ensures
        r@ == splice(input@, view_patches(patches@)),
{
    let ghost vp = view_patches(patches@);
    let mut out: Vec<char> = Vec::new();
    let mut cursor: usize = 0;
    let mut k: usize = 0;
    proof {
        assert(vp.subrange(0, vp.len() as int) == vp);
    }
    while k < patches.len()
        invariant
            vp == view_patches(patches@),
            vp.len() == patches@.len(),
            patches_within(vp, 0, input@.len() as int),
            0 <= k <= patches@.len(),
            cursor <= input@.len(),
            k < patches@.len() ==> cursor <= vp[k as int].0,
            out@ + splice_from(input@, vp.subrange(k as int, vp.len() as int), cursor as int)
                == splice(input@, vp),
        decreases patches@.len() - k,
    {
        let p = &patches[k];
        let ghost rest = vp.subrange(k as int, vp.len() as int);
        proof {
            assert(rest[0] == vp[k as int]);
            assert(rest.subrange(1, rest.len() as int) == vp.subrange(k + 1, vp.len() as int));
            if k + 1 < vp.len() {
                assert(vp[k as int].1 <= vp[k + 1].0);
            }
        }
        let before = slice_chars(input, cursor, p.start);
        let ghost out0 = out@;
        push_all(&mut out, &before);
        push_all(&mut out, &p.text);
        proof {
            assert(out@ == out0 + input@.subrange(cursor as int, p.start as int) + p.text@);
            assert(out@ + splice_from(input@, vp.subrange(k + 1, vp.len() as int), p.end as int)
                =~= out0 + splice_from(input@, rest, cursor as int));
        }
        cursor = p.end;
        k = k + 1;
    }
    let tail = slice_chars(input, cursor, input.len());
    let ghost out0 = out@;
    push_all(&mut out, &tail);
    proof {
        assert(vp.subrange(k as int, vp.len() as int).len() == 0);
    }
    out
}

} // verus!
