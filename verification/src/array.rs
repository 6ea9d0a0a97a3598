//! Multi-dimensional VBA arrays: per-dimension bounds over a flat,
//! row-major element store (the first dimension varies slowest).

use vstd::prelude::*;
use crate::text::{push_str_chars, string_from_chars};
use crate::types::{bound_len, bound_len_fits, ArrayBound};

verus! {

/// The element ceiling of one array; a larger `Dim` fails as "Out of memory"
/// (VBA's Error 7) instead of trying to allocate it.
pub const MAX_ARRAY_ELEMENTS: usize = 10_000_000;

// ── The index arithmetic ─────────────────────────────────────────────────

/// Every dimension's length is computable in `i64`.
pub open spec fn bounds_len_fit(bs: Seq<ArrayBound>) -> bool {
    forall|i: int| 0 <= i < bs.len() ==> #[trigger] bound_len_fits(bs[i])
}

/// The number of elements spanned by the first `n` dimensions.
pub open spec fn prefix_count(bs: Seq<ArrayBound>, n: int) -> int
    decreases n,
{
    if n <= 0 {
        1
    } else {
        prefix_count(bs, n - 1) * bound_len(bs[n - 1])
    }
}

/// The number of elements of an array with bounds `bs`.
pub open spec fn element_count(bs: Seq<ArrayBound>) -> int {
    prefix_count(bs, bs.len() as int)
}

/// Every partial element count (over the first `k` dimensions) is at most
/// `cap`.
pub open spec fn counts_within(bs: Seq<ArrayBound>, cap: int) -> bool {
    forall|k: int| 0 <= k <= bs.len() ==> #[trigger] prefix_count(bs, k) <= cap
}

/// `x` lies within the dimension `b`.
pub open spec fn in_bound(b: ArrayBound, x: i64) -> bool {
    b.lower <= x <= b.upper
}

/// The first `k` subscripts each lie within their dimension.
pub open spec fn in_range_prefix(bs: Seq<ArrayBound>, ix: Seq<i64>, k: int) -> bool {
    forall|i: int| 0 <= i < k ==> #[trigger] in_bound(bs[i], ix[i])
}

/// One subscript per dimension, each within its bounds.
pub open spec fn subscripts_valid(bs: Seq<ArrayBound>, ix: Seq<i64>) -> bool {
    ix.len() == bs.len() && in_range_prefix(bs, ix, bs.len() as int)
}

/// The row-major position of the first `n` subscripts.
pub open spec fn linear_of(bs: Seq<ArrayBound>, ix: Seq<i64>, n: int) -> int
    decreases n,
{
    if n <= 0 {
        0
    } else {
        linear_of(bs, ix, n - 1) * bound_len(bs[n - 1]) + (ix[n - 1] - bs[n - 1].lower)
    }
}

/// The flat slot that `ix` addresses, or `None` when `ix` is not a valid
/// subscript list for `bs`.
pub open spec fn slot(bs: Seq<ArrayBound>, ix: Seq<i64>) -> Option<int> {
    if subscripts_valid(bs, ix) {
        Some(linear_of(bs, ix, bs.len() as int))
    } else {
        None
    }
}

/// What reading `ix` from elements `elems` gives.
pub open spec fn read<T>(bs: Seq<ArrayBound>, elems: Seq<T>, ix: Seq<i64>) -> Option<T> {
    match slot(bs, ix) {
        Some(i) => Some(elems[i]),
        None => None,
    }
}

/// The row-major computation of `ix` stays within `i64` while its
/// subscripts are in range, and the final position fits a `usize`.
pub open spec fn linear_index_fits(bs: Seq<ArrayBound>, ix: Seq<i64>) -> bool {
    ix.len() == bs.len() ==> {
        &&& forall|k: int|
            0 < k <= bs.len() && in_range_prefix(bs, ix, k) ==> #[trigger] linear_of(bs, ix, k)
                <= i64::MAX
        &&& in_range_prefix(bs, ix, bs.len() as int) ==> linear_of(bs, ix, bs.len() as int)
            <= usize::MAX
    }
}

/// The text of the subscript error (VBA's Error 9).
pub open spec fn subscript_error() -> Seq<char> {
    "Subscript out of range"@
}

/// In-range subscripts address a position before the partial count.
proof fn lemma_linear_bound(bs: Seq<ArrayBound>, ix: Seq<i64>, n: int)
    requires
        0 <= n <= bs.len(),
        n <= ix.len(),
        in_range_prefix(bs, ix, n),
    ensures
        0 <= linear_of(bs, ix, n) < prefix_count(bs, n),
    decreases n,
{
    if n > 0 {
        assert(in_bound(bs[n - 1], ix[n - 1]));
        lemma_linear_bound(bs, ix, n - 1);
        let a = linear_of(bs, ix, n - 1);
        let p = prefix_count(bs, n - 1);
        let l = bound_len(bs[n - 1]);
        let r = ix[n - 1] - bs[n - 1].lower;
        assert(0 <= r < l);
        assert(0 <= a * l + r < p * l) by (nonlinear_arith)
            requires
                0 <= a < p,
                0 <= r < l,
        ;
    }
}

/// Equal positions from in-range subscripts come from equal subscripts.
proof fn lemma_linear_injective(bs: Seq<ArrayBound>, ix: Seq<i64>, jx: Seq<i64>, n: int)
    requires
        0 <= n <= bs.len(),
        n <= ix.len(),
        n <= jx.len(),
        in_range_prefix(bs, ix, n),
        in_range_prefix(bs, jx, n),
        linear_of(bs, ix, n) == linear_of(bs, jx, n),
    ensures
        forall|i: int| 0 <= i < n ==> ix[i] == jx[i],
    decreases n,
{
    if n > 0 {
        assert(in_bound(bs[n - 1], ix[n - 1]));
        assert(in_bound(bs[n - 1], jx[n - 1]));
        lemma_linear_bound(bs, ix, n - 1);
        lemma_linear_bound(bs, jx, n - 1);
        let a = linear_of(bs, ix, n - 1);
        let b = linear_of(bs, jx, n - 1);
        let l = bound_len(bs[n - 1]);
        let r = ix[n - 1] - bs[n - 1].lower;
        let s = jx[n - 1] - bs[n - 1].lower;
        assert(a == b && r == s) by (nonlinear_arith)
            requires
                a >= 0,
                b >= 0,
                0 <= r < l,
                0 <= s < l,
                a * l + r == b * l + s,
        {
            if a < b {
                assert(a * l + l <= b * l);
            } else if b < a {
                assert(b * l + l <= a * l);
            }
        }
        lemma_linear_injective(bs, ix, jx, n - 1);
    }
}

/// Bounds whose partial counts fit `i64` and whose element count fits a
/// `usize` admit the row-major computation of every subscript list.
proof fn lemma_index_fits(bs: Seq<ArrayBound>, ix: Seq<i64>)
    requires
        counts_within(bs, i64::MAX as int),
        element_count(bs) <= usize::MAX,
    ensures
        linear_index_fits(bs, ix),
{
    if ix.len() == bs.len() {
        assert forall|k: int| 0 < k <= bs.len() && in_range_prefix(bs, ix, k) implies #[trigger] linear_of(
            bs,
            ix,
            k,
        ) <= i64::MAX by {
            lemma_linear_bound(bs, ix, k);
            assert(prefix_count(bs, k) <= i64::MAX);
        }
        if in_range_prefix(bs, ix, bs.len() as int) {
            lemma_linear_bound(bs, ix, bs.len() as int);
        }
    }
}

// ── Laws ─────────────────────────────────────────────────────────────────

/// Every valid subscript list addresses a slot inside the element store.
pub proof fn law_slot_in_bounds(bs: Seq<ArrayBound>, ix: Seq<i64>)
    requires
        subscripts_valid(bs, ix),
    ensures
        slot(bs, ix) matches Some(i) && 0 <= i < element_count(bs),
{
    lemma_linear_bound(bs, ix, bs.len() as int);
}

/// Two different valid subscript lists never share a slot.
pub proof fn law_distinct_subscripts_distinct_slots(bs: Seq<ArrayBound>, ix: Seq<i64>, jx: Seq<i64>)
    requires
        subscripts_valid(bs, ix),
        subscripts_valid(bs, jx),
        ix != jx,
    ensures
        slot(bs, ix) != slot(bs, jx),
{
    if linear_of(bs, ix, bs.len() as int) == linear_of(bs, jx, bs.len() as int) {
        lemma_linear_injective(bs, ix, jx, bs.len() as int);
        assert(ix =~= jx);
    }
}

/// Reading a subscript list after writing `v` at a valid `ix` gives `v` at
/// `ix` and what was there before everywhere else.
pub proof fn law_read_after_write<T>(
    bs: Seq<ArrayBound>,
    elems: Seq<T>,
    ix: Seq<i64>,
    jx: Seq<i64>,
    v: T,
)
    requires
        elems.len() == element_count(bs),
        subscripts_valid(bs, ix),
    ensures
        read(bs, elems.update(slot(bs, ix)->0, v), jx) == if ix == jx {
            Some(v)
        } else {
            read(bs, elems, jx)
        },
{
    law_slot_in_bounds(bs, ix);
    if subscripts_valid(bs, jx) {
        law_slot_in_bounds(bs, jx);
        if ix != jx {
            law_distinct_subscripts_distinct_slots(bs, ix, jx);
        }
    }
}

// ── The array ────────────────────────────────────────────────────────────

/// A real, possibly multi-dimensional VBA array: one bound per dimension and
/// the elements stored flat, row-major.
#[derive(Debug, Clone, PartialEq)]
pub struct VbaArray<T> {
    pub bounds: Vec<ArrayBound>,
    pub elements: Vec<T>,
}

/// The error raised when an array would be too large to allocate.
pub open spec fn out_of_memory() -> Seq<char> {
    "Out of memory"@
}

/// The error for an array declared without dimensions.
pub open spec fn no_dimension_error() -> Seq<char> {
    "array must have at least one dimension"@
}

fn text(s: &str) -> (r: String)
    ensures
        r@ == s@,
{
    let mut v: Vec<char> = Vec::new();
    push_str_chars(&mut v, s);
    string_from_chars(&v)
}

fn subscript_out_of_range() -> (r: String)
    ensures
        r@ == subscript_error(),
{
    text("Subscript out of range")
}

impl<T> VbaArray<T> {
    /// The bounds are well formed and the element store holds exactly one
    /// element per subscript list.
    pub open spec fn wf(&self) -> bool {
        &&& bounds_len_fit(self.bounds@)
        &&& counts_within(self.bounds@, i64::MAX as int)
        &&& self.elements@.len() == element_count(self.bounds@)
    }

    /// An array with the given per-dimension bounds, every element a clone of
    /// `empty`. Fails with "Out of memory" when the element count is too
    /// large: a dimension whose length `upper - lower + 1` does not fit an
    /// `i64`, or a running element count (dimension by dimension) above
    /// `MAX_ARRAY_ELEMENTS`. An array without dimensions is refused with its
    /// own error.
    pub fn new_zeroed(bounds: Vec<ArrayBound>, empty: T) -> (r: Result<VbaArray<T>, String>) where T: Clone
        ensures
            match r {
                Ok(a) => {
                    &&& bounds@.len() > 0
                    &&& bounds_len_fit(bounds@)
                    &&& counts_within(bounds@, MAX_ARRAY_ELEMENTS as int)
                    &&& a.bounds@ == bounds@
                    &&& a.wf()
                    &&& forall|i: int| 0 <= i < a.elements@.len() ==> cloned(empty, #[trigger] a.elements@[i])
                },
                Err(e) => if bounds@.len() == 0 {
                    e@ == no_dimension_error()
                } else {
                    &&& !(bounds_len_fit(bounds@) && counts_within(bounds@, MAX_ARRAY_ELEMENTS as int))
                    &&& e@ == out_of_memory()
                },
            },
    {
        if bounds.len() == 0 {
            return Err(text("array must have at least one dimension"));
        }
        let ghost bs = bounds@;
        let mut total: i64 = 1;
        let mut k: usize = 0;
        while k < bounds.len()
            invariant
                0 <= k <= bs.len(),
                bs == bounds@,
                forall|j: int| 0 <= j < k ==> #[trigger] bound_len_fits(bs[j]),
                total == prefix_count(bs, k as int),
                0 <= total <= MAX_ARRAY_ELEMENTS,
                forall|j: int| 0 <= j <= k ==> #[trigger] prefix_count(bs, j) <= MAX_ARRAY_ELEMENTS,
            decreases bs.len() - k,
        {
            let d: i128 = bounds[k].upper as i128 - bounds[k].lower as i128;
            if d < -0x8000_0000_0000_0000i128 || d + 1 > 0x7fff_ffff_ffff_ffffi128 {
                proof {
                    assert(!bound_len_fits(bs[k as int]));
                }
                return Err(text("Out of memory"));
            }
            let b: i128 = if d + 1 > 0 { d + 1 } else { 0 };
            proof {
                assert(bound_len_fits(bs[k as int]));
                assert(b == bound_len(bs[k as int]));
            }
            let a: i128 = total as i128;
            assert(0 <= a * b <= 10_000_000 * 0x7fff_ffff_ffff_ffff) by (nonlinear_arith)
                requires
                    0 <= a <= 10_000_000,
                    0 <= b <= 0x7fff_ffff_ffff_ffff,
            ;
            let t: i128 = a * b;
            if t > 10_000_000 {
                proof {
                    assert(prefix_count(bs, k + 1) == t);
                }
                return Err(text("Out of memory"));
            }
            total = t as i64;
            k = k + 1;
        }
        let n: usize = total as usize;
        let mut elements: Vec<T> = Vec::new();
        while elements.len() < n
            invariant
                elements@.len() <= n,
                forall|i: int| 0 <= i < elements@.len() ==> cloned(empty, #[trigger] elements@[i]),
            decreases n - elements@.len(),
        {
            let e = empty.clone();
            elements.push(e);
        }
        proof {
            assert forall|j: int| 0 <= j <= bs.len() implies #[trigger] prefix_count(bs, j) <= i64::MAX by {
                assert(prefix_count(bs, j) <= MAX_ARRAY_ELEMENTS);
            }
        }
        Ok(VbaArray { bounds, elements })
    }

    /// A 1-D, 0-based array holding `elements` (the shape of `Array(...)`
    /// and `Split(...)`).
    pub fn from_vec(elements: Vec<T>) -> (r: VbaArray<T>)
        requires
            elements@.len() <= i64::MAX,
        ensures
            r.wf(),
            r.elements@ == elements@,
            r.bounds@.len() == 1,
            r.bounds@[0].lower == 0,
            r.bounds@[0].upper == elements@.len() - 1,
    {
        let upper: i64 = elements.len() as i64 - 1;
        let mut bounds: Vec<ArrayBound> = Vec::new();
        bounds.push(ArrayBound { lower: 0, upper });
        let r = VbaArray { bounds, elements };
        proof {
            let bs = r.bounds@;
            assert(bound_len_fits(bs[0]));
            assert(prefix_count(bs, 0) == 1);
            assert(prefix_count(bs, 1) == prefix_count(bs, 0) * bound_len(bs[0]));
            assert(prefix_count(bs, 1) == r.elements@.len());
            assert forall|j: int| 0 <= j <= bs.len() implies #[trigger] prefix_count(bs, j) <= i64::MAX by {
                if j == 1 {
                    assert(prefix_count(bs, 1) == r.elements@.len());
                }
            }
        }
        r
    }

    /// The number of dimensions.
    pub fn rank(&self) -> (r: usize)
        ensures
            r == self.bounds@.len(),
    {
        self.bounds.len()
    }

    fn bound(&self, dimension: usize) -> (r: Result<ArrayBound, String>)
        ensures
            match r {
                Ok(b) => 1 <= dimension <= self.bounds@.len() && b == self.bounds@[dimension - 1],
                Err(e) => !(1 <= dimension <= self.bounds@.len()) && e@ == subscript_error(),
            },
    {
        if dimension == 0 || dimension > self.bounds.len() {
            return Err(subscript_out_of_range());
        }
        Ok(self.bounds[dimension - 1])
    }

    /// The lower bound of the 1-based `dimension` (VBA's `LBound(arr, n)`).
    pub fn lbound(&self, dimension: usize) -> (r: Result<i64, String>)
        ensures
            match r {
                Ok(v) => 1 <= dimension <= self.bounds@.len() && v == self.bounds@[dimension - 1].lower,
                Err(e) => !(1 <= dimension <= self.bounds@.len()) && e@ == subscript_error(),
            },
    {
        match self.bound(dimension) {
            Ok(b) => Ok(b.lower),
            Err(e) => Err(e),
        }
    }

    /// The upper bound of the 1-based `dimension` (VBA's `UBound(arr, n)`).
    pub fn ubound(&self, dimension: usize) -> (r: Result<i64, String>)
        ensures
            match r {
                Ok(v) => 1 <= dimension <= self.bounds@.len() && v == self.bounds@[dimension - 1].upper,
                Err(e) => !(1 <= dimension <= self.bounds@.len()) && e@ == subscript_error(),
            },
    {
        match self.bound(dimension) {
            Ok(b) => Ok(b.upper),
            Err(e) => Err(e),
        }
    }

    /// The flat index for `indices` (one per dimension, in `arr(i, j, ...)`
    /// order); "Subscript out of range" when the count differs from the
    /// rank or any index falls outside its dimension.
    pub fn linear_index(&self, indices: &[i64]) -> (r: Result<usize, String>)
        requires
            self.wf(),
        ensures
            match r {
                Ok(i) => slot(self.bounds@, indices@) == Some(i as int),
                Err(e) => slot(self.bounds@, indices@) is None && e@ == subscript_error(),
            },
    {
        proof {
            assert(self.elements@.len() == self.elements.len());
            lemma_index_fits(self.bounds@, indices@);
        }
        Self::linear_index_for(self.bounds.as_slice(), indices)
    }

    /// The same computation as `linear_index`, taking the bounds alone.
    pub fn linear_index_for(bounds: &[ArrayBound], indices: &[i64]) -> (r: Result<usize, String>)
        requires
            bounds_len_fit(bounds@),
            linear_index_fits(bounds@, indices@),
        ensures
            match r {
                Ok(i) => slot(bounds@, indices@) == Some(i as int),
                Err(e) => slot(bounds@, indices@) is None && e@ == subscript_error(),
            },
    {
        if indices.len() != bounds.len() {
            return Err(subscript_out_of_range());
        }
        let ghost bs = bounds@;
        let ghost ix = indices@;
        let mut idx: i64 = 0;
        let mut k: usize = 0;
        while k < indices.len()
            invariant
                bs == bounds@,
                ix == indices@,
                ix.len() == bs.len(),
                0 <= k <= ix.len(),
                bounds_len_fit(bs),
                linear_index_fits(bs, ix),
                in_range_prefix(bs, ix, k as int),
                idx == linear_of(bs, ix, k as int),
            decreases ix.len() - k,
        {
            let sub = indices[k];
            let bound = bounds[k];
            if sub < bound.lower || sub > bound.upper {
                proof {
                    assert(!in_bound(bs[k as int], ix[k as int]));
                }
                return Err(subscript_out_of_range());
            }
            proof {
                assert(bound_len_fits(bs[k as int]));
                assert(in_bound(bs[k as int], ix[k as int]));
                assert(in_range_prefix(bs, ix, k + 1));
                assert(linear_of(bs, ix, k + 1) <= i64::MAX);
                lemma_linear_bound(bs, ix, k as int);
                lemma_linear_bound(bs, ix, k + 1);
            }
            let len = bound.len();
            let off = sub - bound.lower;
            assert(0 <= idx * len <= idx * len + off) by (nonlinear_arith)
                requires
                    idx >= 0,
                    len >= 0,
                    off >= 0,
            ;
            idx = idx * len + off;
            k = k + 1;
        }
        proof {
            lemma_linear_bound(bs, ix, bs.len() as int);
        }
        Ok(idx as usize)
    }

    /// The element at `indices`, or "Subscript out of range".
    pub fn get(&self, indices: &[i64]) -> (r: Result<&T, String>)
        requires
            self.wf(),
        ensures
            match r {
                Ok(v) => read(self.bounds@, self.elements@, indices@) == Some(*v),
                Err(e) => read(self.bounds@, self.elements@, indices@) is None && e@ == subscript_error(),
            },
    {
        match self.linear_index(indices) {
            Ok(i) => {
                proof {
                    law_slot_in_bounds(self.bounds@, indices@);
                }
                Ok(&self.elements[i])
            },
            Err(e) => Err(e),
        }
    }

    /// Stores `value` at `indices`; "Subscript out of range" leaves the
    /// array unchanged.
    pub fn set(&mut self, indices: &[i64], value: T) -> (r: Result<(), String>)
        requires
            old(self).wf(),
        ensures
            final(self).wf(),
            final(self).bounds@ == old(self).bounds@,
            match r {
                Ok(()) => slot(old(self).bounds@, indices@) matches Some(i)
                    && final(self).elements@ == old(self).elements@.update(i, value),
                Err(e) => slot(old(self).bounds@, indices@) is None && final(self).elements@ == old(
                    self,
                ).elements@ && e@ == subscript_error(),
            },
    {
        match self.linear_index(indices) {
            Ok(i) => {
                proof {
                    law_slot_in_bounds(self.bounds@, indices@);
                }
                self.elements.set(i, value);
                Ok(())
            },
            Err(e) => Err(e),
        }
    }
}

} // verus!
