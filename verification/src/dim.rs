//! Dimension vectors and the broadcast rule that merges them.

use vstd::prelude::*;

verus! {

pub type Dimension = usize;

/// An ordered sequence of extents, outermost first.
#[derive(Debug, Clone, Default, PartialEq, Eq, Hash)]
pub struct Dimensions(pub Vec<Dimension>);

impl View for Dimensions {
    type V = Seq<usize>;

    open spec fn view(&self) -> Seq<usize> {
        self.0@
    }
}

impl From<Vec<Dimension>> for Dimensions {
    fn from(v: Vec<Dimension>) -> (d: Dimensions)
        ensures
            d@ == v@,
    {
        Dimensions(v)
    }
}

impl vstd::std_specs::convert::FromSpecImpl<Vec<Dimension>> for Dimensions {
    open spec fn obeys_from_spec() -> bool {
        true
    }

    open spec fn from_spec(v: Vec<Dimension>) -> Dimensions {
        Dimensions(v)
    }
}

impl std::ops::Index<usize> for Dimensions {
    type Output = Dimension;

    fn index(&self, index: usize) -> (extent: &Dimension)
        ensures
            *extent == self@[index as int],
    {
        &self.0[index]
    }
}

impl vstd::std_specs::core::IndexSpecImpl<usize> for Dimensions {
    open spec fn index_req(&self, index: &usize) -> bool {
        *index < self@.len()
    }
}

/// Product of `s[lo..hi]`; the empty product is 1.
pub open spec fn range_product(s: Seq<usize>, lo: int, hi: int) -> nat
    decreases hi - lo,
{
    if lo >= hi {
        1
    } else {
        (s[lo] as nat) * range_product(s, lo + 1, hi)
    }
}

/// Number of elements that a shape describes.
pub open spec fn elem_count(s: Seq<usize>) -> nat {
    range_product(s, 0, s.len() as int)
}

/// A shape is a scalar if it is empty or a single extent of 0 or 1.
pub open spec fn scalar_shape(s: Seq<usize>) -> bool {
    s.len() == 0 || (s.len() == 1 && (s[0] == 0 || s[0] == 1))
}

/// A product over a range splits at any point inside the range.
pub proof fn lemma_range_product_split(s: Seq<usize>, lo: int, mid: int, hi: int)
    requires
        lo <= mid <= hi,
    ensures
        range_product(s, lo, hi) == range_product(s, lo, mid) * range_product(s, mid, hi),
    decreases mid - lo,
{
    if lo < mid {
        lemma_range_product_split(s, lo + 1, mid, hi);
        let a = s[lo] as nat;
        let b = range_product(s, lo + 1, mid);
        let c = range_product(s, mid, hi);
        assert(a * (b * c) == (a * b) * c) by (nonlinear_arith);
    } else {
        assert(range_product(s, lo, mid) == 1);
    }
}

/// A product over a range that holds a zero extent is zero.
pub proof fn lemma_range_product_zero(s: Seq<usize>, lo: int, hi: int, k: int)
    requires
        lo <= k < hi,
        s[k] == 0,
    ensures
        range_product(s, lo, hi) == 0,
    decreases k - lo,
{
    if lo < k {
        lemma_range_product_zero(s, lo + 1, hi, k);
        assert((s[lo] as nat) * 0 == 0) by (nonlinear_arith);
    } else {
        assert(0 * range_product(s, lo + 1, hi) == 0) by (nonlinear_arith);
    }
}

/// A product over a range without zero extents is at least 1.
pub proof fn lemma_range_product_positive(s: Seq<usize>, lo: int, hi: int)
    requires
        0 <= lo,
        hi <= s.len(),
        forall|k: int| lo <= k < hi ==> s[k] != 0,
    ensures
        range_product(s, lo, hi) >= 1,
    decreases hi - lo,
{
    if lo < hi {
        lemma_range_product_positive(s, lo + 1, hi);
        let a = s[lo] as nat;
        let b = range_product(s, lo + 1, hi);
        assert(a >= 1 && b >= 1 ==> a * b >= 1) by (nonlinear_arith);
    }
}

/// The product over a range depends only on the extents inside it.
pub proof fn lemma_range_product_agrees(s: Seq<usize>, t: Seq<usize>, lo: int, hi: int, shift: int)
    requires
        0 <= lo,
        hi <= s.len(),
        0 <= lo + shift,
        hi + shift <= t.len(),
        forall|k: int| lo <= k < hi ==> s[k] == t[k + shift],
    ensures
        range_product(s, lo, hi) == range_product(t, lo + shift, hi + shift),
    decreases hi - lo,
{
    if lo < hi {
        lemma_range_product_agrees(s, t, lo + 1, hi, shift);
    }
}

/// Whether the element count of a shape, and the element count of each of
/// its suffixes, fits in `usize`.
pub open spec fn shape_fits(s: Seq<usize>) -> bool {
    forall|i: int| 0 <= i <= s.len() ==> #[trigger] range_product(s, i, s.len() as int) <= usize::MAX
}

/// Extent of `shape` at position `j` of a right-aligned shape of `rank`
/// extents; positions to the left of `shape` read as 1.
pub open spec fn aligned_dim(shape: Seq<usize>, rank: nat, j: int) -> usize {
    if rank - shape.len() <= j < rank {
        shape[j - (rank - shape.len())]
    } else {
        1
    }
}

/// The largest rank among the first `n` shapes.
pub open spec fn max_rank(shapes: Seq<Seq<usize>>, n: nat) -> nat
    decreases n,
{
    if n == 0 {
        0
    } else {
        let rest = max_rank(shapes, (n - 1) as nat);
        let len = shapes[n - 1].len();
        if len > rest {
            len
        } else {
            rest
        }
    }
}

/// Merges one more extent into an extent merged so far: a unit extent yields
/// to the other one, two non-unit extents must agree.
pub open spec fn merge_dim(size: usize, d: usize) -> Option<usize> {
    if d == 1 {
        Some(size)
    } else if size != 1 && d != size {
        None
    } else {
        Some(d)
    }
}

/// The extent at position `j` that the first `n` shapes agree on, if they do.
pub open spec fn merged_dim(shapes: Seq<Seq<usize>>, rank: nat, j: int, n: nat) -> Option<usize>
    decreases n,
{
    if n == 0 {
        Some(1)
    } else {
        match merged_dim(shapes, rank, j, (n - 1) as nat) {
            None => None,
            Some(size) => merge_dim(size, aligned_dim(shapes[n - 1], rank, j)),
        }
    }
}

/// Whether the shapes agree at every right-aligned position.
pub open spec fn broadcastable(shapes: Seq<Seq<usize>>) -> bool {
    let rank = max_rank(shapes, shapes.len());
    &&& shapes.len() > 0
    &&& forall|j: int| 0 <= j < rank ==> merged_dim(shapes, rank, j, shapes.len()) is Some
}

/// The common shape of `shapes` under right-aligned broadcasting.
pub open spec fn broadcast_shape(shapes: Seq<Seq<usize>>) -> Option<Seq<usize>> {
    let rank = max_rank(shapes, shapes.len());
    if broadcastable(shapes) {
        Some(Seq::new(rank, |j: int| merged_dim(shapes, rank, j, shapes.len())->0))
    } else {
        None
    }
}

/// The views of a slice of shapes.
pub open spec fn shape_views(shapes: Seq<Dimensions>) -> Seq<Seq<usize>> {
    Seq::new(shapes.len(), |k: int| shapes[k]@)
}

/// No shape is longer than the largest rank.
pub proof fn lemma_max_rank_bounds(shapes: Seq<Seq<usize>>, n: nat, k: int)
    requires
        0 <= k < n <= shapes.len(),
    ensures
        shapes[k].len() <= max_rank(shapes, n),
    decreases n,
{
    if k < n - 1 {
        lemma_max_rank_bounds(shapes, (n - 1) as nat, k);
    }
}

/// What a successful merge means: every shape holds either 1 or the merged
/// extent at the position, and a merged extent other than 1 occurs in some
/// shape.
pub proof fn lemma_merged_dim_some(shapes: Seq<Seq<usize>>, rank: nat, j: int, n: nat)
    requires
        n <= shapes.len(),
        merged_dim(shapes, rank, j, n) is Some,
    ensures
        forall|k: int|
            0 <= k < n ==> {
                let d = #[trigger] aligned_dim(shapes[k], rank, j);
                d == 1 || d == merged_dim(shapes, rank, j, n)->0
            },
        merged_dim(shapes, rank, j, n)->0 != 1 ==> exists|k: int|
            0 <= k < n && #[trigger] aligned_dim(shapes[k], rank, j) == merged_dim(
                shapes,
                rank,
                j,
                n,
            )->0,
    decreases n,
{
    if n > 0 {
        let m = (n - 1) as nat;
        lemma_merged_dim_some(shapes, rank, j, m);
        let size = merged_dim(shapes, rank, j, m)->0;
        let d = aligned_dim(shapes[n - 1], rank, j);
        let out = merged_dim(shapes, rank, j, n)->0;
        if out != 1 {
            if d == 1 {
                let k = choose|k: int|
                    0 <= k < m && #[trigger] aligned_dim(shapes[k], rank, j) == size;
                assert(0 <= k < n && aligned_dim(shapes[k], rank, j) == out);
            } else {
                assert(0 <= n - 1 < n && aligned_dim(shapes[n - 1], rank, j) == out);
            }
        }
    }
}

/// Two shapes with distinct non-unit extents at one position do not merge.
pub proof fn lemma_merged_dim_none(
    shapes: Seq<Seq<usize>>,
    rank: nat,
    j: int,
    n: nat,
    a: int,
    b: int,
)
    requires
        n <= shapes.len(),
        0 <= a < n,
        0 <= b < n,
        aligned_dim(shapes[a], rank, j) != 1,
        aligned_dim(shapes[b], rank, j) != 1,
        aligned_dim(shapes[a], rank, j) != aligned_dim(shapes[b], rank, j),
    ensures
        merged_dim(shapes, rank, j, n) is None,
{
    if merged_dim(shapes, rank, j, n) is Some {
        lemma_merged_dim_some(shapes, rank, j, n);
        assert(aligned_dim(shapes[a], rank, j) == merged_dim(shapes, rank, j, n)->0);
        assert(aligned_dim(shapes[b], rank, j) == merged_dim(shapes, rank, j, n)->0);
    }
}

/// Broadcasting two shapes does not depend on their order.
pub proof fn lemma_broadcast_commutative(a: Seq<usize>, b: Seq<usize>)
    ensures
        broadcast_shape(seq![a, b]) == broadcast_shape(seq![b, a]),
{
    let ab = seq![a, b];
    let ba = seq![b, a];
    reveal_with_fuel(max_rank, 3);
    reveal_with_fuel(merged_dim, 3);
    let rank = max_rank(ab, 2);
    assert(max_rank(ba, 2) == rank);
    assert forall|j: int| 0 <= j < rank implies merged_dim(ab, rank, j, 2) == merged_dim(
        ba,
        rank,
        j,
        2,
    ) by {
        let x = aligned_dim(a, rank, j);
        let y = aligned_dim(b, rank, j);
        assert(merged_dim(ab, rank, j, 2) == merge_dim(merge_dim(1, x)->0, y));
        assert(merged_dim(ba, rank, j, 2) == merge_dim(merge_dim(1, y)->0, x));
    }
    if broadcastable(ab) {
        assert(broadcastable(ba));
        assert(broadcast_shape(ab)->0 =~= broadcast_shape(ba)->0);
    } else {
        assert(!broadcastable(ba));
    }
}

/// Once the first `k` shapes fail to merge, more shapes do not mend it.
pub proof fn lemma_merged_dim_none_persists(
    shapes: Seq<Seq<usize>>,
    rank: nat,
    j: int,
    k: nat,
    n: nat,
)
    requires
        k <= n,
        merged_dim(shapes, rank, j, k) is None,
    ensures
        merged_dim(shapes, rank, j, n) is None,
    decreases n,
{
    if k < n {
        lemma_merged_dim_none_persists(shapes, rank, j, k, (n - 1) as nat);
    }
}

impl Dimensions {
    pub fn len(&self) -> (n: usize)
        ensures
            n == self@.len(),
    {
        self.0.len()
    }

    pub fn is_empty(&self) -> (b: bool)
        ensures
            b == (self@.len() == 0),
    {
        self.0.len() == 0
    }

    pub fn is_scalar(&self) -> (b: bool)
        ensures
            b == scalar_shape(self@),
    {
        self.0.len() == 0 || (self.0.len() == 1 && (self.0[0] == 0 || self.0[0] == 1))
    }

    /// Whether the shape and all of its suffixes have element counts that fit
    /// in `usize`.
    pub fn fits_usize(&self) -> (b: bool)
        ensures
            b == shape_fits(self@),
    {
        let n = self.0.len();
        let mut acc: usize = 1;
        let mut i: usize = n;
        while i > 0
            invariant
                n == self@.len(),
                i <= n,
                acc == range_product(self@, i as int, n as int),
                forall|k: int| i <= k <= n ==> #[trigger] range_product(self@, k, n as int) <= usize::MAX,
            decreases i,
        {
            match acc.checked_mul(self.0[i - 1]) {
                Some(next) => {
                    assert(range_product(self@, i - 1, n as int) == self@[i - 1] as nat * (acc as nat));
                    assert(self@[i - 1] as nat * (acc as nat) == acc * self@[i - 1]) by (nonlinear_arith);
                    acc = next;
                },
                None => {
                    assert(range_product(self@, i - 1, n as int) == self@[i - 1] as nat * (acc as nat));
                    assert(self@[i - 1] as nat * (acc as nat) == acc * self@[i - 1]) by (nonlinear_arith);
                    return false;
                },
            }
            i -= 1;
        }
        true
    }

    /// The number of elements of the shape, or `None` if it exceeds `usize`.
    pub fn checked_total_elems(&self) -> (r: Option<usize>)
        ensures
            r is Some <==> elem_count(self@) <= usize::MAX,
            r is Some ==> r->0 == elem_count(self@),
    {
        let n = self.0.len();
        let mut i: usize = 0;
        while i < n
            invariant
                n == self@.len(),
                i <= n,
                forall|k: int| 0 <= k < i ==> self@[k] != 0,
            decreases n - i,
        {
            if self.0[i] == 0 {
                proof {
                    lemma_range_product_zero(self@, 0, n as int, i as int);
                }
                return Some(0);
            }
            i += 1;
        }
        let mut acc: usize = 1;
        let mut i: usize = 0;
        while i < n
            invariant
                n == self@.len(),
                i <= n,
                forall|k: int| 0 <= k < n ==> self@[k] != 0,
                acc == range_product(self@, 0, i as int),
            decreases n - i,
        {
            let d = self.0[i];
            proof {
                lemma_range_product_split(self@, 0, i as int, i as int + 1);
                lemma_range_product_split(self@, 0, i as int + 1, n as int);
                lemma_range_product_positive(self@, i as int + 1, n as int);
                assert(range_product(self@, i as int + 1, i as int + 1) == 1);
                assert(range_product(self@, i as int, i as int + 1) == d as nat * 1);
                let p = acc as nat * d as nat;
                let q = range_product(self@, i as int + 1, n as int);
                assert(range_product(self@, 0, i as int + 1) == p);
                assert(q >= 1 ==> p * q >= p) by (nonlinear_arith);
            }
            match acc.checked_mul(d) {
                Some(next) => {
                    acc = next;
                },
                None => {
                    return None;
                },
            }
            i += 1;
        }
        Some(acc)
    }

    pub fn total_elems(&self) -> (n: usize)
        requires
            elem_count(self@) <= usize::MAX,
        ensures
            n == elem_count(self@),
    {
        match self.checked_total_elems() {
            Some(n) => n,
            None => 0,
        }
    }

    pub fn as_slice(&self) -> (s: &[Dimension])
        ensures
            s@ == self@,
    {
        self.0.as_slice()
    }

    pub fn as_mut_slice(&mut self) -> (s: &mut [Dimension])
        ensures
            s@ == old(self)@,
            final(self)@ == final(s)@,
    {
        self.0.as_mut_slice()
    }

    /// The extents as `i32`, each truncated to 32 bits.
    pub fn to_i32_vec(&self) -> (v: Vec<i32>)
        ensures
            v@.len() == self@.len(),
            forall|i: int| 0 <= i < v@.len() ==> v@[i] == self@[i] as i32,
    {
        let mut v: Vec<i32> = Vec::new();
        let mut i: usize = 0;
        while i < self.0.len()
            invariant
                i <= self@.len(),
                v@.len() == i,
                forall|k: int| 0 <= k < i ==> v@[k] == self@[k] as i32,
            decreases self@.len() - i,
        {
            v.push(#[verifier::truncate] (self.0[i] as i32));
            i += 1;
        }
        v
    }

    /// Reads extents from `i64` values, each reinterpreted as `usize`.
    pub fn from_i64(dims: &[i64]) -> (d: Self)
        ensures
            d@.len() == dims@.len(),
            forall|i: int| 0 <= i < d@.len() ==> d@[i] == dims@[i] as usize,
    {
        let mut v: Vec<usize> = Vec::new();
        let mut i: usize = 0;
        while i < dims.len()
            invariant
                i <= dims@.len(),
                v@.len() == i,
                forall|k: int| 0 <= k < i ==> v@[k] == dims@[k] as usize,
            decreases dims@.len() - i,
        {
            v.push(#[verifier::truncate] (dims[i] as usize));
            i += 1;
        }
        Dimensions(v)
    }

    /// The common shape of `self` and `other` under broadcasting.
    pub fn broadcast(&self, other: &Dimensions) -> (r: Option<Dimensions>)
        ensures
            r is Some <==> broadcast_shape(seq![self@, other@]) is Some,
            r is Some ==> broadcast_shape(seq![self@, other@]) == Some(r->0@),
    {
        let mut shapes: Vec<Dimensions> = Vec::new();
        shapes.push(self.duplicate());
        shapes.push(other.duplicate());
        assert(shape_views(shapes@) =~= seq![self@, other@]);
        self::broadcast(shapes.as_slice())
    }

    /// The extents as an array; the shape must have exactly `N` of them.
    pub fn to_fixed_dims<const N: usize>(&self) -> (a: [Dimension; N])
        requires
            self@.len() == N,
        ensures
            a@ == self@,
    {
        let mut a: [Dimension; N] = [0; N];
        let mut i: usize = 0;
        while i < N
            invariant
                i <= N,
                self@.len() == N,
                a@.len() == N,
                forall|k: int| 0 <= k < i ==> a@[k] == self@[k],
            decreases N - i,
        {
            a[i] = self.0[i];
            i += 1;
        }
        assert(a@ =~= self@);
        a
    }

    /// A copy of the shape.
    pub fn duplicate(&self) -> (d: Dimensions)
        ensures
            d@ == self@,
    {
        let mut v: Vec<usize> = Vec::new();
        let mut i: usize = 0;
        while i < self.0.len()
            invariant
                i <= self@.len(),
                v@ == self@.take(i as int),
            decreases self@.len() - i,
        {
            v.push(self.0[i]);
            assert(self@.take(i as int + 1) =~= self@.take(i as int).push(self@[i as int]));
            i += 1;
        }
        assert(self@.take(self@.len() as int) =~= self@);
        Dimensions(v)
    }

    /// Whether two shapes have the same extents.
    pub fn same_as(&self, other: &Dimensions) -> (b: bool)
        ensures
            b == (self@ == other@),
    {
        if self.0.len() != other.0.len() {
            return false;
        }
        let mut i: usize = 0;
        while i < self.0.len()
            invariant
                i <= self@.len(),
                self@.len() == other@.len(),
                forall|k: int| 0 <= k < i ==> self@[k] == other@[k],
            decreases self@.len() - i,
        {
            if self.0[i] != other.0[i] {
                return false;
            }
            i += 1;
        }
        assert(self@ =~= other@);
        true
    }
}

/// The common shape of `shapes` under right-aligned broadcasting: at each
/// position the one extent other than 1 that occurs there, or 1. `None` if
/// there is no shape or two shapes hold distinct extents other than 1 at one
/// position.
pub fn broadcast(shapes: &[Dimensions]) -> (r: Option<Dimensions>)
    ensures
        r is Some <==> broadcast_shape(shape_views(shapes@)) is Some,
        r is Some ==> broadcast_shape(shape_views(shapes@)) == Some(r->0@),
{
    let n = shapes.len();
    if n == 0 {
        return None;
    }
    let ghost views = shape_views(shapes@);
    let mut rank: usize = 0;
    let mut k: usize = 0;
    while k < n
        invariant
            n == shapes@.len(),
            views == shape_views(shapes@),
            k <= n,
            rank == max_rank(views, k as nat),
        decreases n - k,
    {
        let len = shapes[k].len();
        if len > rank {
            rank = len;
        }
        k += 1;
    }
    let mut out: Vec<usize> = Vec::new();
    let mut j: usize = 0;
    while j < rank
        invariant
            n == shapes@.len(),
            n > 0,
            views == shape_views(shapes@),
            rank == max_rank(views, n as nat),
            j <= rank,
            out@.len() == j,
            forall|p: int| 0 <= p < j ==> merged_dim(views, rank as nat, p, n as nat) == Some(out@[p]),
        decreases rank - j,
    {
        let mut size: usize = 1;
        let mut k: usize = 0;
        while k < n
            invariant
                n == shapes@.len(),
                views == shape_views(shapes@),
                rank == max_rank(views, n as nat),
                j < rank,
                k <= n,
                merged_dim(views, rank as nat, j as int, k as nat) == Some(size),
            decreases n - k,
        {
            let shape = &shapes[k];
            let len = shape.len();
            proof {
                lemma_max_rank_bounds(views, n as nat, k as int);
            }
            let dim = if j >= rank - len {
                shape.0[j - (rank - len)]
            } else {
                1
            };
            assert(dim == aligned_dim(views[k as int], rank as nat, j as int));
            if dim != 1 {
                if size != 1 && dim != size {
                    proof {
                        lemma_merged_dim_none_persists(
                            views,
                            rank as nat,
                            j as int,
                            (k + 1) as nat,
                            n as nat,
                        );
                    }
                    return None;
                }
                size = dim;
            }
            k += 1;
        }
        out.push(size);
        j += 1;
    }
    assert(broadcastable(views));
    assert(broadcast_shape(views)->0 =~= out@);
    Some(Dimensions(out))
}

} // verus!
