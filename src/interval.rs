//! Sets of symbol codes kept as sorted, disjoint, non-adjacent ranges.

use vstd::prelude::*;

verus! {

/// The codes covered by a list of inclusive ranges.
pub open spec fn covered(rs: Seq<(u64, u64)>) -> Set<int> {
    Set::new(|x: int| exists|k: int| #![trigger rs[k]] 0 <= k < rs.len() && rs[k].0 <= x <= rs[k].1)
}

/// The inclusive range `lo..=hi` as a set (empty when `lo > hi`).
pub open spec fn range_set(lo: int, hi: int) -> Set<int> {
    Set::new(|x: int| lo <= x <= hi)
}

/// Every range is non-empty, and any two ranges are ordered with a gap of at
/// least one code between them: the list is the minimal description of what it
/// covers.
pub open spec fn minimal(rs: Seq<(u64, u64)>) -> bool {
    &&& forall|k: int| 0 <= k < rs.len() ==> rs[k].0 <= rs[k].1
    &&& forall|i: int, j: int| 0 <= i < j < rs.len() ==> rs[i].1 + 1 < rs[j].0
}

/// An ordered set of disjoint code ranges.
#[derive(Clone, Debug)]
pub struct IntervalSet {
    ranges: Vec<(u64, u64)>,
}

impl View for IntervalSet {
    type V = Set<int>;

    closed spec fn view(&self) -> Set<int> {
        covered(self.ranges@)
    }
}

impl IntervalSet {
    /// The ranges, in ascending order.
    pub closed spec fn spec_ranges(&self) -> Seq<(u64, u64)> {
        self.ranges@
    }

    /// The set is kept minimal, and its view is what its ranges cover.
    pub open spec fn wf(&self) -> bool {
        &&& minimal(self.spec_ranges())
        &&& self@ == covered(self.spec_ranges())
    }

    /// The empty set.
    pub fn new() -> (r: Self)
        ensures
            r.wf(),
            r@ == Set::<int>::empty(),
            r.spec_ranges().len() == 0,
    {
        let r = IntervalSet { ranges: Vec::new() };
        assert(r@ =~= Set::<int>::empty());
        r
    }

    /// The ranges, in ascending order.
    pub fn ranges(&self) -> (r: Vec<(u64, u64)>)
        requires
            self.wf(),
        ensures
            r@ == self.spec_ranges(),
            minimal(r@),
            covered(r@) == self@,
    {
        let mut r: Vec<(u64, u64)> = Vec::new();
        let mut i: usize = 0;
        while i < self.ranges.len()
            invariant
                i <= self.ranges@.len(),
                r@ == self.ranges@.take(i as int),
            decreases self.ranges@.len() - i,
        {
            r.push(self.ranges[i]);
            i += 1;
            assert(r@ =~= self.ranges@.take(i as int));
        }
        assert(self.ranges@.take(i as int) =~= self.ranges@);
        r
    }

    /// Whether `x` lies in one of the ranges.
    pub fn contains(&self, x: u64) -> (r: bool)
        requires
            self.wf(),
        ensures
            r == self@.contains(x as int),
    {
        let mut i: usize = 0;
        while i < self.ranges.len()
            invariant
                i <= self.ranges@.len(),
                forall|k: int| #![trigger self.ranges@[k]] 0 <= k < i ==> !(self.ranges@[k].0 <= x <= self.ranges@[k].1),
            decreases self.ranges@.len() - i,
        {
            let (lo, hi) = self.ranges[i];
            if lo <= x && x <= hi {
                return true;
            }
            i += 1;
        }
        false
    }

    /// Add the codes `lo..=hi` (nothing when `lo > hi`), merging the ranges that
    /// overlap or touch it.
    pub fn insert(&mut self, lo: u64, hi: u64)
        requires
            old(self).wf(),
        ensures
            final(self).wf(),
            final(self)@ == old(self)@.union(range_set(lo as int, hi as int)),
    {
        if lo > hi {
            assert(self@.union(range_set(lo as int, hi as int)) =~= self@);
            return;
        }
        let ghost old_rs = self.ranges@;
        let mut out: Vec<(u64, u64)> = Vec::new();
        let mut cur_lo: u64 = lo;
        let mut cur_hi: u64 = hi;
        let mut placed = false;
        let mut i: usize = 0;
        assert(covered(out@) =~= Set::<int>::empty());
        assert(old_rs.take(0) =~= Seq::<(u64, u64)>::empty());
        assert(covered(old_rs.take(0)) =~= Set::<int>::empty());
        while i < self.ranges.len()
            invariant
                old_rs == self.ranges@,
                minimal(old_rs),
                i <= old_rs.len(),
                minimal(out@),
                cur_lo <= lo <= hi <= cur_hi,
                !placed ==> forall|k: int| 0 <= k < out@.len() ==> out@[k].1 + 1 < cur_lo,
                !placed ==> forall|k: int, j: int|
                    0 <= k < out@.len() && i <= j < old_rs.len() ==> out@[k].1 + 1 < old_rs[j].0,
                !placed ==> forall|j: int|
                    i <= j < old_rs.len() && old_rs[j].1 + 1 < lo ==> old_rs[j].1 + 1 < cur_lo,
                !placed ==> forall|j: int|
                    i <= j < old_rs.len() && hi + 1 < old_rs[j].0 ==> cur_hi + 1 < old_rs[j].0,
                placed ==> out@.len() > 0,
                placed ==> forall|j: int| i <= j < old_rs.len() ==> out@.last().1 + 1 < old_rs[j].0,
                placed ==> forall|j: int| i <= j < old_rs.len() ==> hi + 1 < old_rs[j].0,
                !placed ==> covered(out@).union(range_set(cur_lo as int, cur_hi as int))
                    == covered(old_rs.take(i as int)).union(range_set(lo as int, hi as int)),
                placed ==> covered(out@)
                    == covered(old_rs.take(i as int)).union(range_set(lo as int, hi as int)),
            decreases old_rs.len() - i,
        {
            let (rlo, rhi) = self.ranges[i];
            let ghost prev_out = out@;
            proof {
                assert(old_rs.take(i + 1) =~= old_rs.take(i as int).push((rlo, rhi)));
                lemma_covered_push(old_rs.take(i as int), (rlo, rhi));
            }
            if rhi < lo && lo - rhi > 1 {
                proof {
                    lemma_covered_push(out@, (rlo, rhi));
                    lemma_minimal_push(out@, (rlo, rhi));
                }
                out.push((rlo, rhi));
                proof {
                    let rr = range_set(rlo as int, rhi as int);
                    let cur = range_set(cur_lo as int, cur_hi as int);
                    let add = range_set(lo as int, hi as int);
                    assert(covered(out@) == covered(prev_out).union(rr));
                    assert(covered(old_rs.take(i + 1)) == covered(old_rs.take(i as int)).union(rr));
                    assert(covered(prev_out).union(cur) == covered(old_rs.take(i as int)).union(add));
                    assert(covered(out@).union(cur) =~= covered(prev_out).union(cur).union(rr));
                    assert(covered(old_rs.take(i + 1)).union(add)
                        =~= covered(old_rs.take(i as int)).union(add).union(rr));
                }
            } else if rlo > hi && rlo - hi > 1 {
                if !placed {
                    proof {
                        lemma_covered_push(out@, (cur_lo, cur_hi));
                        lemma_minimal_push(out@, (cur_lo, cur_hi));
                    }
                    out.push((cur_lo, cur_hi));
                    placed = true;
                }
                proof {
                    lemma_covered_push(out@, (rlo, rhi));
                    lemma_minimal_push(out@, (rlo, rhi));
                }
                out.push((rlo, rhi));
                proof {
                    assert(covered(out@)
                        =~= covered(old_rs.take(i + 1)).union(range_set(lo as int, hi as int)));
                }
            } else {
                let ghost (plo, phi) = (cur_lo, cur_hi);
                if rlo < cur_lo {
                    cur_lo = rlo;
                }
                if rhi > cur_hi {
                    cur_hi = rhi;
                }
                proof {
                    let rr = range_set(rlo as int, rhi as int);
                    let prev = range_set(plo as int, phi as int);
                    let add = range_set(lo as int, hi as int);
                    assert(prev.union(rr) =~= range_set(cur_lo as int, cur_hi as int));
                    assert(covered(old_rs.take(i + 1)) == covered(old_rs.take(i as int)).union(rr));
                    assert(covered(out@).union(prev) == covered(old_rs.take(i as int)).union(add));
                    assert(covered(out@).union(range_set(cur_lo as int, cur_hi as int))
                        =~= covered(out@).union(prev).union(rr));
                    assert(covered(old_rs.take(i + 1)).union(add)
                        =~= covered(old_rs.take(i as int)).union(add).union(rr));
                }
            }
            i += 1;
        }
        proof {
            assert(old_rs.take(old_rs.len() as int) =~= old_rs);
        }
        if !placed {
            proof {
                lemma_covered_push(out@, (cur_lo, cur_hi));
                lemma_minimal_push(out@, (cur_lo, cur_hi));
            }
            out.push((cur_lo, cur_hi));
        }
        self.ranges = out;
    }
}

/// Appending a range adds exactly its codes.
pub proof fn lemma_covered_push(rs: Seq<(u64, u64)>, r: (u64, u64))
    ensures
        covered(rs.push(r)) == covered(rs).union(range_set(r.0 as int, r.1 as int)),
{
    let p = rs.push(r);
    assert forall|x: int| covered(p).contains(x) implies covered(rs).union(
        range_set(r.0 as int, r.1 as int),
    ).contains(x) by {
        let k = choose|k: int| #![trigger p[k]] 0 <= k < p.len() && p[k].0 <= x <= p[k].1;
        if k < rs.len() {
            assert(rs[k] == p[k]);
        }
    }
    assert forall|x: int| covered(rs).union(range_set(r.0 as int, r.1 as int)).contains(x)
        implies covered(p).contains(x) by {
        if covered(rs).contains(x) {
            let k = choose|k: int| #![trigger rs[k]] 0 <= k < rs.len() && rs[k].0 <= x <= rs[k].1;
            assert(p[k] == rs[k]);
        } else {
            assert(p[rs.len() as int] == r);
        }
    }
    assert(covered(p) =~= covered(rs).union(range_set(r.0 as int, r.1 as int)));
}

/// A non-empty range placed after every range of a minimal list keeps it minimal.
pub proof fn lemma_minimal_push(rs: Seq<(u64, u64)>, r: (u64, u64))
    requires
        minimal(rs),
        r.0 <= r.1,
        forall|k: int| 0 <= k < rs.len() ==> rs[k].1 + 1 < r.0,
    ensures
        minimal(rs.push(r)),
{
    let p = rs.push(r);
    assert forall|i: int, j: int| 0 <= i < j < p.len() implies p[i].1 + 1 < p[j].0 by {
        if j < rs.len() {
            assert(p[i] == rs[i] && p[j] == rs[j]);
        } else {
            assert(p[i] == rs[i] && p[j] == r);
        }
    }
}

/// The codes of a minimal list that lie above the end of its first range are
/// exactly those of the remaining ranges.
proof fn lemma_covered_rest(a: Seq<(u64, u64)>)
    requires
        minimal(a),
        a.len() > 0,
    ensures
        minimal(a.drop_first()),
        forall|x: int| #[trigger] covered(a.drop_first()).contains(x) <==> (covered(a).contains(x) && x > a[0].1),
{
    let r = a.drop_first();
    assert forall|i: int, j: int| 0 <= i < j < r.len() implies r[i].1 + 1 < r[j].0 by {
        assert(r[i] == a[i + 1] && r[j] == a[j + 1]);
    }
    assert forall|k: int| 0 <= k < r.len() implies r[k].0 <= r[k].1 by {
        assert(r[k] == a[k + 1]);
    }
    assert forall|x: int| #[trigger] covered(r).contains(x) <==> (covered(a).contains(x) && x > a[0].1) by {
        if covered(r).contains(x) {
            let k = choose|k: int| #![trigger r[k]] 0 <= k < r.len() && r[k].0 <= x <= r[k].1;
            assert(r[k] == a[k + 1]);
            assert(a[0].1 + 1 < a[k + 1].0);
        }
        if covered(a).contains(x) && x > a[0].1 {
            let k = choose|k: int| #![trigger a[k]] 0 <= k < a.len() && a[k].0 <= x <= a[k].1;
            assert(k != 0);
            assert(r[k - 1] == a[k]);
        }
    }
}

/// The first range of a non-empty minimal list starts at its least code.
proof fn lemma_first_is_least(a: Seq<(u64, u64)>, x: int)
    requires
        minimal(a),
        covered(a).contains(x),
    ensures
        a.len() > 0,
        a[0].0 <= x,
{
    let k = choose|k: int| #![trigger a[k]] 0 <= k < a.len() && a[k].0 <= x <= a[k].1;
    if k > 0 {
        assert(a[0].1 + 1 < a[k].0);
    }
}

/// A set of codes has one minimal description: two minimal range lists that
/// cover the same codes are the same list. So the ranges an interval set holds
/// depend only on the union of what was inserted, never on the order.
pub proof fn lemma_minimal_unique(a: Seq<(u64, u64)>, b: Seq<(u64, u64)>)
    requires
        minimal(a),
        minimal(b),
        covered(a) == covered(b),
    ensures
        a == b,
    decreases a.len(),
{
    if a.len() == 0 || b.len() == 0 {
        if a.len() > 0 {
            assert(covered(a).contains(a[0].0 as int));
        }
        if b.len() > 0 {
            assert(covered(b).contains(b[0].0 as int));
        }
        assert(a =~= b);
    } else {
        let (alo, ahi) = a[0];
        let (blo, bhi) = b[0];
        assert(covered(a).contains(alo as int));
        assert(covered(b).contains(blo as int));
        lemma_first_is_least(b, alo as int);
        lemma_first_is_least(a, blo as int);
        assert(alo == blo);
        if bhi < ahi {
            let x = bhi + 1;
            assert(covered(a).contains(x as int));
            let k = choose|k: int| #![trigger b[k]] 0 <= k < b.len() && b[k].0 <= x <= b[k].1;
            if k > 0 {
                assert(b[0].1 + 1 < b[k].0);
            }
        }
        if ahi < bhi {
            let x = ahi + 1;
            assert(covered(b).contains(x as int));
            let k = choose|k: int| #![trigger a[k]] 0 <= k < a.len() && a[k].0 <= x <= a[k].1;
            if k > 0 {
                assert(a[0].1 + 1 < a[k].0);
            }
        }
        assert(ahi == bhi);
        lemma_covered_rest(a);
        lemma_covered_rest(b);
        assert(covered(a.drop_first()) =~= covered(b.drop_first()));
        lemma_minimal_unique(a.drop_first(), b.drop_first());
        assert(a =~= seq![a[0]] + a.drop_first());
        assert(b =~= seq![b[0]] + b.drop_first());
    }
}

/// Inserting two ranges in either order gives the same interval set: the
/// same codes, held as the same ranges.
pub proof fn lemma_insert_order(s: Set<int>, lo1: int, hi1: int, lo2: int, hi2: int, a: Seq<(u64, u64)>, b: Seq<(u64, u64)>)
    requires
        minimal(a),
        minimal(b),
        covered(a) == s.union(range_set(lo1, hi1)).union(range_set(lo2, hi2)),
        covered(b) == s.union(range_set(lo2, hi2)).union(range_set(lo1, hi1)),
    ensures
        a == b,
{
    assert(covered(a) =~= covered(b));
    lemma_minimal_unique(a, b);
}

} // verus!
