//! The max-by-category aggregator: the largest size seen in each category,
//! folded page by page over a scan.
use vstd::prelude::*;

verus! {

/// A derived tuple of the max-by-category aggregator: a category and a size.
pub type CategorySize = (u8, usize);

/// The running maxima after one more tuple.
pub open spec fn update_max(m: Map<u8, usize>, t: CategorySize) -> Map<u8, usize> {
    if m.contains_key(t.0) && m[t.0] >= t.1 {
        m
    } else {
        m.insert(t.0, t.1)
    }
}

/// The running maxima after the tuples of `s`, taken in order.
pub open spec fn fold_max(m: Map<u8, usize>, s: Seq<CategorySize>) -> Map<u8, usize>
    decreases s.len(),
{
    if s.len() == 0 {
        m
    } else {
        update_max(fold_max(m, s.drop_last()), s.last())
    }
}

/// `m` maps each category that occurs in `s` to the largest size that `s`
/// holds for it, and nothing else.
pub open spec fn is_max_map(s: Seq<CategorySize>, m: Map<u8, usize>) -> bool {
    &&& forall|c: u8| #[trigger] m.contains_key(c) <==> exists|v: usize| s.contains((c, v))
    &&& forall|c: u8| #[trigger] m.contains_key(c) ==> s.contains((c, m[c]))
    &&& forall|c: u8, v: usize| #[trigger] s.contains((c, v)) ==> m.contains_key(c) && v <= m[c]
}

/// Folding the tuples of `s` maps each category that occurs in `s` to the
/// largest size that `s` holds for it, and no other category to anything.
pub proof fn lemma_fold_is_max_map(s: Seq<CategorySize>)
    ensures
        is_max_map(s, fold_max(Map::empty(), s)),
    decreases s.len(),
{
    if s.len() > 0 {
        let p = s.drop_last();
        let t = s.last();
        lemma_fold_is_max_map(p);
        let mp = fold_max(Map::empty(), p);
        let m = fold_max(Map::empty(), s);
        assert(s == p.push(t));
        assert forall|u: CategorySize| #[trigger] s.contains(u) <==> p.contains(u) || u == t by {
            if s.contains(u) {
                let i = choose|i: int| 0 <= i < s.len() && s[i] == u;
                if i < p.len() {
                    assert(p[i] == u);
                }
            }
            if p.contains(u) {
                let i = choose|i: int| 0 <= i < p.len() && p[i] == u;
                assert(s[i] == u);
            }
            if u == t {
                assert(s[s.len() - 1] == u);
            }
        }
        assert forall|c: u8| #[trigger] m.contains_key(c) <==> exists|v: usize| s.contains((c, v)) by {
            if m.contains_key(c) {
                if c == t.0 {
                    assert(s.contains((t.0, t.1)));
                } else {
                    assert(mp.contains_key(c));
                    let v = choose|v: usize| p.contains((c, v));
                    assert(s.contains((c, v)));
                }
            }
            if exists|v: usize| s.contains((c, v)) {
                let v = choose|v: usize| s.contains((c, v));
                if (c, v) != t {
                    assert(p.contains((c, v)));
                }
            }
        }
        assert forall|c: u8| #[trigger] m.contains_key(c) implies s.contains((c, m[c])) by {
            if c == t.0 && !(mp.contains_key(t.0) && mp[t.0] >= t.1) {
                assert(s.contains(t));
            } else {
                assert(p.contains((c, mp[c])));
            }
        }
        assert forall|c: u8, v: usize| #[trigger] s.contains((c, v)) implies m.contains_key(c) && v
            <= m[c] by {
            if (c, v) != t {
                assert(p.contains((c, v)));
            }
        }
    }
}

proof fn lemma_max_map_unique(s1: Seq<CategorySize>, s2: Seq<CategorySize>, m1: Map<u8, usize>, m2: Map<u8, usize>)
    requires
        is_max_map(s1, m1),
        is_max_map(s2, m2),
        forall|u: CategorySize| s1.contains(u) <==> s2.contains(u),
    ensures
        m1 == m2,
{
    assert forall|c: u8| #[trigger] m1.contains_key(c) <==> m2.contains_key(c) by {
        if m1.contains_key(c) {
            assert(s2.contains((c, m1[c])));
        }
        if m2.contains_key(c) {
            assert(s1.contains((c, m2[c])));
        }
    }
    assert forall|c: u8| #[trigger] m1.contains_key(c) implies m1[c] == m2[c] by {
        assert(s2.contains((c, m1[c])));
        assert(s1.contains((c, m2[c])));
    }
    assert(m1 =~= m2);
}

/// The maxima by category do not depend on the order in which the tuples
/// arrive: any permutation of them, across pages or within one, gives the
/// same result.
pub proof fn lemma_max_by_category_order_free(s1: Seq<CategorySize>, s2: Seq<CategorySize>)
    requires
        s1.to_multiset() == s2.to_multiset(),
    ensures
        fold_max(Map::empty(), s1) == fold_max(Map::empty(), s2),
{
    lemma_fold_is_max_map(s1);
    lemma_fold_is_max_map(s2);
    assert forall|u: CategorySize| s1.contains(u) <==> s2.contains(u) by {
        vstd::seq_lib::to_multiset_contains(s1, u);
        vstd::seq_lib::to_multiset_contains(s2, u);
        s1.to_multiset_ensures();
        s2.to_multiset_ensures();
    }
    lemma_max_map_unique(s1, s2, fold_max(Map::empty(), s1), fold_max(Map::empty(), s2));
}

/// Folding page after page is folding their concatenation.
pub proof fn lemma_fold_max_pages(m: Map<u8, usize>, a: Seq<CategorySize>, b: Seq<CategorySize>)
    ensures
        fold_max(fold_max(m, a), b) == fold_max(m, a + b),
    decreases b.len(),
{
    if b.len() == 0 {
        assert(a + b =~= a);
    } else {
        assert((a + b).drop_last() =~= a + b.drop_last());
        assert((a + b).last() == b.last());
        lemma_fold_max_pages(m, a, b.drop_last());
    }
}

/// The largest size seen so far in each category.
pub struct CategoryMaxima {
    slots: Vec<Option<usize>>,
}

impl CategoryMaxima {
    pub closed spec fn view(&self) -> Map<u8, usize> {
        Map::new(
            |c: u8| (c as int) < self.slots@.len() && self.slots@[c as int] is Some,
            |c: u8| self.slots@[c as int]->Some_0,
        )
    }

    pub closed spec fn wf(&self) -> bool {
        self.slots@.len() == 256
    }

    pub fn new() -> (r: CategoryMaxima)
        ensures
            r.wf(),
            r@ == Map::<u8, usize>::empty(),
    {
        let slots: Vec<Option<usize>> = vec![None; 256];
        let r = CategoryMaxima { slots };
        assert(r@ =~= Map::<u8, usize>::empty());
        r
    }

    /// Takes one tuple into account.
    pub fn record(&mut self, category: u8, size: usize)
        requires
            old(self).wf(),
        ensures
            final(self).wf(),
            final(self)@ == update_max(old(self)@, (category, size)),
    {
        let i = category as usize;
        let keep = match self.slots[i] {
            Some(m) => m >= size,
            None => false,
        };
        if !keep {
            self.slots.set(i, Some(size));
            assert(self@ =~= old(self)@.insert(category, size));
        }
    }

    /// Takes a page of tuples into account.
    pub fn absorb(&mut self, rows: &Vec<CategorySize>)
        requires
            old(self).wf(),
        ensures
            final(self).wf(),
            final(self)@ == fold_max(old(self)@, rows@),
    {
        let ghost start = self@;
        let mut i: usize = 0;
        while i < rows.len()
            invariant
                self.wf(),
                i <= rows.len(),
                self@ == fold_max(start, rows@.take(i as int)),
            decreases rows.len() - i,
        {
            let (c, v) = rows[i];
            self.record(c, v);
            assert(rows@.take(i + 1).drop_last() =~= rows@.take(i as int));
            i = i + 1;
        }
        assert(rows@.take(i as int) =~= rows@);
    }

    /// The complete mapping, as `(category, largest size)` pairs in ascending
    /// order of category.
    pub fn to_vec(&self) -> (r: Vec<CategorySize>)
        requires
            self.wf(),
        ensures
            forall|i: int, j: int| 0 <= i < j < r@.len() ==> r@[i].0 < r@[j].0,
            forall|i: int|
                0 <= i < r@.len() ==> self@.contains_key(#[trigger] r@[i].0) && self@[r@[i].0]
                    == r@[i].1,
            forall|c: u8| #[trigger] self@.contains_key(c) ==> exists|i: int| 0 <= i < r@.len() && r@[i].0 == c,
    {
        let mut out: Vec<CategorySize> = Vec::new();
        let mut c: usize = 0;
        while c < 256
            invariant
                self.wf(),
                c <= 256,
                forall|i: int, j: int| 0 <= i < j < out@.len() ==> out@[i].0 < out@[j].0,
                forall|i: int| 0 <= i < out@.len() ==> (out@[i].0 as int) < c,
                forall|i: int|
                    0 <= i < out@.len() ==> self@.contains_key(#[trigger] out@[i].0) && self@[out@[i].0]
                        == out@[i].1,
                forall|k: u8|
                    (k as int) < c && #[trigger] self@.contains_key(k) ==> exists|i: int|
                        0 <= i < out@.len() && out@[i].0 == k,
            decreases 256 - c,
        {
            let ghost before = out@;
            if let Some(m) = self.slots[c] {
                out.push((c as u8, m));
                assert(self@.contains_key(c as u8));
                assert(out@[out@.len() - 1].0 == c as u8);
            }
            proof {
                assert forall|k: u8| (k as int) < c + 1 && #[trigger] self@.contains_key(k) implies exists|i: int|
                        0 <= i < out@.len() && out@[i].0 == k by {
                    if k as int == c {
                        assert(out@[out@.len() - 1].0 == k);
                    } else {
                        let i = choose|i: int| 0 <= i < before.len() && before[i].0 == k;
                        assert(out@[i] == before[i]);
                    }
                }
            }
            c = c + 1;
        }
        out
    }

    /// The largest size seen in `category`, if any.
    pub fn get(&self, category: u8) -> (r: Option<usize>)
        requires
            self.wf(),
        ensures
            r == (if self@.contains_key(category) {
                Some(self@[category])
            } else {
                None
            }),
    {
        self.slots[category as usize]
    }
}

/// The largest size in `rows` for each category that occurs in it.
pub fn max_by_category(rows: &Vec<CategorySize>) -> (r: CategoryMaxima)
    ensures
        r.wf(),
        r@ == fold_max(Map::empty(), rows@),
{
    let mut r = CategoryMaxima::new();
    r.absorb(rows);
    r
}

} // verus!
