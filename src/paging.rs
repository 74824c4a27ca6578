//! Cutting a table scan into pages of bounded size.
//!
//! Two ways of paging are offered. [`IndexedPager`] hands out `(skip, len)`
//! ranges of record positions; [`PageBuffer`] collects the records that a live
//! cursor yields, one at a time, and hands out each page as it fills.
//! Both produce exactly the pages of [`chunks`].
use vstd::prelude::*;

verus! {

/// The pages that a sequence of records is cut into: consecutive runs of
/// `size` records, the last of which may be shorter.
pub open spec fn chunks<A>(s: Seq<A>, size: nat) -> Seq<Seq<A>>
    decreases s.len(),
{
    if s.len() == 0 || size == 0 {
        Seq::empty()
    } else if s.len() <= size {
        seq![s]
    } else {
        seq![s.take(size as int)] + chunks(s.skip(size as int), size)
    }
}

/// `ceil(n / size)`.
pub open spec fn page_count(n: nat, size: nat) -> nat {
    if size == 0 {
        0
    } else {
        ((n + size - 1) / size as int) as nat
    }
}

/// The record positions `lo, lo + 1, ..., hi - 1`.
pub open spec fn positions(lo: int, hi: int) -> Seq<int> {
    Seq::new((if hi >= lo { hi - lo } else { 0 }) as nat, |i: int| lo + i)
}

/// What every page sequence of [`chunks`] satisfies: `page_count` pages, none
/// empty, all but the last of full size, which together give back `s` in order.
pub proof fn lemma_chunks<A>(s: Seq<A>, size: nat)
    requires
        size > 0,
    ensures
        chunks(s, size).len() == page_count(s.len(), size),
        chunks(s, size).flatten() == s,
        forall|i: int|
            0 <= i < chunks(s, size).len() ==> 0 < #[trigger] chunks(s, size)[i].len() <= size,
        forall|i: int|
            0 <= i < chunks(s, size).len() - 1 ==> #[trigger] chunks(s, size)[i].len() == size,
    decreases s.len(),
{
    let c = chunks(s, size);
    if s.len() == 0 {
        assert(page_count(0, size) == 0) by (nonlinear_arith)
            requires
                size > 0,
        ;
    } else if s.len() <= size {
        let n = s.len() as int;
        assert((n + size - 1) / size as int == 1) by (nonlinear_arith)
            requires
                0 < n <= size,
        ;
        assert(c.flatten() =~= s) by {
            seq![s].lemma_flatten_one_element();
        }
    } else {
        let rest = s.skip(size as int);
        lemma_chunks(rest, size);
        let n = s.len() as int;
        vstd::arithmetic::div_mod::lemma_div_plus_one(n - size + size - 1, size as int);
        assert(page_count(s.len(), size) == 1 + page_count(rest.len(), size));
        vstd::seq_lib::lemma_flatten_concat(seq![s.take(size as int)], chunks(rest, size));
        seq![s.take(size as int)].lemma_flatten_one_element();
        assert(c.flatten() =~= s.take(size as int) + rest);
        assert(s.take(size as int) + rest =~= s);
        assert forall|i: int| 0 <= i < c.len() implies 0 < #[trigger] c[i].len() <= size by {
            if i > 0 {
                assert(c[i] == chunks(rest, size)[i - 1]);
            }
        }
        assert forall|i: int| 0 <= i < c.len() - 1 implies #[trigger] c[i].len() == size by {
            if i > 0 {
                assert(c[i] == chunks(rest, size)[i - 1]);
            }
        }
    }
}

/// A page request of an indexed scan: up to `len` records after the first
/// `skip`. The store returns fewer where the table ends first.
#[derive(Clone, Copy, Debug, PartialEq, Eq, Structural)]
pub struct PageRange {
    pub skip: u64,
    pub len: u64,
}

impl PageRange {
    /// The positions of the records that this request reaches in a table of
    /// `total` records.
    pub open spec fn covered(self, total: nat) -> Seq<int> {
        let end = self.skip + self.len;
        positions(self.skip as int, if end < total { end } else { total as int })
    }
}

/// Hands out the pages of an indexed scan over `total` records in ascending
/// key order, `page_size` records at a time.
pub struct IndexedPager {
    total: u64,
    page_size: u64,
    next_skip: u64,
}

impl IndexedPager {
    pub closed spec fn total(&self) -> nat {
        self.total as nat
    }

    pub closed spec fn page_size(&self) -> nat {
        self.page_size as nat
    }

    /// The position of the first record that no page has covered yet.
    pub closed spec fn next_skip(&self) -> nat {
        self.next_skip as nat
    }

    pub closed spec fn wf(&self) -> bool {
        self.page_size > 0 && self.next_skip <= self.total
    }

    /// The pages still to come.
    pub open spec fn remaining(&self) -> Seq<Seq<int>> {
        chunks(positions(self.next_skip() as int, self.total() as int), self.page_size())
    }

    pub fn new(total: u64, page_size: u64) -> (r: IndexedPager)
        requires
            page_size > 0,
        ensures
            r.wf(),
            r.total() == total,
            r.page_size() == page_size,
            r.next_skip() == 0,
            r.remaining() == chunks(positions(0, total as int), page_size as nat),
    {
        IndexedPager { total, page_size, next_skip: 0 }
    }

    /// The next page, or `None` once every record has been covered.
    pub fn next_range(&mut self) -> (r: Option<PageRange>)
        requires
            old(self).wf(),
        ensures
            final(self).wf(),
            final(self).total() == old(self).total(),
            final(self).page_size() == old(self).page_size(),
            old(self).remaining().len() == 0 <==> r is None,
            r is None ==> *final(self) == *old(self),
            r matches Some(p) ==> {
                &&& p.skip == old(self).next_skip()
                &&& p.len == old(self).page_size()
                &&& p.covered(old(self).total()) == old(self).remaining()[0]
                &&& final(self).remaining() == old(self).remaining().drop_first()
                &&& final(self).next_skip() == (if p.skip + p.len < old(self).total() {
                    p.skip + p.len
                } else {
                    old(self).total() as int
                })
            },
    {
        let ghost s = positions(self.next_skip as int, self.total as int);
        if self.next_skip >= self.total {
            assert(s.len() == 0);
            return None;
        }
        let p = PageRange { skip: self.next_skip, len: self.page_size };
        if self.total - self.next_skip <= self.page_size {
            self.next_skip = self.total;
        } else {
            self.next_skip = self.next_skip + self.page_size;
        }
        proof {
            let size = self.page_size as nat;
            let total = self.total as nat;
            if s.len() <= size {
                assert(p.covered(total) =~= s);
                assert(positions(self.next_skip as int, self.total as int).len() == 0);
            } else {
                assert(p.covered(total) =~= s.take(size as int));
                assert(positions(self.next_skip as int, self.total as int) =~= s.skip(size as int));
                assert(chunks(s, size).drop_first() =~= chunks(s.skip(size as int), size));
            }
        }
        Some(p)
    }
}

/// All pages of an indexed scan over `total` records, `page_size` at a time.
pub fn page_ranges(total: u64, page_size: u64) -> (r: Vec<PageRange>)
    requires
        page_size > 0,
    ensures
        forall|i: int|
            0 <= i < r@.len() ==> #[trigger] r@[i].skip == i * page_size && r@[i].len == page_size,
        r@.map_values(|p: PageRange| p.covered(total as nat)) == chunks(
            positions(0, total as int),
            page_size as nat,
        ),
{
    let mut pager = IndexedPager::new(total, page_size);
    let mut out: Vec<PageRange> = Vec::new();
    let ghost all = pager.remaining();
    loop
        invariant
            pager.wf(),
            pager.page_size() == page_size,
            pager.total() == total,
            all == chunks(positions(0, total as int), page_size as nat),
            out@.map_values(|p: PageRange| p.covered(total as nat)) + pager.remaining() == all,
            forall|i: int|
                0 <= i < out@.len() ==> #[trigger] out@[i].skip == i * page_size && out@[i].len
                    == page_size,
            pager.remaining().len() > 0 ==> pager.next_skip() == out@.len() * page_size,
        decreases pager.total() - pager.next_skip(),
    {
        let ghost before = pager.remaining();
        let ghost done = out@.map_values(|p: PageRange| p.covered(total as nat));
        let ghost k = out@.len();
        match pager.next_range() {
            None => {
                assert(out@.map_values(|p: PageRange| p.covered(total as nat)) =~= all);
                return out;
            },
            Some(p) => {
                out.push(p);
                assert(out@.map_values(|p: PageRange| p.covered(total as nat)) + pager.remaining()
                    =~= all) by {
                    assert(before =~= seq![p.covered(total as nat)] + before.drop_first());
                    assert(out@.map_values(|p: PageRange| p.covered(total as nat)) =~= done.push(
                        p.covered(total as nat),
                    ));
                }
                proof {
                    assert((k + 1) * page_size == k * page_size + page_size) by (nonlinear_arith);
                    if pager.remaining().len() > 0 {
                        assert(pager.next_skip() < total) by {
                            if pager.next_skip() >= total {
                                assert(positions(pager.next_skip() as int, total as int).len()
                                    == 0);
                            }
                        }
                    }
                }
            },
        }
    }
}

/// Feeds `items`, one at a time, to a buffer that already holds `pending`:
/// each time the buffer reaches `size` records it is handed out as a page and
/// emptied. The result is the pages handed out and what the buffer then holds.
pub open spec fn fill<A>(pending: Seq<A>, items: Seq<A>, size: nat) -> (Seq<Seq<A>>, Seq<A>)
    decreases items.len(),
{
    if items.len() == 0 {
        (Seq::empty(), pending)
    } else {
        let next = pending.push(items[0]);
        if next.len() >= size {
            let (pages, rest) = fill(Seq::empty(), items.drop_first(), size);
            (seq![next] + pages, rest)
        } else {
            fill(next, items.drop_first(), size)
        }
    }
}

/// The pages that a cursor scan yielding `items` produces: every full page as
/// it fills, then the partial one left at the end, if any.
pub open spec fn cursor_pages<A>(items: Seq<A>, size: nat) -> Seq<Seq<A>> {
    let (pages, rest) = fill(Seq::empty(), items, size);
    if rest.len() > 0 {
        pages.push(rest)
    } else {
        pages
    }
}

proof fn lemma_fill<A>(pending: Seq<A>, items: Seq<A>, size: nat)
    requires
        pending.len() < size,
    ensures
        ({
            let (pages, rest) = fill(pending, items, size);
            &&& rest.len() < size
            &&& (if rest.len() > 0 {
                pages.push(rest)
            } else {
                pages
            }) == chunks(pending + items, size)
        }),
    decreases items.len(),
{
    if items.len() == 0 {
        assert(pending + items =~= pending);
    } else {
        let next = pending.push(items[0]);
        let tail = items.drop_first();
        assert(pending + items =~= next + tail);
        if next.len() >= size {
            lemma_fill(Seq::empty(), tail, size);
            assert(Seq::<A>::empty() + tail =~= tail);
            let (pages, rest) = fill(Seq::empty(), tail, size);
            if tail.len() == 0 {
                assert(next + tail =~= next);
            } else {
                assert((next + tail).take(size as int) =~= next);
                assert((next + tail).skip(size as int) =~= tail);
            }
            if rest.len() > 0 {
                assert((seq![next] + pages).push(rest) =~= seq![next] + pages.push(rest));
            }
        } else {
            lemma_fill(next, tail, size);
        }
    }
}

/// A cursor scan pages exactly as [`chunks`] does: however the records arrive,
/// the pages are the consecutive runs of `size` records, the last one shorter
/// if need be, and none is lost when the cursor runs dry mid-page.
pub proof fn lemma_cursor_pages<A>(items: Seq<A>, size: nat)
    requires
        size > 0,
    ensures
        cursor_pages(items, size) == chunks(items, size),
{
    lemma_fill(Seq::empty(), items, size);
    assert(Seq::<A>::empty() + items =~= items);
}

proof fn lemma_fill_concat<A>(pending: Seq<A>, s: Seq<A>, t: Seq<A>, size: nat)
    ensures
        ({
            let (pa, ra) = fill(pending, s, size);
            let (pb, rb) = fill(ra, t, size);
            fill(pending, s + t, size) == (pa + pb, rb)
        }),
    decreases s.len(),
{
    if s.len() == 0 {
        assert(s + t =~= t);
        let (pb, rb) = fill(pending, t, size);
        assert(Seq::<Seq<A>>::empty() + pb =~= pb);
    } else {
        assert((s + t).drop_first() =~= s.drop_first() + t);
        assert((s + t)[0] == s[0]);
        let next = pending.push(s[0]);
        if next.len() >= size {
            lemma_fill_concat(Seq::empty(), s.drop_first(), t, size);
            let (q1, ra) = fill(Seq::empty(), s.drop_first(), size);
            let (pb, rb) = fill(ra, t, size);
            assert(seq![next] + (q1 + pb) =~= (seq![next] + q1) + pb);
        } else {
            lemma_fill_concat(next, s.drop_first(), t, size);
        }
    }
}

proof fn lemma_fill_step<A>(s: Seq<A>, x: A, size: nat)
    ensures
        ({
            let (pa, ra) = fill(Seq::empty(), s, size);
            let (pb, rb) = fill(ra, seq![x], size);
            fill(Seq::empty(), s.push(x), size) == (pa + pb, rb)
        }),
{
    lemma_fill_concat(Seq::empty(), s, seq![x], size);
    assert(s + seq![x] =~= s.push(x));
}

/// An indexed scan of `total` records covers every position once, in
/// ascending order, with `ceil(total / size)` pages.
pub proof fn lemma_indexed_scan_complete(total: nat, size: nat)
    requires
        size > 0,
    ensures
        chunks(positions(0, total as int), size).len() == page_count(total, size),
        chunks(positions(0, total as int), size).flatten() == positions(0, total as int),
{
    lemma_chunks(positions(0, total as int), size);
}

/// A cursor scan over `items` yields `ceil(n / size)` pages which, laid end to
/// end, give back `items`: no record is lost or repeated.
pub proof fn lemma_cursor_scan_complete<A>(items: Seq<A>, size: nat)
    requires
        size > 0,
    ensures
        cursor_pages(items, size).len() == page_count(items.len(), size),
        cursor_pages(items, size).flatten() == items,
{
    lemma_cursor_pages(items, size);
    lemma_chunks(items, size);
}

/// Pages keep the scan's order: a forward scan of a table gives its records
/// in ascending key order, a reverse scan gives them in descending order.
pub proof fn lemma_scan_order<A>(table: Seq<A>, size: nat)
    requires
        size > 0,
    ensures
        cursor_pages(table, size).flatten() == table,
        cursor_pages(table.reverse(), size).flatten() == table.reverse(),
{
    lemma_cursor_scan_complete(table, size);
    lemma_cursor_scan_complete(table.reverse(), size);
}

/// Collects the records that a cursor yields into pages of a fixed size.
pub struct PageBuffer<T> {
    page_size: usize,
    pending: Vec<T>,
}

impl<T> PageBuffer<T> {
    pub closed spec fn page_size(&self) -> nat {
        self.page_size as nat
    }

    /// The records received since the last page was handed out.
    pub closed spec fn pending(&self) -> Seq<T> {
        self.pending@
    }

    pub open spec fn wf(&self) -> bool {
        self.page_size() > 0 && self.pending().len() < self.page_size()
    }

    pub fn new(page_size: usize) -> (r: PageBuffer<T>)
        requires
            page_size > 0,
        ensures
            r.wf(),
            r.page_size() == page_size,
            r.pending() == Seq::<T>::empty(),
    {
        PageBuffer { page_size, pending: Vec::new() }
    }

    /// Adds the next record; hands out the page if this record fills it.
    pub fn push(&mut self, item: T) -> (r: Option<Vec<T>>)
        requires
            old(self).wf(),
        ensures
            final(self).wf(),
            final(self).page_size() == old(self).page_size(),
            ({
                let (pages, rest) = fill(old(self).pending(), seq![item], old(self).page_size());
                &&& final(self).pending() == rest
                &&& pages.len() == 0 ==> r is None
                &&& pages.len() > 0 ==> (r matches Some(v) && pages == seq![v@])
            }),
    {
        let ghost before = self.pending@;
        self.pending.push(item);
        proof {
            assert(seq![item].drop_first() =~= Seq::<T>::empty());
            assert(seq![item][0] == item);
            let e = Seq::<T>::empty();
            assert(fill(e, e, self.page_size as nat) == (Seq::<Seq<T>>::empty(), e));
            assert(seq![before.push(item)] + Seq::<Seq<T>>::empty() =~= seq![before.push(item)]);
        }
        if self.pending.len() >= self.page_size {
            let mut page: Vec<T> = Vec::new();
            std::mem::swap(&mut page, &mut self.pending);
            proof {
                assert(page@ == before.push(item));
                assert(fill(before, seq![item], self.page_size as nat) == (seq![page@], Seq::<T>::empty()));
            }
            Some(page)
        } else {
            proof {
                let e = Seq::<T>::empty();
                assert(fill(self.pending@, e, self.page_size as nat) == (Seq::<Seq<T>>::empty(), self.pending@));
                assert(fill(before, seq![item], self.page_size as nat) == (Seq::<Seq<T>>::empty(), self.pending@));
            }
            None
        }
    }

    /// Hands out the partial page left when the cursor is exhausted, if any.
    pub fn flush(&mut self) -> (r: Option<Vec<T>>)
        requires
            old(self).wf(),
        ensures
            final(self).wf(),
            final(self).page_size() == old(self).page_size(),
            final(self).pending() == Seq::<T>::empty(),
            old(self).pending().len() == 0 ==> r is None,
            old(self).pending().len() > 0 ==> (r matches Some(v) && v@ == old(self).pending()),
    {
        if self.pending.len() == 0 {
            None
        } else {
            let mut page: Vec<T> = Vec::new();
            std::mem::swap(&mut page, &mut self.pending);
            Some(page)
        }
    }
}

/// Cuts `records`, in the order given, into pages of `page_size` records.
pub fn split_pages<T>(records: Vec<T>, page_size: usize) -> (r: Vec<Vec<T>>)
    requires
        page_size > 0,
    ensures
        r@.map_values(|v: Vec<T>| v@) == chunks(records@, page_size as nat),
{
    let ghost all = records@;
    let ghost size = page_size as nat;
    let mut buf: PageBuffer<T> = PageBuffer::new(page_size);
    let mut out: Vec<Vec<T>> = Vec::new();
    for item in it: records.into_iter()
        invariant
            buf.wf(),
            buf.page_size() == size,
            it.seq() == all,
            ({
                let (pages, rest) = fill(Seq::empty(), all.take(it.index() as int), size);
                &&& out@.map_values(|v: Vec<T>| v@) == pages
                &&& buf.pending() == rest
            }),
    {
        let ghost k = it.index() as int;
        let ghost old_out = out@.map_values(|v: Vec<T>| v@);
        let ghost old_pending = buf.pending();
        proof {
            lemma_fill_step(all.take(k), item, size);
        }
        match buf.push(item) {
            Some(page) => {
                out.push(page);
                assert(out@.map_values(|v: Vec<T>| v@) =~= old_out.push(page@));
            },
            None => {},
        }
        assert(all.take(k + 1) =~= all.take(k).push(item));
    }
    let ghost before = out@.map_values(|v: Vec<T>| v@);
    match buf.flush() {
        Some(page) => {
            out.push(page);
            assert(out@.map_values(|v: Vec<T>| v@) =~= before.push(page@));
        },
        None => {},
    }
    proof {
        assert(all.take(all.len() as int) =~= all);
        lemma_cursor_pages(all, size);
    }
    out
}

} // verus!
