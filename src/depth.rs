//! The structural-depth aggregator of a trie table scan.
//!
//! Each record is a trie node: its path, as a sequence of nibbles, and the
//! mask of the child slots that the node has. The scan tracks the longest
//! path, and flags nodes with at most one child as anomalies.
use vstd::prelude::*;

verus! {

/// A trie node as the depth scan sees it.
pub struct TrieNodeEntry {
    /// The node's path, one nibble per element.
    pub nibbles: Vec<u8>,
    /// Bit `i` is set if the node has a child in slot `i`.
    pub state_mask: u16,
}

/// Whether bit `i` of `mask` is set.
pub open spec fn bit_set(mask: u16, i: u16) -> bool {
    (mask >> i) & 1u16 == 1u16
}

/// How many of the lowest `n` bits of `mask` are set.
pub open spec fn bits_below(mask: u16, n: nat) -> nat
    decreases n,
{
    if n == 0 {
        0
    } else {
        bits_below(mask, (n - 1) as nat) + if bit_set(mask, (n - 1) as u16) {
            1nat
        } else {
            0nat
        }
    }
}

/// How many child slots `mask` marks as taken.
pub open spec fn child_count(mask: u16) -> nat {
    bits_below(mask, 16)
}

/// A node with at most one child: a well-formed branch node has two or more.
pub open spec fn is_anomalous(mask: u16) -> bool {
    child_count(mask) <= 1
}

/// Counts the child slots that `mask` marks as taken.
pub fn mask_child_count(mask: u16) -> (r: u32)
    ensures
        r == child_count(mask),
{
    let mut count: u32 = 0;
    let mut i: u16 = 0;
    while i < 16
        invariant
            i <= 16,
            count == bits_below(mask, i as nat),
            count <= i,
        decreases 16 - i,
    {
        if (mask >> i) & 1 == 1 {
            count = count + 1;
        }
        i = i + 1;
    }
    count
}

/// Whether the depth scan flags a node with this mask.
pub fn is_anomalous_mask(mask: u16) -> (r: bool)
    ensures
        r == is_anomalous(mask),
{
    mask_child_count(mask) <= 1
}

/// The longest path among `s`, or 0 if `s` is empty.
pub open spec fn max_depth(s: Seq<TrieNodeEntry>) -> nat
    decreases s.len(),
{
    if s.len() == 0 {
        0
    } else {
        let d = s.last().nibbles@.len();
        let rest = max_depth(s.drop_last());
        if d > rest {
            d
        } else {
            rest
        }
    }
}

/// The positions in `s` of the nodes that are flagged, in ascending order.
pub open spec fn flagged_positions(s: Seq<TrieNodeEntry>) -> Seq<usize>
    decreases s.len(),
{
    if s.len() == 0 {
        Seq::empty()
    } else {
        let rest = flagged_positions(s.drop_last());
        if is_anomalous(s.last().state_mask) {
            rest.push((s.len() - 1) as usize)
        } else {
            rest
        }
    }
}

/// What the depth scan learns from one page.
pub struct PageDepth {
    /// The longest path in the page.
    pub max_depth: usize,
    /// The positions within the page of the flagged nodes.
    pub flagged: Vec<usize>,
}

/// The longest path in a page, and which of its nodes are flagged.
pub fn page_depth(entries: &Vec<TrieNodeEntry>) -> (r: PageDepth)
    ensures
        r.max_depth == max_depth(entries@),
        r.flagged@ == flagged_positions(entries@),
{
    let mut best: usize = 0;
    let mut flagged: Vec<usize> = Vec::new();
    let mut i: usize = 0;
    while i < entries.len()
        invariant
            i <= entries.len(),
            best == max_depth(entries@.take(i as int)),
            flagged@ == flagged_positions(entries@.take(i as int)),
        decreases entries.len() - i,
    {
        let e = &entries[i];
        proof {
            let t = entries@.take(i + 1);
            assert(t.drop_last() =~= entries@.take(i as int));
            assert(t.last() == entries@[i as int]);
        }
        if is_anomalous_mask(e.state_mask) {
            flagged.push(i);
        }
        let d = e.nibbles.len();
        if d > best {
            best = d;
        }
        i = i + 1;
    }
    assert(entries@.take(i as int) =~= entries@);
    PageDepth { max_depth: best, flagged }
}

/// The running state of a depth scan.
pub struct DepthScan {
    /// The longest path over all pages so far.
    pub global_max: usize,
}

impl DepthScan {
    pub fn new() -> (r: DepthScan)
        ensures
            r.global_max == 0,
    {
        DepthScan { global_max: 0 }
    }

    /// Takes the next page into account and returns what it holds.
    pub fn absorb(&mut self, entries: &Vec<TrieNodeEntry>) -> (r: PageDepth)
        ensures
            r.max_depth == max_depth(entries@),
            r.flagged@ == flagged_positions(entries@),
            final(self).global_max == (if r.max_depth > old(self).global_max {
                r.max_depth
            } else {
                old(self).global_max
            }),
    {
        let r = page_depth(entries);
        if r.max_depth > self.global_max {
            self.global_max = r.max_depth;
        }
        r
    }
}

/// The running maximum over pages is the maximum over all their records:
/// absorbing page `b` after pages that made up `a` gives the depth of `a + b`.
pub proof fn lemma_max_depth_pages(a: Seq<TrieNodeEntry>, b: Seq<TrieNodeEntry>)
    ensures
        max_depth(a + b) == (if max_depth(b) > max_depth(a) {
            max_depth(b)
        } else {
            max_depth(a)
        }),
    decreases b.len(),
{
    if b.len() == 0 {
        assert(a + b =~= a);
    } else {
        assert((a + b).drop_last() =~= a + b.drop_last());
        assert((a + b).last() == b.last());
        lemma_max_depth_pages(a, b.drop_last());
    }
}

proof fn lemma_bits_of_pair(i: u16, j: u16, n: nat)
    requires
        i < 16,
        j < 16,
        n <= 16,
    ensures
        bits_below(((1u16 << i) | (1u16 << j)) as u16, n) == (if i < n {
            1nat
        } else {
            0nat
        }) + (if j < n && j != i {
            1nat
        } else {
            0nat
        }),
    decreases n,
{
    if n > 0 {
        let k = (n - 1) as u16;
        lemma_bits_of_pair(i, j, (n - 1) as nat);
        let m = ((1u16 << i) | (1u16 << j)) as u16;
        assert(bit_set(m, k) == (k == i || k == j)) by (bit_vector)
            requires
                i < 16,
                j < 16,
                k < 16,
                m == (1u16 << i) | (1u16 << j),
        ;
    }
}

proof fn lemma_bits_of_zero(n: nat)
    requires
        n <= 16,
    ensures
        bits_below(0u16, n) == 0,
    decreases n,
{
    if n > 0 {
        let k = (n - 1) as u16;
        lemma_bits_of_zero((n - 1) as nat);
        assert(!bit_set(0u16, k)) by (bit_vector)
            requires
                k < 16,
        ;
    }
}

/// A node with no child, or with exactly one child in any slot, is flagged;
/// a node with children in two distinct slots is not.
pub proof fn lemma_anomaly_flags(i: u16, j: u16)
    requires
        i < 16,
        j < 16,
    ensures
        is_anomalous(0),
        is_anomalous(1u16 << i),
        i != j ==> !is_anomalous(((1u16 << i) | (1u16 << j)) as u16),
{
    lemma_bits_of_zero(16);
    lemma_bits_of_pair(i, j, 16);
    lemma_bits_of_pair(i, i, 16);
    assert(((1u16 << i) | (1u16 << i)) as u16 == 1u16 << i) by (bit_vector);
}

} // verus!
