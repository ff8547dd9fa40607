//! The block cache index: an ordered mapping from block number to the cache
//! keys recorded while that block was the observed head.
//!
//! The index is kept as a vector of entries in strictly ascending block
//! order, so the oldest retained block is always at the front and a reorg's
//! contiguous block range occupies a contiguous span of entries. Its
//! abstraction is the map from block number to the recorded keys, each key a
//! sequence of characters.

use vstd::prelude::*;

verus! {

/// The blocks invalidated by a reorg over the inclusive range `[from, to]`.
pub open spec fn block_range(from: int, to: int) -> Set<u64> {
    Set::new(|b: u64| from <= b <= to)
}

/// Every block up to `bound` inclusive: the blocks retired once finality
/// has advanced past them.
pub open spec fn blocks_through(bound: int) -> Set<u64> {
    Set::new(|b: u64| b <= bound)
}

/// Whether `key` is recorded against some block of `m` in `[from, to]`.
pub open spec fn key_evicted(
    m: Map<u64, Seq<Seq<char>>>,
    from: int,
    to: int,
    key: Seq<char>,
) -> bool {
    exists|b: u64| from <= b <= to && #[trigger] m.contains_key(b) && m[b].contains(key)
}

/// The keys a sweep of the inclusive block range `[from, to]` over index
/// `m` collects: ascending by block number, within one block in the order
/// the keys were recorded.
pub open spec fn evicted_key_seq(
    m: Map<u64, Seq<Seq<char>>>,
    from: int,
    to: int,
) -> Seq<Seq<char>>
    decreases to + 1 - from,
{
    if from > to {
        Seq::empty()
    } else {
        evicted_key_seq(m, from, to - 1) + (if 0 <= to <= u64::MAX && m.contains_key(
            to as u64,
        ) {
            m[to as u64]
        } else {
            Seq::empty()
        })
    }
}

/// A sweep collects nothing over a stretch of blocks the index does not
/// hold: the bound can be pulled down past it.
proof fn lemma_evicted_key_seq_gap(m: Map<u64, Seq<Seq<char>>>, from: int, x: int, y: int)
    requires
        x <= y,
        forall|b: u64| x < b <= y ==> !m.contains_key(b),
    ensures
        evicted_key_seq(m, from, y) == evicted_key_seq(m, from, x),
    decreases y - x,
{
    if x < y {
        lemma_evicted_key_seq_gap(m, from, x, y - 1);
        if from <= y {
            if 0 <= y <= u64::MAX {
                assert(x < y as u64 <= y);
                assert(!m.contains_key(y as u64));
            }
            assert(evicted_key_seq(m, from, y) =~= evicted_key_seq(m, from, y - 1));
        }
    }
}

/// A sweep over an empty index collects no keys at all.
pub proof fn lemma_evicted_key_seq_empty(from: int, to: int)
    ensures
        evicted_key_seq(Map::<u64, Seq<Seq<char>>>::empty(), from, to) == Seq::<
            Seq<char>,
        >::empty(),
    decreases to + 1 - from,
{
    if from <= to {
        lemma_evicted_key_seq_empty(from, to - 1);
        assert(evicted_key_seq(Map::<u64, Seq<Seq<char>>>::empty(), from, to) =~= Seq::<
            Seq<char>,
        >::empty());
    }
}

/// Whether some entry of `s` carries block number `b`.
pub open spec fn has_block(s: Seq<(u64, Vec<String>)>, b: u64) -> bool {
    exists|i: int| 0 <= i < s.len() && (#[trigger] s[i]).0 == b
}

/// An index of an entry of `s` carrying block number `b`.
pub closed spec fn block_index(s: Seq<(u64, Vec<String>)>, b: u64) -> int {
    choose|i: int| 0 <= i < s.len() && (#[trigger] s[i]).0 == b
}

/// Whether the entries of `s` are in strictly ascending block order.
pub open spec fn entries_sorted(s: Seq<(u64, Vec<String>)>) -> bool {
    forall|i: int, j: int| 0 <= i < j < s.len() ==> (#[trigger] s[i]).0 < (#[trigger] s[j]).0
}

/// The block cache index.
pub struct HeadCache {
    entries: Vec<(u64, Vec<String>)>,
}

impl View for HeadCache {
    type V = Map<u64, Seq<Seq<char>>>;

    closed spec fn view(&self) -> Map<u64, Seq<Seq<char>>> {
        Map::new(
            |b: u64| has_block(self.entries@, b),
            |b: u64| self.entries@[block_index(self.entries@, b)].1.deep_view(),
        )
    }
}

impl HeadCache {
    /// Internal invariant: entries stand in strictly ascending block order,
    /// so block numbers are unique and the oldest block is first.
    pub closed spec fn wf(&self) -> bool {
        entries_sorted(self.entries@)
    }

    /// In a duplicate-free entry sequence, the entry at `i` is what the
    /// abstract map holds for its block number.
    proof fn lemma_entry_in_view(&self, i: int)
        requires
            self.wf(),
            0 <= i < self.entries@.len(),
        ensures
            self@.contains_key(self.entries@[i].0),
            self@[self.entries@[i].0] == self.entries@[i].1.deep_view(),
    {
        let s = self.entries@;
        let b = s[i].0;
        assert(has_block(s, b));
        let j = block_index(s, b);
        assert(0 <= j < s.len() && s[j].0 == b);
        if i != j {
            if i < j {
                assert(s[i].0 < s[j].0);
            } else {
                assert(s[j].0 < s[i].0);
            }
        }
        assert(j == i);
    }

    /// A fresh, empty index.
    pub fn new() -> (r: HeadCache)
        ensures
            r.wf(),
            r@ == Map::<u64, Seq<Seq<char>>>::empty(),
    {
        let r = HeadCache { entries: Vec::new() };
        proof {
            assert(r@ =~= Map::<u64, Seq<Seq<char>>>::empty());
        }
        r
    }

    /// Records `key` against `block`: appends it to the block's entry,
    /// creating the entry if the block is not yet present.
    pub fn record(&mut self, block: u64, key: String)
        requires
            old(self).wf(),
        ensures
            final(self).wf(),
            final(self)@ == old(self)@.insert(
                block,
                if old(self)@.contains_key(block) {
                    old(self)@[block].push(key@)
                } else {
                    seq![key@]
                },
            ),
    {
        let ghost s0 = self.entries@;
        let ghost m0 = self@;
        let mut i: usize = 0;
        #[verifier::loop_isolation(false)]
        while i < self.entries.len() && self.entries[i].0 < block
            invariant
                i <= s0.len(),
                forall|j: int| 0 <= j < i ==> (#[trigger] s0[j]).0 < block,
            decreases s0.len() - i,
        {
            i = i + 1;
        }
        if i < self.entries.len() && self.entries[i].0 == block {
            let mut e = self.entries.remove(i);
            e.1.push(key);
            self.entries.insert(i, e);
            proof {
                let s1 = self.entries@;
                assert(s1 =~= s0.update(i as int, (block, e.1)));
                assert forall|p: int, q: int| 0 <= p < q < s1.len() implies (#[trigger] s1[p]).0
                    < (#[trigger] s1[q]).0 by {
                    assert(s1[p].0 == s0[p].0);
                    assert(s1[q].0 == s0[q].0);
                }
                self.lemma_entry_in_view(i as int);
                assert(e.1.deep_view() =~= s0[i as int].1.deep_view().push(key@));
                old(self).lemma_entry_in_view(i as int);
                assert(m0.contains_key(block));
                assert(m0[block] == s0[i as int].1.deep_view());
                assert forall|b: u64| true implies self@.contains_key(b) == m0.insert(
                    block,
                    m0[block].push(key@),
                ).contains_key(b) by {
                    assert(has_block(s1, b) == has_block(s0, b)) by {
                        if has_block(s1, b) {
                            let w = choose|w: int| 0 <= w < s1.len() && (#[trigger] s1[w]).0 == b;
                            assert(s0[w].0 == b);
                        }
                        if has_block(s0, b) {
                            let w = choose|w: int| 0 <= w < s0.len() && (#[trigger] s0[w]).0 == b;
                            assert(s1[w].0 == b);
                        }
                    }
                }
                assert forall|b: u64| self@.contains_key(b) implies self@[b] == m0.insert(
                    block,
                    m0[block].push(key@),
                )[b] by {
                    let w = choose|w: int| 0 <= w < s1.len() && (#[trigger] s1[w]).0 == b;
                    self.lemma_entry_in_view(w);
                    if b == block {
                        assert(s1[w] == s1[i as int]) by {
                            if w != i {
                                assert(s1[w].0 != s1[i as int].0);
                            }
                        }
                    } else {
                        assert(w != i);
                        assert(s0[w] == s1[w]);
                        old(self).lemma_entry_in_view(w);
                    }
                }
                assert(self@ =~= m0.insert(block, m0[block].push(key@)));
            }
        } else {
            proof {
                assert(!has_block(s0, block)) by {
                    if has_block(s0, block) {
                        let w = choose|w: int| 0 <= w < s0.len() && (#[trigger] s0[w]).0 == block;
                        if w < i {
                            assert(s0[w].0 < block);
                        } else {
                            assert(i < s0.len());
                            if i < w {
                                assert(s0[i as int].0 < s0[w].0);
                            }
                        }
                    }
                }
                assert(!m0.contains_key(block));
            }
            let mut ks: Vec<String> = Vec::new();
            ks.push(key);
            self.entries.insert(i, (block, ks));
            proof {
                let s1 = self.entries@;
                assert(s1 == s0.insert(i as int, (block, ks)));
                assert forall|p: int, q: int| 0 <= p < q < s1.len() implies (#[trigger] s1[p]).0
                    < (#[trigger] s1[q]).0 by {
                    let up = if p < i { p } else { p - 1 };
                    let uq = if q < i { q } else { q - 1 };
                    if p != i && q != i {
                        assert(s1[p] == s0[up]);
                        assert(s1[q] == s0[uq]);
                    } else if p == i {
                        assert(s1[q] == s0[uq]);
                        assert(uq >= i);
                        assert(s0[uq].0 > block) by {
                            if i < s0.len() && uq > i {
                                assert(s0[i as int].0 < s0[uq].0);
                            }
                        }
                    } else {
                        assert(s1[p] == s0[up]);
                        assert(up < i);
                    }
                }
                assert(ks.deep_view() =~= seq![key@]);
                assert forall|b: u64| true implies self@.contains_key(b) == m0.insert(
                    block,
                    seq![key@],
                ).contains_key(b) by {
                    if b == block {
                        assert(s1[i as int].0 == block);
                        assert(has_block(s1, b));
                    } else {
                        if has_block(s1, b) {
                            let w = choose|w: int| 0 <= w < s1.len() && (#[trigger] s1[w]).0 == b;
                            let uw = if w < i { w } else { w - 1 };
                            assert(w != i);
                            assert(s0[uw].0 == b);
                        }
                        if has_block(s0, b) {
                            let w = choose|w: int| 0 <= w < s0.len() && (#[trigger] s0[w]).0 == b;
                            let nw = if w < i { w } else { w + 1 };
                            assert(s1[nw].0 == b);
                        }
                    }
                }
                assert forall|b: u64| self@.contains_key(b) implies self@[b] == m0.insert(
                    block,
                    seq![key@],
                )[b] by {
                    let w = choose|w: int| 0 <= w < s1.len() && (#[trigger] s1[w]).0 == b;
                    self.lemma_entry_in_view(w);
                    if b == block {
                        assert(s1[w] == s1[i as int]) by {
                            if w != i {
                                assert(s1[w].0 != s1[i as int].0);
                            }
                        }
                    } else {
                        assert(w != i);
                        let uw = if w < i { w } else { w - 1 };
                        assert(s1[w] == s0[uw]);
                        assert(s0[uw].0 == b);
                        old(self).lemma_entry_in_view(uw);
                    }
                }
                assert(self@ =~= m0.insert(block, seq![key@]));
            }
        }
    }
    /// Removes every entry whose block number lies in the inclusive range
    /// `[from, to]` and hands back all keys those entries recorded. Blocks
    /// outside the range, and their keys, are untouched; a range that meets
    /// no entry leaves the index as it was and returns nothing.
    #[verifier::rlimit(60)]
    pub fn remove_range(&mut self, from: u64, to: u64) -> (removed: Vec<String>)
        requires
            old(self).wf(),
        ensures
            final(self).wf(),
            final(self)@ == old(self)@.remove_keys(block_range(from as int, to as int)),
            forall|key: Seq<char>| #[trigger] removed.deep_view().contains(key) <==> key_evicted(
                old(self)@,
                from as int,
                to as int,
                key,
            ),
            removed.deep_view() == evicted_key_seq(old(self)@, from as int, to as int),
    {
        let ghost s0 = self.entries@;
        let ghost m0 = self@;
        let ghost n = s0.len() as int;
        proof {
            assert forall|j: int| 0 <= j < n implies m0.contains_key((#[trigger] s0[j]).0)
                && m0[s0[j].0] == s0[j].1.deep_view() by {
                self.lemma_entry_in_view(j);
            }
        }
        let mut kept: Vec<(u64, Vec<String>)> = Vec::new();
        let mut removed: Vec<String> = Vec::new();
        let ghost mut k: int = 0;
        let ghost mut bound: int = from as int - 1;
        #[verifier::loop_isolation(false)]
        while self.entries.len() > 0
            invariant
                0 <= k <= n,
                from as int - 1 <= bound,
                bound == from as int - 1 || (bound <= to as int && exists|j: int|
                    0 <= j < k && (#[trigger] s0[j]).0 == bound),
                removed.deep_view() == evicted_key_seq(m0, from as int, bound),
                forall|b: u64|
                    #[trigger] m0.contains_key(b) && bound < b <= to as int ==> exists|j: int|
                        k <= j < n && (#[trigger] s0[j]).0 == b,
                self.entries@ == s0.subrange(k, n),
                entries_sorted(kept@ + self.entries@),
                forall|j: int| 0 <= j < kept@.len() ==> !(from <= (#[trigger] kept@[j]).0 <= to),
                forall|j: int| #![trigger kept@[j]] 0 <= j < kept@.len() ==> exists|i: int|
                    0 <= i < k && #[trigger] s0[i] == kept@[j],
                forall|b: u64| has_block(s0.subrange(0, k), b) && !(from <= b <= to)
                    ==> has_block(kept@, b),
                forall|key: Seq<char>| #[trigger] removed.deep_view().contains(key)
                    <==> exists|i: int|
                    0 <= i < k && from <= (#[trigger] s0[i]).0 <= to
                        && s0[i].1.deep_view().contains(key),
            decreases self.entries@.len(),
        {
            let ghost c_old = kept@ + self.entries@;
            let mut e = self.entries.remove(0);
            proof {
                assert(e == s0[k]);
                assert(self.entries@ =~= s0.subrange(k + 1, n));
            }
            if from <= e.0 && e.0 <= to {
                let ghost r_old = removed.deep_view();
                let ghost d = e.1.deep_view();
                removed.append(&mut e.1);
                proof {
                    assert(removed.deep_view() =~= r_old + d);
                    let c_new = kept@ + self.entries@;
                    assert forall|p: int, q: int| 0 <= p < q < c_new.len() implies (
                    #[trigger] c_new[p]).0 < (#[trigger] c_new[q]).0 by {
                        let up = if p < kept@.len() { p } else { p + 1 };
                        let uq = if q < kept@.len() { q } else { q + 1 };
                        assert(up < uq);
                        assert(c_new[p] == c_old[up]);
                        assert(c_new[q] == c_old[uq]);
                    }
                    assert forall|key: Seq<char>| #[trigger] (r_old + d).contains(key) implies
                    exists|i: int|
                        0 <= i < k + 1 && from <= (#[trigger] s0[i]).0 <= to
                            && s0[i].1.deep_view().contains(key) by {
                        let x = choose|x: int| 0 <= x < (r_old + d).len() && (r_old + d)[x] == key;
                        if x < r_old.len() {
                            assert(r_old.contains(key));
                        } else {
                            assert(d[x - r_old.len()] == key);
                            assert(s0[k].1.deep_view().contains(key));
                            assert(0 <= k < k + 1 && from <= s0[k].0 <= to
                                && s0[k].1.deep_view().contains(key));
                        }
                    }
                    assert forall|key: Seq<char>|
                        exists|i: int|
                            0 <= i < k + 1 && from <= (#[trigger] s0[i]).0 <= to
                                && s0[i].1.deep_view().contains(key) implies #[trigger] (r_old
                        + d).contains(key) by {
                        let i = choose|i: int|
                            0 <= i < k + 1 && from <= (#[trigger] s0[i]).0 <= to
                                && s0[i].1.deep_view().contains(key);
                        if i < k {
                            assert(r_old.contains(key));
                            let x = choose|x: int| 0 <= x < r_old.len() && r_old[x] == key;
                            assert((r_old + d)[x] == key);
                        } else {
                            let x = choose|x: int| 0 <= x < d.len() && d[x] == key;
                            assert((r_old + d)[r_old.len() + x] == key);
                        }
                    }
                    let b0 = s0[k].0;
                    assert(m0.contains_key(b0) && m0[b0] == d);
                    assert(bound < b0) by {
                        if bound != from as int - 1 {
                            let j = choose|j: int| 0 <= j < k && (#[trigger] s0[j]).0 == bound;
                            assert(s0[j].0 < s0[k].0);
                        }
                    }
                    assert forall|b: u64| bound < b <= b0 - 1 implies !m0.contains_key(b) by {
                        if m0.contains_key(b) {
                            let j = choose|j: int| k <= j < n && (#[trigger] s0[j]).0 == b;
                            if j > k {
                                assert(s0[k].0 < s0[j].0);
                            }
                        }
                    }
                    lemma_evicted_key_seq_gap(m0, from as int, bound, b0 as int - 1);
                    assert(evicted_key_seq(m0, from as int, b0 as int) == evicted_key_seq(
                        m0,
                        from as int,
                        b0 as int - 1,
                    ) + m0[b0]);
                    bound = b0 as int;
                    assert(s0[k].0 == bound);
                    assert(exists|j: int| 0 <= j < k + 1 && (#[trigger] s0[j]).0 == bound);
                    assert forall|b: u64|
                        #[trigger] m0.contains_key(b) && bound < b <= to as int implies exists|
                        j: int,
                    | k + 1 <= j < n && (#[trigger] s0[j]).0 == b by {
                        let j = choose|j: int| k <= j < n && (#[trigger] s0[j]).0 == b;
                        assert(j != k);
                    }
                    k = k + 1;
                }
            } else {
                let ghost kept_old = kept@;
                kept.push(e);
                proof {
                    assert(kept@ + self.entries@ =~= c_old);
                    assert forall|b: u64| has_block(s0.subrange(0, k + 1), b) && !(from <= b
                        <= to) implies has_block(kept@, b) by {
                        let w = choose|w: int|
                            0 <= w < k + 1 && (#[trigger] s0.subrange(0, k + 1)[w]).0 == b;
                        if w < k {
                            assert(s0.subrange(0, k)[w].0 == b);
                            assert(has_block(kept_old, b));
                            let v = choose|v: int|
                                0 <= v < kept_old.len() && (#[trigger] kept_old[v]).0 == b;
                            assert(kept@[v].0 == b);
                        } else {
                            assert(kept@[kept@.len() - 1].0 == b);
                        }
                    }
                    assert forall|b: u64|
                        #[trigger] m0.contains_key(b) && bound < b <= to as int implies exists|
                        j: int,
                    | k + 1 <= j < n && (#[trigger] s0[j]).0 == b by {
                        let j = choose|j: int| k <= j < n && (#[trigger] s0[j]).0 == b;
                        assert(j != k) by {
                            if j == k {
                                assert(b == s0[k].0);
                                assert(!(from <= s0[k].0 <= to));
                            }
                        }
                    }
                    if bound != from as int - 1 {
                        let j = choose|j: int| 0 <= j < k && (#[trigger] s0[j]).0 == bound;
                        assert(0 <= j < k + 1 && s0[j].0 == bound);
                    }
                    k = k + 1;
                }
            }
        }
        proof {
            assert(s0.subrange(k, n).len() == 0);
            assert(k == n);
            if bound <= to as int {
                assert forall|b: u64| bound < b <= to as int implies !m0.contains_key(b) by {
                    if m0.contains_key(b) {
                        let j = choose|j: int| n <= j < n && (#[trigger] s0[j]).0 == b;
                        assert(false);
                    }
                }
                lemma_evicted_key_seq_gap(m0, from as int, bound, to as int);
            } else {
                assert(bound == from as int - 1);
                assert(evicted_key_seq(m0, from as int, to as int)
                    == Seq::<Seq<char>>::empty());
                assert(evicted_key_seq(m0, from as int, bound) == Seq::<Seq<char>>::empty());
            }
            assert(removed.deep_view() == evicted_key_seq(m0, from as int, to as int));
        }
        let ghost kept_final = kept@;
        self.entries = kept;
        proof {
            assert(self.entries@ + Seq::<(u64, Vec<String>)>::empty() =~= self.entries@);
            assert(self.wf());
            let mr = m0.remove_keys(block_range(from as int, to as int));
            assert forall|b: u64| true implies self@.contains_key(b) == mr.contains_key(b) by {
                if has_block(kept_final, b) {
                    let j = choose|j: int|
                        0 <= j < kept_final.len() && (#[trigger] kept_final[j]).0 == b;
                    let i = choose|i: int| 0 <= i < k && s0[i] == kept_final[j];
                    assert(s0[i].0 == b);
                    assert(has_block(s0, b));
                    assert(!(from <= b <= to));
                    assert(m0.contains_key(b));
                } else {
                    if m0.contains_key(b) && !(from <= b <= to) {
                        assert(s0.subrange(0, n) =~= s0);
                        assert(has_block(s0.subrange(0, n), b));
                        assert(has_block(kept_final, b));
                    }
                }
            }
            assert forall|b: u64| self@.contains_key(b) implies self@[b] == mr[b] by {
                let j = choose|j: int|
                    0 <= j < kept_final.len() && (#[trigger] kept_final[j]).0 == b;
                self.lemma_entry_in_view(j);
                let i = choose|i: int| 0 <= i < k && s0[i] == kept_final[j];
                old(self).lemma_entry_in_view(i);
                assert(m0[b] == s0[i].1.deep_view());
            }
            assert(self@ =~= mr);
            assert forall|key: Seq<char>| #[trigger] removed.deep_view().contains(key)
                == key_evicted(m0, from as int, to as int, key) by {
                if removed.deep_view().contains(key) {
                    let i = choose|i: int|
                        0 <= i < k && from <= (#[trigger] s0[i]).0 <= to
                            && s0[i].1.deep_view().contains(key);
                    old(self).lemma_entry_in_view(i);
                    assert(from as int <= s0[i].0 <= to as int && m0.contains_key(s0[i].0)
                        && m0[s0[i].0].contains(key));
                }
                if key_evicted(m0, from as int, to as int, key) {
                    let b = choose|b: u64|
                        from as int <= b <= to as int && #[trigger] m0.contains_key(b)
                            && m0[b].contains(key);
                    assert(has_block(s0, b));
                    let w = block_index(s0, b);
                    assert(0 <= w < s0.len() && s0[w].0 == b);
                    assert(m0[b] == s0[w].1.deep_view());
                }
            }
        }
        removed
    }

    /// Whether the index holds no entry at all.
    pub fn is_empty(&self) -> (r: bool)
        requires
            self.wf(),
        ensures
            r <==> self@ == Map::<u64, Seq<Seq<char>>>::empty(),
    {
        let r = self.entries.len() == 0;
        proof {
            if r {
                assert(self@ =~= Map::<u64, Seq<Seq<char>>>::empty());
            } else {
                self.lemma_entry_in_view(0);
            }
        }
        r
    }

    /// Whether some keys are recorded against `block`.
    pub fn contains_block(&self, block: u64) -> (r: bool)
        requires
            self.wf(),
        ensures
            r == self@.contains_key(block),
    {
        let mut i: usize = 0;
        #[verifier::loop_isolation(false)]
        while i < self.entries.len()
            invariant
                i <= self.entries@.len(),
                forall|j: int| 0 <= j < i ==> (#[trigger] self.entries@[j]).0 != block,
            decreases self.entries@.len() - i,
        {
            if self.entries[i].0 == block {
                proof {
                    assert(has_block(self.entries@, block));
                }
                return true;
            }
            i = i + 1;
        }
        proof {
            assert(!has_block(self.entries@, block));
        }
        false
    }

    /// The keys recorded against `block`, if any were.
    pub fn get_keys<'a>(&'a self, block: u64) -> (r: Option<&'a Vec<String>>)
        requires
            self.wf(),
        ensures
            match r {
                Some(ks) => self@.contains_key(block) && ks.deep_view() == self@[block],
                None => !self@.contains_key(block),
            },
    {
        let mut i: usize = 0;
        #[verifier::loop_isolation(false)]
        while i < self.entries.len()
            invariant
                i <= self.entries@.len(),
                forall|j: int| 0 <= j < i ==> (#[trigger] self.entries@[j]).0 != block,
            decreases self.entries@.len() - i,
        {
            if self.entries[i].0 == block {
                proof {
                    self.lemma_entry_in_view(i as int);
                }
                return Some(&self.entries[i].1);
            }
            i = i + 1;
        }
        proof {
            assert(!has_block(self.entries@, block));
        }
        None
    }

    /// The oldest retained block number: the least key of the index.
    pub fn oldest(&self) -> (r: Option<u64>)
        requires
            self.wf(),
        ensures
            match r {
                Some(b) => self@.contains_key(b) && forall|b2: u64|
                    #[trigger] self@.contains_key(b2) ==> b <= b2,
                None => self@ == Map::<u64, Seq<Seq<char>>>::empty(),
            },
    {
        if self.entries.len() == 0 {
            proof {
                assert(self@ =~= Map::<u64, Seq<Seq<char>>>::empty());
            }
            None
        } else {
            let b = self.entries[0].0;
            proof {
                self.lemma_entry_in_view(0);
                assert forall|b2: u64| #[trigger] self@.contains_key(b2) implies b <= b2 by {
                    let w = choose|w: int|
                        0 <= w < self.entries@.len() && (#[trigger] self.entries@[w]).0 == b2;
                    if w > 0 {
                        assert(self.entries@[0].0 < self.entries@[w].0);
                    }
                }
            }
            Some(b)
        }
    }
}

} // verus!
