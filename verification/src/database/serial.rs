//! The actor's ordering guarantee, made concrete.
//!
//! All backend operations funnel through one mailbox with a single
//! consumer, so they are totally ordered by arrival. This module gives that
//! guarantee a checkable form: a model of the store as a map from byte keys
//! to byte values, the effect of each operation on it, and a serving loop
//! whose contract says that every reply reflects exactly the state produced
//! by all earlier operations — no more, no fewer.

use vstd::prelude::*;

verus! {

/// One backend operation as the model store sees it: keys and values are
/// plain byte vectors, a batch is a list of removals.
pub enum StoreOp {
    Read(Vec<u8>),
    Write(Vec<u8>, Vec<u8>),
    BatchRemove(Vec<Vec<u8>>),
    Flush,
}

/// The model store's reply to one operation. Reads and writes hand back the
/// value found or replaced, if any.
pub enum StoreReply {
    Read(Option<Vec<u8>>),
    Write(Option<Vec<u8>>),
    Batch,
    Flush,
}

/// The effect of one operation on the store's contents.
pub open spec fn apply_op(s: Map<Seq<u8>, Seq<u8>>, op: StoreOp) -> Map<Seq<u8>, Seq<u8>> {
    match op {
        StoreOp::Read(_) => s,
        StoreOp::Write(k, v) => s.insert(k@, v@),
        StoreOp::BatchRemove(ks) => s.remove_keys(
            Set::new(|key: Seq<u8>| ks.deep_view().contains(key)),
        ),
        StoreOp::Flush => s,
    }
}

/// The store's contents after applying `ops` in order, oldest first.
pub open spec fn apply_ops(s: Map<Seq<u8>, Seq<u8>>, ops: Seq<StoreOp>) -> Map<Seq<u8>, Seq<u8>>
    decreases ops.len(),
{
    if ops.len() == 0 {
        s
    } else {
        apply_op(apply_ops(s, ops.drop_last()), ops.last())
    }
}

/// Whether `r` is the reply `op` earns against contents `s`.
pub open spec fn reply_matches(s: Map<Seq<u8>, Seq<u8>>, op: StoreOp, r: StoreReply) -> bool {
    match op {
        StoreOp::Read(k) => r matches StoreReply::Read(v) && (match v {
            Some(bytes) => s.contains_key(k@) && s[k@] == bytes@,
            None => !s.contains_key(k@),
        }),
        StoreOp::Write(k, _v) => r matches StoreReply::Write(prev) && (match prev {
            Some(bytes) => s.contains_key(k@) && s[k@] == bytes@,
            None => !s.contains_key(k@),
        }),
        StoreOp::BatchRemove(_) => r is Batch,
        StoreOp::Flush => r is Flush,
    }
}

/// Whether some cell of `s` carries key `k`.
pub open spec fn has_cell(s: Seq<(Vec<u8>, Vec<u8>)>, k: Seq<u8>) -> bool {
    exists|i: int| 0 <= i < s.len() && (#[trigger] s[i]).0@ == k
}

/// An index of a cell of `s` carrying key `k`.
pub closed spec fn cell_index(s: Seq<(Vec<u8>, Vec<u8>)>, k: Seq<u8>) -> int {
    choose|i: int| 0 <= i < s.len() && (#[trigger] s[i]).0@ == k
}

/// Whether no two cells of `s` carry the same key.
pub open spec fn cells_unique(s: Seq<(Vec<u8>, Vec<u8>)>) -> bool {
    forall|i: int, j: int|
        0 <= i < j < s.len() ==> (#[trigger] s[i]).0@ != (#[trigger] s[j]).0@
}

/// The contents a cell list stands for.
pub closed spec fn mem_view(s: Seq<(Vec<u8>, Vec<u8>)>) -> Map<Seq<u8>, Seq<u8>> {
    Map::new(|k: Seq<u8>| has_cell(s, k), |k: Seq<u8>| s[cell_index(s, k)].1@)
}

/// In a duplicate-free cell list, the cell at `i` is what the abstract
/// contents hold for its key.
proof fn lemma_cell_in_mem_view(s: Seq<(Vec<u8>, Vec<u8>)>, i: int)
    requires
        cells_unique(s),
        0 <= i < s.len(),
    ensures
        mem_view(s).contains_key(s[i].0@),
        mem_view(s)[s[i].0@] == s[i].1@,
{
    let k = s[i].0@;
    assert(has_cell(s, k));
    let j = cell_index(s, k);
    assert(0 <= j < s.len() && s[j].0@ == k);
    if i < j {
        assert(s[i].0@ != s[j].0@);
    } else if j < i {
        assert(s[j].0@ != s[i].0@);
    }
    assert(j == i);
}

/// An in-memory store: the reference model of a backend. It matches the
/// abstract contents exactly, so the serving loop's ordering contract can
/// be stated — and exercised — against it.
pub struct MemBackend {
    cells: Vec<(Vec<u8>, Vec<u8>)>,
}

impl View for MemBackend {
    type V = Map<Seq<u8>, Seq<u8>>;

    closed spec fn view(&self) -> Map<Seq<u8>, Seq<u8>> {
        mem_view(self.cells@)
    }
}

/// Whether two byte vectors hold the same bytes.
fn bytes_eq(a: &Vec<u8>, b: &Vec<u8>) -> (r: bool)
    ensures
        r == (a@ == b@),
{
    if a.len() != b.len() {
        return false;
    }
    let mut i: usize = 0;
    #[verifier::loop_isolation(false)]
    while i < a.len()
        invariant
            i <= a@.len(),
            a@.len() == b@.len(),
            forall|j: int| 0 <= j < i ==> a@[j] == b@[j],
        decreases a@.len() - i,
    {
        if a[i] != b[i] {
            return false;
        }
        i = i + 1;
    }
    proof {
        assert(a@ =~= b@);
    }
    true
}

/// Copies a byte vector.
fn bytes_copy(a: &Vec<u8>) -> (r: Vec<u8>)
    ensures
        r@ == a@,
{
    let mut r: Vec<u8> = Vec::new();
    let mut i: usize = 0;
    #[verifier::loop_isolation(false)]
    while i < a.len()
        invariant
            i <= a@.len(),
            r@ == a@.take(i as int),
        decreases a@.len() - i,
    {
        r.push(a[i]);
        proof {
            assert(r@ =~= a@.take(i as int + 1));
        }
        i = i + 1;
    }
    proof {
        assert(a@.take(a@.len() as int) =~= a@);
    }
    r
}

impl MemBackend {
    /// Internal invariant: no two cells carry the same key.
    pub closed spec fn wf(&self) -> bool {
        cells_unique(self.cells@)
    }

    /// A fresh, empty store.
    pub fn new() -> (r: MemBackend)
        ensures
            r.wf(),
            r@ == Map::<Seq<u8>, Seq<u8>>::empty(),
    {
        let r = MemBackend { cells: Vec::new() };
        proof {
            assert(r@ =~= Map::<Seq<u8>, Seq<u8>>::empty());
        }
        r
    }

    /// The position of the cell carrying `key`, if one does.
    fn find(&self, key: &Vec<u8>) -> (r: Option<usize>)
        requires
            self.wf(),
        ensures
            match r {
                Some(i) => i < self.cells@.len() && self.cells@[i as int].0@ == key@
                    && self@.contains_key(key@) && self@[key@] == self.cells@[i as int].1@,
                None => !self@.contains_key(key@),
            },
    {
        let mut i: usize = 0;
        #[verifier::loop_isolation(false)]
        while i < self.cells.len()
            invariant
                i <= self.cells@.len(),
                forall|j: int| 0 <= j < i ==> (#[trigger] self.cells@[j]).0@ != key@,
            decreases self.cells@.len() - i,
        {
            if bytes_eq(&self.cells[i].0, key) {
                proof {
                    lemma_cell_in_mem_view(self.cells@, i as int);
                }
                return Some(i);
            }
            i = i + 1;
        }
        proof {
            assert(!has_cell(self.cells@, key@));
        }
        None
    }

    /// Removes the cell carrying `key`, if one does, and hands back its
    /// value.
    fn take_cell(&mut self, key: &Vec<u8>) -> (r: Option<Vec<u8>>)
        requires
            old(self).wf(),
        ensures
            final(self).wf(),
            final(self)@ == old(self)@.remove(key@),
            match r {
                Some(bytes) => old(self)@.contains_key(key@) && old(self)@[key@] == bytes@,
                None => !old(self)@.contains_key(key@),
            },
    {
        let ghost s0 = self.cells@;
        let ghost m0 = self@;
        match self.find(key) {
            Some(i) => {
                let cell = self.cells.remove(i);
                proof {
                    let s1 = self.cells@;
                    assert forall|p: int, q: int| 0 <= p < q < s1.len() implies (
                    #[trigger] s1[p]).0@ != (#[trigger] s1[q]).0@ by {
                        let up = if p < i { p } else { p + 1 };
                        let uq = if q < i { q } else { q + 1 };
                        assert(s1[p] == s0[up] && s1[q] == s0[uq]);
                    }
                    assert forall|k: Seq<u8>| true implies self@.contains_key(k) == m0.remove(
                        key@,
                    ).contains_key(k) by {
                        if has_cell(s1, k) {
                            let w = choose|w: int| 0 <= w < s1.len() && (#[trigger] s1[w]).0@ == k;
                            let uw = if w < i { w } else { w + 1 };
                            assert(s0[uw].0@ == k);
                            assert(uw != i);
                            assert(k != key@) by {
                                if uw < i {
                                    assert(s0[uw].0@ != s0[i as int].0@);
                                } else {
                                    assert(s0[i as int].0@ != s0[uw].0@);
                                }
                            }
                            assert(has_cell(s0, k));
                        } else if m0.remove(key@).contains_key(k) {
                            let w = choose|w: int| 0 <= w < s0.len() && (#[trigger] s0[w]).0@ == k;
                            assert(w != i);
                            let nw = if w < i { w } else { w - 1 };
                            assert(s1[nw].0@ == k);
                        }
                    }
                    assert forall|k: Seq<u8>| self@.contains_key(k) implies self@[k] == m0.remove(
                        key@,
                    )[k] by {
                        let w = choose|w: int| 0 <= w < s1.len() && (#[trigger] s1[w]).0@ == k;
                        lemma_cell_in_mem_view(s1, w);
                        let uw = if w < i { w } else { w + 1 };
                        assert(s1[w] == s0[uw]);
                        lemma_cell_in_mem_view(s0, uw);
                    }
                    assert(self@ =~= m0.remove(key@));
                }
                Some(cell.1)
            },
            None => {
                proof {
                    assert(!m0.contains_key(key@));
                    assert(self@ =~= m0.remove(key@));
                }
                None
            },
        }
    }

    /// Serves one operation: applies its effect and returns its reply.
    pub fn step(&mut self, op: StoreOp) -> (r: StoreReply)
        requires
            old(self).wf(),
        ensures
            final(self).wf(),
            final(self)@ == apply_op(old(self)@, op),
            reply_matches(old(self)@, op, r),
    {
        match op {
            StoreOp::Read(k) => {
                let r = match self.find(&k) {
                    Some(i) => Some(bytes_copy(&self.cells[i].1)),
                    None => None,
                };
                StoreReply::Read(r)
            },
            StoreOp::Write(k, v) => {
                let ghost m0 = self@;
                let prev = self.take_cell(&k);
                let ghost s1 = self.cells@;
                let ghost m1 = self@;
                let ghost kk = k@;
                let ghost vv = v@;
                self.cells.push((k, v));
                proof {
                    let s2 = self.cells@;
                    let last = s2.len() - 1;
                    assert(s2[last].0@ == kk && s2[last].1@ == vv);
                    assert forall|p: int, q: int| 0 <= p < q < s2.len() implies (
                    #[trigger] s2[p]).0@ != (#[trigger] s2[q]).0@ by {
                        if q < last {
                            assert(s2[p] == s1[p] && s2[q] == s1[q]);
                        } else {
                            assert(s2[p] == s1[p]);
                            if s1[p].0@ == kk {
                                assert(has_cell(s1, kk));
                                assert(m1.contains_key(kk));
                            }
                        }
                    }
                    assert forall|key: Seq<u8>| true implies self@.contains_key(key) == m1.insert(
                        kk,
                        vv,
                    ).contains_key(key) by {
                        if key == kk {
                            assert(has_cell(s2, key));
                        } else {
                            if has_cell(s2, key) {
                                let w = choose|w: int| 0 <= w < s2.len() && (#[trigger] s2[w]).0@
                                    == key;
                                assert(w != last);
                                assert(s1[w].0@ == key);
                            }
                            if m1.contains_key(key) {
                                let w = choose|w: int| 0 <= w < s1.len() && (#[trigger] s1[w]).0@
                                    == key;
                                assert(s2[w].0@ == key);
                            }
                        }
                    }
                    assert forall|key: Seq<u8>| self@.contains_key(key) implies self@[key]
                        == m1.insert(kk, vv)[key] by {
                        let w = choose|w: int| 0 <= w < s2.len() && (#[trigger] s2[w]).0@ == key;
                        lemma_cell_in_mem_view(s2, w);
                        if key == kk {
                            assert(s2[w] == s2[last]) by {
                                if w < last {
                                    assert(s2[w].0@ != s2[last].0@);
                                }
                            }
                        } else {
                            assert(w != last);
                            assert(s2[w] == s1[w]);
                            lemma_cell_in_mem_view(s1, w);
                        }
                    }
                    assert(self@ =~= m1.insert(kk, vv));
                    assert(m1.insert(kk, vv) =~= m0.insert(kk, vv));
                }
                StoreReply::Write(prev)
            },
            StoreOp::BatchRemove(ks) => {
                let ghost m0 = self@;
                let ghost kd = ks.deep_view();
                let mut i: usize = 0;
                #[verifier::loop_isolation(false)]
                while i < ks.len()
                    invariant
                        i <= ks@.len(),
                        self.wf(),
                        self@ == m0.remove_keys(
                            Set::new(|key: Seq<u8>| kd.take(i as int).contains(key)),
                        ),
                    decreases ks@.len() - i,
                {
                    let ghost m_before = self@;
                    let _ = self.take_cell(&ks[i]);
                    proof {
                        assert(kd[i as int] == ks@[i as int]@);
                        let small = Set::new(|key: Seq<u8>| kd.take(i as int).contains(key));
                        let big = Set::new(|key: Seq<u8>| kd.take(i as int + 1).contains(key));
                        assert forall|key: Seq<u8>| true implies big.contains(key) == (
                        small.contains(key) || key == kd[i as int]) by {
                            if kd.take(i as int + 1).contains(key) {
                                let w = choose|w: int|
                                    0 <= w < i + 1 && #[trigger] kd.take(i as int + 1)[w] == key;
                                if w < i {
                                    assert(kd.take(i as int)[w] == key);
                                }
                            }
                            if kd.take(i as int).contains(key) {
                                let w = choose|w: int|
                                    0 <= w < i && #[trigger] kd.take(i as int)[w] == key;
                                assert(kd.take(i as int + 1)[w] == key);
                            }
                            if key == kd[i as int] {
                                assert(kd.take(i as int + 1)[i as int] == key);
                            }
                        }
                        assert(self@ =~= m0.remove_keys(big));
                    }
                    i = i + 1;
                }
                proof {
                    assert(kd.take(ks@.len() as int) =~= kd);
                    assert(Set::new(|key: Seq<u8>| kd.take(ks@.len() as int).contains(key))
                        =~= Set::new(|key: Seq<u8>| kd.contains(key)));
                }
                StoreReply::Batch
            },
            StoreOp::Flush => StoreReply::Flush,
        }
    }
}

/// Serves a list of operations strictly in submission order, replying to
/// each in turn.
///
/// The contract is the serialization guarantee: the reply to the operation
/// at position `i` reflects exactly the contents produced by the operations
/// before it — every earlier effect is already applied, and no later one
/// is — and the final contents are those of the whole list applied oldest
/// first.
pub fn run_in_order(store: &mut MemBackend, ops: Vec<StoreOp>) -> (replies: Vec<StoreReply>)
    requires
        old(store).wf(),
    ensures
        final(store).wf(),
        final(store)@ == apply_ops(old(store)@, ops@),
        replies@.len() == ops@.len(),
        forall|i: int|
            0 <= i < ops@.len() ==> reply_matches(
                apply_ops(old(store)@, ops@.take(i)),
                ops@[i],
                #[trigger] replies@[i],
            ),
{
    let ghost s_init = store@;
    let ghost o0 = ops@;
    let ghost n = o0.len() as int;
    let mut ops = ops;
    let mut replies: Vec<StoreReply> = Vec::new();
    let ghost mut k: int = 0;
    #[verifier::loop_isolation(false)]
    while ops.len() > 0
        invariant
            0 <= k <= n,
            store.wf(),
            ops@ == o0.subrange(k, n),
            store@ == apply_ops(s_init, o0.take(k)),
            replies@.len() == k,
            forall|i: int|
                0 <= i < k ==> reply_matches(
                    apply_ops(s_init, o0.take(i)),
                    o0[i],
                    #[trigger] replies@[i],
                ),
        decreases ops@.len(),
    {
        let op = ops.remove(0);
        proof {
            assert(op == o0[k]);
            assert(ops@ =~= o0.subrange(k + 1, n));
        }
        let reply = store.step(op);
        replies.push(reply);
        proof {
            assert(o0.take(k + 1).drop_last() =~= o0.take(k));
            assert(o0.take(k + 1).last() == o0[k]);
            k = k + 1;
        }
    }
    proof {
        assert(k == n);
        assert(o0.take(n) =~= o0);
    }
    replies
}

/// Law: operations take effect in submission order. For any position `i`,
/// the contents the operation at `i` acts on are exactly those produced by
/// the operations before it, and the final contents factor through that
/// point — so the effect of an operation submitted earlier is applied
/// before the effect of every operation submitted later.
pub proof fn lemma_ops_apply_in_submission_order(
    s: Map<Seq<u8>, Seq<u8>>,
    ops: Seq<StoreOp>,
    i: int,
)
    requires
        0 <= i < ops.len(),
    ensures
        apply_ops(s, ops.take(i + 1)) == apply_op(apply_ops(s, ops.take(i)), ops[i]),
        apply_ops(s, ops) == apply_ops(apply_ops(s, ops.take(i + 1)), ops.skip(i + 1)),
{
    assert(ops.take(i + 1).drop_last() =~= ops.take(i));
    assert(ops.take(i + 1).last() == ops[i]);
    lemma_apply_ops_concat(s, ops.take(i + 1), ops.skip(i + 1));
    assert(ops.take(i + 1) + ops.skip(i + 1) =~= ops);
}

/// Applying a concatenation is applying the first part, then the second.
proof fn lemma_apply_ops_concat(s: Map<Seq<u8>, Seq<u8>>, a: Seq<StoreOp>, b: Seq<StoreOp>)
    ensures
        apply_ops(s, a + b) == apply_ops(apply_ops(s, a), b),
    decreases b.len(),
{
    if b.len() == 0 {
        assert(a + b =~= a);
    } else {
        lemma_apply_ops_concat(s, a, b.drop_last());
        assert((a + b).drop_last() =~= a + b.drop_last());
        assert((a + b).last() == b.last());
    }
}

} // verus!
